//! The panels of the interface: boxes with text in them.
//!
//! A panel has a name and a frame around its content. What is drawn of the
//! panels is a list of commands for a renderer.

use vstd::prelude::*;
use crate::appearance::Color;
use crate::geometry::{Cell, Rect};

verus! {

/// What a panel shows.
#[derive(Debug, PartialEq, Eq)]
pub enum UiData {
    Empty,
    Text { text: String },
    MultiLine { text: Vec<String> },
    Border { content: Box<UiElement> },
}

/// A piece of the interface: what it shows, and where.
#[derive(Debug, PartialEq, Eq)]
pub struct UiElement {
    pub data: UiData,
    pub rect: Rect,
}

/// What a renderer is told to draw.
#[derive(Debug, PartialEq, Eq)]
pub enum UiCommand {
    /// A line of text that starts at a position.
    Text { pos: Cell, bg: Color, fg: Color, text: String },
    /// A frame along the rim of a rectangle.
    Frame { rect: Rect, bg: Color, fg: Color },
}

/// The commands for the lines of a text from the `i`-th on: each line one
/// row below the one before it, the first in the row `top`. A line whose
/// row cannot be represented is left out.
pub open spec fn line_commands(lines: Seq<String>, left: i32, top: i32, i: int) -> Seq<UiCommand>
    decreases lines.len() - i,
{
    if i < 0 || i >= lines.len() {
        Seq::empty()
    } else {
        let rest = line_commands(lines, left, top, i + 1);
        if top + i <= i32::MAX {
            seq![
                UiCommand::Text {
                    pos: (left, (top + i) as i32),
                    bg: Color::Black,
                    fg: Color::LightGrey,
                    text: lines[i],
                },
            ] + rest
        } else {
            rest
        }
    }
}

/// The element with its content replaced: the content of a frame is what
/// the frame holds, to any depth.
pub open spec fn updated(element: UiElement, inner: UiData) -> UiElement
    decreases element,
{
    match element.data {
        UiData::Border { content } => UiElement {
            data: UiData::Border { content: Box::new(updated(*content, inner)) },
            rect: element.rect,
        },
        _ => UiElement { data: inner, rect: element.rect },
    }
}

/// The commands that draw an element: a text at the first cell of its
/// rectangle, the lines of a text one below the other, a frame followed by
/// what it holds.
pub open spec fn commands_of(element: UiElement) -> Seq<UiCommand>
    decreases element,
{
    match element.data {
        UiData::Empty => Seq::empty(),
        UiData::Text { text } => seq![
            UiCommand::Text {
                pos: (element.rect.x1, element.rect.y1),
                bg: Color::Black,
                fg: Color::LightGrey,
                text,
            },
        ],
        UiData::MultiLine { text } => line_commands(text@, element.rect.x1, element.rect.y1, 0),
        UiData::Border { content } => seq![
            UiCommand::Frame { rect: element.rect, bg: Color::Black, fg: Color::LightGrey },
        ] + commands_of(*content),
    }
}

impl UiElement {
    /// Adds the commands that draw the element.
    pub fn render(&self, out: &mut Vec<UiCommand>)
        ensures
            final(out)@ == old(out)@ + commands_of(*self),
        decreases self,
    {
        match &self.data {
            UiData::Empty => {
                assert(out@ + Seq::<UiCommand>::empty() == out@);
            },
            UiData::Text { text } => {
                out.push(
                    UiCommand::Text {
                        pos: (self.rect.left(), self.rect.top()),
                        bg: Color::Black,
                        fg: Color::LightGrey,
                        text: text.clone(),
                    },
                );
                assert(out@ == old(out)@ + commands_of(*self));
            },
            UiData::MultiLine { text } => {
                let ghost all = line_commands(text@, self.rect.x1, self.rect.y1, 0);
                let mut i: usize = 0;
                assert(out@ + all == old(out)@ + commands_of(*self));
                while i < text.len()
                    invariant
                        i <= text@.len(),
                        out@ + line_commands(text@, self.rect.x1, self.rect.y1, i as int) == old(
                            out,
                        )@ + commands_of(*self),
                    decreases text@.len() - i,
                {
                    let ghost rest = line_commands(text@, self.rect.x1, self.rect.y1, i as int + 1);
                    if i <= 0xFFFF_FFFF && self.rect.top() as i64 + i as i64 <= i32::MAX as i64 {
                        let row = (self.rect.top() as i64 + i as i64) as i32;
                        let command = UiCommand::Text {
                            pos: (self.rect.left(), row),
                            bg: Color::Black,
                            fg: Color::LightGrey,
                            text: text[i].clone(),
                        };
                        assert(out@.push(command) + rest == out@ + (seq![command] + rest));
                        out.push(command);
                    }
                    i = i + 1;
                }
                assert(out@ + Seq::<UiCommand>::empty() == out@);
            },
            UiData::Border { content } => {
                let frame = UiCommand::Frame {
                    rect: self.rect,
                    bg: Color::Black,
                    fg: Color::LightGrey,
                };
                out.push(frame);
                let ghost mid = out@;
                content.render(out);
                assert(mid + commands_of(**content) == old(out)@ + (seq![frame] + commands_of(
                    **content,
                )));
            },
        }
    }

    /// Replaces the content of the element, inside its frames.
    pub fn update(&mut self, inner: UiData)
        ensures
            *final(self) == updated(*old(self), inner),
        decreases *old(self),
    {
        match &mut self.data {
            UiData::Border { content } => {
                content.update(inner);
            },
            _ => {
                self.data = inner;
            },
        }
    }

    /// A text in a rectangle.
    pub fn text(rect: Rect, text: String) -> (e: UiElement)
        ensures
            e == (UiElement { data: UiData::Text { text }, rect }),
    {
        UiElement { data: UiData::Text { text }, rect }
    }

    /// A rectangle with nothing in it.
    pub fn empty(rect: Rect) -> (e: UiElement)
        ensures
            e == (UiElement { data: UiData::Empty, rect }),
    {
        UiElement { data: UiData::Empty, rect }
    }

    /// A frame around an element, one cell wider on every side.
    pub fn border(content: UiElement) -> (e: UiElement)
        requires
            content.rect.can_grow(1),
        ensures
            e.data == (UiData::Border { content: Box::new(content) }),
            e.rect == (Rect {
                x1: (content.rect.x1 - 1) as i32,
                y1: (content.rect.y1 - 1) as i32,
                x2: (content.rect.x2 + 1) as i32,
                y2: (content.rect.y2 + 1) as i32,
            }),
    {
        let outer_rect = content.rect.grow(1);
        UiElement { data: UiData::Border { content: Box::new(content) }, rect: outer_rect }
    }
}

/// A panel and its name.
#[derive(Debug, PartialEq, Eq)]
pub struct Panel {
    pub name: String,
    pub element: UiElement,
}

/// The place of the first panel of a name, or the number of panels where
/// no panel has that name.
pub open spec fn panel_place(panels: Seq<Panel>, name: Seq<char>) -> int
    decreases panels.len(),
{
    if panels.len() == 0 {
        0
    } else if panels[0].name@ == name {
        0
    } else {
        1 + panel_place(panels.skip(1), name)
    }
}

/// The commands that draw the panels from the `i`-th on.
pub open spec fn panel_commands(panels: Seq<Panel>, i: int) -> Seq<UiCommand>
    decreases panels.len() - i,
{
    if i < 0 || i >= panels.len() {
        Seq::empty()
    } else {
        commands_of(panels[i].element) + panel_commands(panels, i + 1)
    }
}

/// The interface: its panels, in the order in which they were added.
pub struct Ui {
    pub elements: Vec<Panel>,
}

impl Ui {
    /// An interface without panels.
    pub fn new() -> (ui: Ui)
        ensures
            ui.elements@ == Seq::<Panel>::empty(),
    {
        Ui { elements: Vec::new() }
    }

    /// Finds the first panel of a name.
    fn find(&self, name: &String) -> (i: usize)
        ensures
            i == panel_place(self.elements@, name@),
            i <= self.elements@.len(),
    {
        let mut i: usize = 0;
        assert(self.elements@.skip(0) == self.elements@);
        while i < self.elements.len() && !(self.elements[i].name == *name)
            invariant
                i <= self.elements@.len(),
                panel_place(self.elements@, name@) == i + panel_place(
                    self.elements@.skip(i as int),
                    name@,
                ),
            decreases self.elements@.len() - i,
        {
            proof {
                assert(self.elements@.skip(i as int).skip(1) == self.elements@.skip(i as int + 1));
                assert(self.elements@.skip(i as int)[0] == self.elements@[i as int]);
            }
            i = i + 1;
        }
        proof {
            if i < self.elements@.len() {
                assert(self.elements@.skip(i as int)[0] == self.elements@[i as int]);
            }
        }
        i
    }

    /// Adds an empty panel with a frame around the rectangle given. It
    /// takes the place of a panel of the same name.
    pub fn add(&mut self, name: String, rect: Rect)
        requires
            rect.can_grow(1),
        ensures
            ({
                let i = panel_place(old(self).elements@, name@);
                let panel = Panel {
                    name,
                    element: UiElement {
                        data: UiData::Border {
                            content: Box::new(UiElement { data: UiData::Empty, rect }),
                        },
                        rect: Rect {
                            x1: (rect.x1 - 1) as i32,
                            y1: (rect.y1 - 1) as i32,
                            x2: (rect.x2 + 1) as i32,
                            y2: (rect.y2 + 1) as i32,
                        },
                    },
                };
                final(self).elements@ == if i < old(self).elements@.len() {
                    old(self).elements@.update(i, panel)
                } else {
                    old(self).elements@.push(panel)
                }
            }),
    {
        let i = self.find(&name);
        let element = UiElement::border(UiElement::empty(rect));
        let panel = Panel { name, element };
        if i < self.elements.len() {
            self.elements[i] = panel;
        } else {
            self.elements.push(panel);
        }
    }

    /// Replaces the content of the panel of a name, if there is one.
    pub fn update(&mut self, name: String, element: UiData)
        ensures
            ({
                let i = panel_place(old(self).elements@, name@);
                final(self).elements@ == if i < old(self).elements@.len() {
                    old(self).elements@.update(
                        i,
                        Panel {
                            name: old(self).elements@[i].name,
                            element: updated(old(self).elements@[i].element, element),
                        },
                    )
                } else {
                    old(self).elements@
                }
            }),
    {
        let i = self.find(&name);
        if i < self.elements.len() {
            self.elements[i].element.update(element);
            assert(self.elements@ =~= old(self).elements@.update(
                i as int,
                Panel {
                    name: old(self).elements@[i as int].name,
                    element: updated(old(self).elements@[i as int].element, element),
                },
            ));
        }
    }

    /// The commands that draw the panels, one panel after the other.
    pub fn draw(&self) -> (commands: Vec<UiCommand>)
        ensures
            commands@ == panel_commands(self.elements@, 0),
    {
        let mut commands: Vec<UiCommand> = Vec::new();
        let mut i: usize = 0;
        assert(commands@ + panel_commands(self.elements@, 0) == panel_commands(self.elements@, 0));
        while i < self.elements.len()
            invariant
                i <= self.elements@.len(),
                commands@ + panel_commands(self.elements@, i as int) == panel_commands(
                    self.elements@,
                    0,
                ),
            decreases self.elements@.len() - i,
        {
            let ghost before = commands@;
            let ghost here = commands_of(self.elements@[i as int].element);
            let ghost rest = panel_commands(self.elements@, i as int + 1);
            self.elements[i].element.render(&mut commands);
            assert((before + here) + rest == before + (here + rest));
            i = i + 1;
        }
        assert(commands@ + Seq::<UiCommand>::empty() == commands@);
        commands
    }
}

} // verus!
