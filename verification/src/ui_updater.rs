//! What the interface shows of the plans of the active player: the path
//! that a click would walk, the ray that an attack would follow, and the
//! lines of the event log.

use vstd::prelude::*;
use vstd::string::StringExecFns;
use crate::appearance::Color;
use crate::common::{InTurn, InTurnState, LONG_WALK, SHORT_WALK};
use crate::entity_map::Entity;
use crate::event_log::LogEvent;
use crate::geometry::Cell;
use crate::maps::Maps;
use crate::space::{Viewport, MAP_HEIGHT, MAP_WIDTH, MAP_Y};
use crate::text::{decimal, decimal_of};

verus! {

/// The system that prepares what the interface shows.
#[derive(Copy, Clone, Debug, PartialEq, Eq, Structural)]
pub struct UiUpdater;

/// The colour in which a walk of `dist` steps is shown: green for a short
/// walk, orange for a walk that takes the whole turn, none for a walk that
/// the turn does not allow.
pub open spec fn walk_color(dist: int, has_walked: bool) -> Option<Color> {
    if has_walked {
        if dist < SHORT_WALK {
            Some(Color::LightOrange)
        } else {
            None
        }
    } else if dist < SHORT_WALK {
        Some(Color::LightGreen)
    } else if dist < LONG_WALK {
        Some(Color::LightOrange)
    } else {
        None
    }
}

pub fn distance_color(dist: usize, turn: &InTurn) -> (color: Option<Color>)
    ensures
        color == walk_color(dist as int, turn.has_walked),
{
    if turn.has_walked {
        if dist < SHORT_WALK {
            return Some(Color::LightOrange);
        }
    } else {
        if dist < SHORT_WALK {
            return Some(Color::LightGreen);
        } else if dist < LONG_WALK {
            return Some(Color::LightOrange);
        }
    }
    None
}

/// What to highlight on the map, and in which colour.
#[derive(Clone, Debug, PartialEq, Eq)]
pub struct Highlight {
    pub color: Color,
    pub cells: Vec<Cell>,
}

/// The cell of the map under the mouse: the position is taken through the
/// viewport and then off the panel, and must lie on the map.
pub open spec fn hovered_cell(viewport: &Viewport, mouse: Cell) -> Option<Cell> {
    let x = mouse.0 + viewport.r.x1;
    let y = mouse.1 + viewport.r.y1;
    if 0 <= x < MAP_WIDTH && 0 <= y - MAP_Y < MAP_HEIGHT {
        Some((x as i32, (y - MAP_Y) as i32))
    } else {
        None
    }
}

/// The name under which an entity without a description goes.
pub open spec fn unknown_name() -> Seq<char> {
    "unknwon"@
}

/// The line of the log for an event, where `name` is the name of the
/// entity that the event is about.
pub open spec fn line_of(event: LogEvent, name: Seq<char>) -> Seq<char> {
    match event {
        LogEvent::FinishedTurn(_) => name + " finished turn"@,
        LogEvent::Died(_) => name + " died!"@,
        LogEvent::DidDamage(_, _, damage) => name + " did "@ + decimal_of(damage as int) + " dmg"@,
    }
}

/// The entity that an event is about: who finished, died or did damage.
pub open spec fn subject_of(event: LogEvent) -> Entity {
    match event {
        LogEvent::FinishedTurn(id) => id,
        LogEvent::Died(id) => id,
        LogEvent::DidDamage(source, _, _) => source,
    }
}

impl UiUpdater {
    /// The cell of the map under the mouse.
    pub fn hovered(viewport: &Viewport, mouse: Cell) -> (r: Option<Cell>)
        ensures
            r == hovered_cell(viewport, mouse),
    {
        let x: i64 = mouse.0 as i64 + viewport.r.x1 as i64;
        let y: i64 = mouse.1 as i64 + viewport.r.y1 as i64 - MAP_Y as i64;
        if x >= 0 && x < MAP_WIDTH as i64 && y >= 0 && y < MAP_HEIGHT as i64 {
            Some((x as i32, y as i32))
        } else {
            None
        }
    }

    /// What to highlight for the active player `id`, which stands in `at`.
    ///
    /// Only an idle actor in turn gets a highlight. Without the control key
    /// it is the walk to the cell under the mouse, if that cell is in the
    /// viewport and the turn allows a walk of that length; with it, the ray
    /// of the weapon at hand toward that cell, in red.
    pub fn highlights(
        maps: &Maps,
        viewport: &Viewport,
        id: &Entity,
        at: Cell,
        mouse: Cell,
        ctrl: bool,
        turn: Option<&InTurn>,
        range: Option<i32>,
    ) -> (r: Option<Highlight>)
        requires
            maps.wf(),
        ensures
            match (turn, hovered_cell(viewport, mouse)) {
                (Some(t), Some(pos)) if t.state == InTurnState::Idle => {
                    if ctrl {
                        match range {
                            Some(reach) => r.is_some() && r.unwrap().color == Color::LightRed
                                && r.unwrap().cells@ == maps.ray_cells(at, pos, reach as int),
                            None => r.is_none(),
                        }
                    } else if !viewport.r.holds(pos) {
                        r.is_none()
                    } else {
                        match r {
                            Some(h) => {
                                &&& Some(h.color) == walk_color(h.cells@.len() as int, t.has_walked)
                                &&& h.cells@.len() > 0 ==> maps.walk_joins(*id, at, pos, h.cells@)
                                &&& forall|route: Seq<Cell>|
                                    maps.walk_joins(*id, at, pos, route) && at != pos
                                        ==> 0 < h.cells@.len() <= route.len()
                            },
                            None => at != pos && forall|route: Seq<Cell>|
                                maps.walk_joins(*id, at, pos, route) ==> walk_color(
                                    route.len() as int,
                                    t.has_walked,
                                ).is_none(),
                        }
                    }
                },
                _ => r.is_none(),
            },
    {
        let t = match turn {
            Some(t) => t,
            None => {
                return None;
            },
        };
        if t.state != InTurnState::Idle {
            return None;
        }
        let pos = match Self::hovered(viewport, mouse) {
            Some(pos) => pos,
            None => {
                return None;
            },
        };
        if !ctrl {
            if viewport.visible(pos) {
                let path = maps.find_path(id, at, pos);
                match distance_color(path.len(), t) {
                    Some(color) => Some(Highlight { color, cells: path }),
                    None => None,
                }
            } else {
                None
            }
        } else {
            match range {
                Some(reach) => {
                    let ray = maps.draw_ray(at, pos, reach);
                    Some(Highlight { color: Color::LightRed, cells: ray })
                },
                None => None,
            }
        }
    }

    /// The line of the log for an event, where `name` is the name of the
    /// entity that the event is about, if it has one.
    pub fn event_text(event: &LogEvent, name: Option<&str>) -> (line: String)
        ensures
            line@ == line_of(
                *event,
                match name {
                    Some(n) => n@,
                    None => unknown_name(),
                },
            ),
    {
        let start = String::from_str(
            match name {
                Some(n) => n,
                None => "unknwon",
            },
        );
        match *event {
            LogEvent::FinishedTurn(_) => start.concat(" finished turn"),
            LogEvent::Died(_) => start.concat(" died!"),
            LogEvent::DidDamage(_, _, damage) => {
                let amount = decimal(damage as i64);
                start.concat(" did ").concat(amount.as_str()).concat(" dmg")
            },
        }
    }
}

} // verus!
