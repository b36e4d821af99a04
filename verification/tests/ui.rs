use tower_tactics::appearance::Color;
use tower_tactics::geometry::Rect;
use tower_tactics::ui::{Ui, UiCommand, UiData, UiElement};

fn text(pos: (i32, i32), text: &str) -> UiCommand {
    UiCommand::Text { pos, bg: Color::Black, fg: Color::LightGrey, text: text.to_string() }
}

fn frame(rect: Rect) -> UiCommand {
    UiCommand::Frame { rect, bg: Color::Black, fg: Color::LightGrey }
}

fn render(element: &UiElement) -> Vec<UiCommand> {
    let mut out = Vec::new();
    element.render(&mut out);
    out
}

#[test]
fn elements_draw_their_content() {
    let rect = Rect::new(3, 4, 10, 2);
    assert_eq!(render(&UiElement::empty(rect)), vec![]);
    assert_eq!(render(&UiElement::text(rect, "hello".to_string())), vec![text((3, 4), "hello")]);
    let lines = UiElement {
        data: UiData::MultiLine { text: vec!["a".to_string(), "b".to_string(), "c".to_string()] },
        rect,
    };
    assert_eq!(render(&lines), vec![text((3, 4), "a"), text((3, 5), "b"), text((3, 6), "c")]);
    let framed = UiElement::border(UiElement::text(rect, "x".to_string()));
    assert_eq!(framed.rect, Rect::new(2, 3, 12, 4));
    assert_eq!(render(&framed), vec![frame(Rect::new(2, 3, 12, 4)), text((3, 4), "x")]);
}

#[test]
fn lines_without_a_row_are_left_out() {
    let low = UiElement {
        data: UiData::MultiLine { text: vec!["a".to_string(), "b".to_string(), "c".to_string()] },
        rect: Rect { x1: 0, y1: i32::MAX - 1, x2: 5, y2: i32::MAX },
    };
    assert_eq!(render(&low), vec![text((0, i32::MAX - 1), "a"), text((0, i32::MAX), "b")]);
}

#[test]
fn update_reaches_inside_the_frames() {
    let rect = Rect::new(3, 4, 10, 2);
    let mut element = UiElement::border(UiElement::border(UiElement::empty(rect)));
    element.update(UiData::Text { text: "deep".to_string() });
    assert_eq!(
        render(&element),
        vec![frame(Rect::new(1, 2, 14, 6)), frame(Rect::new(2, 3, 12, 4)), text((3, 4), "deep")]
    );
    element.update(UiData::Empty);
    assert_eq!(element, UiElement::border(UiElement::border(UiElement::empty(rect))));
    let mut plain = UiElement::text(rect, "old".to_string());
    plain.update(UiData::Text { text: "new".to_string() });
    assert_eq!(plain, UiElement::text(rect, "new".to_string()));
}

#[test]
fn panels_by_name() {
    let mut ui = Ui::new();
    assert_eq!(ui.draw(), vec![]);
    ui.add("time_left".to_string(), Rect::new(37, 1, 5, 1));
    ui.add("event_log".to_string(), Rect::new(14, 1, 21, 5));
    ui.update("time_left".to_string(), UiData::Text { text: "600".to_string() });
    ui.update("nothing".to_string(), UiData::Text { text: "lost".to_string() });
    ui.update(
        "event_log".to_string(),
        UiData::MultiLine { text: vec!["one".to_string(), "two".to_string()] },
    );
    assert_eq!(
        ui.draw(),
        vec![
            frame(Rect::new(36, 0, 7, 3)),
            text((37, 1), "600"),
            frame(Rect::new(13, 0, 23, 7)),
            text((14, 1), "one"),
            text((14, 2), "two"),
        ]
    );
    // A panel added again takes the place of the one before it.
    ui.add("time_left".to_string(), Rect::new(1, 1, 2, 2));
    assert_eq!(ui.elements.len(), 2);
    assert_eq!(ui.elements[0].name, "time_left");
    assert_eq!(ui.elements[0].element, UiElement::border(UiElement::empty(Rect::new(1, 1, 2, 2))));
}
