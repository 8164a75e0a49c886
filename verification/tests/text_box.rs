use embedded_text::geometry::Point;
use embedded_text::geometry::Rectangle;
use embedded_text::geometry::Size;
use embedded_text::metrics::FixedWidthMetrics;
use embedded_text::middleware::NoMiddleware;
use embedded_text::rendering::line::CharacterStyle;
use embedded_text::rendering::line::DrawCommand;
use embedded_text::rendering::line::LineRenderState;
use embedded_text::rendering::line_iter::LayoutInvariantViolation;
use embedded_text::rendering::line_iter::LineEndType;
use embedded_text::style::HeightMode;
use embedded_text::style::HorizontalAlignment;
use embedded_text::style::TabSize;
use embedded_text::style::TextBoxStyle;
use embedded_text::text_box::draw_lines;
use embedded_text::text_box::draw_next_line;
use embedded_text::text_box::draw_text;
use embedded_text::text_box::Cursor;
use embedded_text::text_box::TextBox;

fn font() -> FixedWidthMetrics {
    FixedWidthMetrics::new(6, 9)
}

fn area(width: u32, height: u32) -> Rectangle {
    Rectangle::new(Point::zero(), Size::new(width, height))
}

fn at(text: &str, x: i32, y: i32) -> DrawCommand<'_> {
    DrawCommand::Text {
        text,
        position: Point::new(x, y),
        style: CharacterStyle::inherited(),
    }
}

#[test]
fn cursor_of_a_box() {
    let style = TextBoxStyle::new()
        .line_spacing(2)
        .paragraph_spacing(5)
        .tab_size(TabSize::Pixels(7));
    let bounds = Rectangle::new(Point::new(3, 4), Size::new(50, 20));
    let mut cursor = Cursor::new(bounds, &style, &font());
    assert_eq!(
        cursor,
        Cursor {
            top_left: Point::new(3, 4),
            line_width: 50,
            y: 0,
            bottom: 0,
            limit: 20,
            line_height: 9,
            line_spacing: 2,
            paragraph_spacing: 5,
            tab_width: 7,
        }
    );
    assert!(cursor.in_display_area());
    let line = cursor.line();
    assert_eq!(line.pos(), Point::new(3, 4));
    assert_eq!(line.line_width(), 50);
    assert_eq!(line.tab_width(), 7);
    assert_eq!(line.position(), 0);

    cursor.new_line(LineEndType::LineBreak);
    assert_eq!((cursor.y, cursor.bottom), (11, 9));
    assert!(cursor.in_display_area());
    assert_eq!(cursor.line().pos(), Point::new(3, 15));
    cursor.new_line(LineEndType::NewLine);
    assert_eq!((cursor.y, cursor.bottom), (27, 20));
    assert!(!cursor.in_display_area());

    let fit = Cursor::new(bounds, &style.height_mode(HeightMode::FitToText), &font());
    assert_eq!(fit.limit, u32::MAX);
    let shrink = Cursor::new(bounds, &style.height_mode(HeightMode::ShrinkToText), &font());
    assert_eq!(shrink.limit, 20);

    let mut far = Cursor { y: u32::MAX - 3, ..cursor };
    assert!(!far.in_display_area());
    far.new_line(LineEndType::NewLine);
    assert_eq!((far.y, far.bottom), (u32::MAX, u32::MAX));
}

#[test]
fn text_in_a_box() {
    let text_box = TextBox::new("Some sample text", area(42, 100), TextBoxStyle::new());
    let rendered = text_box.draw(&font(), NoMiddleware::new()).ok().unwrap();
    assert_eq!(
        rendered.commands,
        vec![at("Some", 0, 0), at("sample", 0, 9), at("text", 0, 18)]
    );
    assert_eq!(rendered.end_type, LineEndType::EndOfText);
    assert_eq!(rendered.height, 100);
}

#[test]
fn box_is_placed_on_the_display() {
    let bounds = Rectangle::new(Point::new(-7, 20), Size::new(42, 100));
    let style = TextBoxStyle::new().alignment(HorizontalAlignment::Right);
    let rendered = TextBox::new("Some sample text", bounds, style)
        .draw(&font(), NoMiddleware::new())
        .ok()
        .unwrap();
    assert_eq!(
        rendered.commands,
        vec![at("Some", 11, 20), at("sample", -1, 29), at("text", 11, 38)]
    );
}

#[test]
fn exact_height_leaves_out_what_does_not_fit() {
    for height in 18..27 {
        let text_box = TextBox::new("aa bb cc dd", area(12, height), TextBoxStyle::new());
        let rendered = text_box.draw(&font(), NoMiddleware::new()).ok().unwrap();
        assert_eq!(rendered.commands, vec![at("aa", 0, 0), at("bb", 0, 9)]);
        assert_eq!(rendered.end_type, LineEndType::OutOfVerticalSpace);
        assert_eq!(rendered.height, height);
    }
    let text_box = TextBox::new("aa bb cc dd", area(12, 27), TextBoxStyle::new());
    let rendered = text_box.draw(&font(), NoMiddleware::new()).ok().unwrap();
    assert_eq!(
        rendered.commands,
        vec![at("aa", 0, 0), at("bb", 0, 9), at("cc", 0, 18)]
    );
    assert_eq!(rendered.end_type, LineEndType::OutOfVerticalSpace);
}

#[test]
fn box_that_is_just_high_enough() {
    let text_box = TextBox::new("aa bb cc dd", area(12, 36), TextBoxStyle::new());
    let rendered = text_box.draw(&font(), NoMiddleware::new()).ok().unwrap();
    assert_eq!(rendered.commands.len(), 4);
    assert_eq!(rendered.end_type, LineEndType::EndOfText);
}

#[test]
fn box_without_height() {
    let text_box = TextBox::new("aa bb cc dd", area(12, 8), TextBoxStyle::new());
    let rendered = text_box.draw(&font(), NoMiddleware::new()).ok().unwrap();
    assert_eq!(rendered.commands, vec![]);
    assert_eq!(rendered.end_type, LineEndType::OutOfVerticalSpace);
    assert_eq!(rendered.height, 8);
}

#[test]
fn fit_to_text_grows() {
    let style = TextBoxStyle::new().height_mode(HeightMode::FitToText);
    let rendered = TextBox::new("aa bb cc dd", area(12, 10), style)
        .draw(&font(), NoMiddleware::new())
        .ok()
        .unwrap();
    assert_eq!(
        rendered.commands,
        vec![at("aa", 0, 0), at("bb", 0, 9), at("cc", 0, 18), at("dd", 0, 27)]
    );
    assert_eq!(rendered.end_type, LineEndType::EndOfText);
    assert_eq!(rendered.height, 36);
}

#[test]
fn shrink_to_text_shrinks_but_does_not_grow() {
    let style = TextBoxStyle::new().height_mode(HeightMode::ShrinkToText);
    let rendered = TextBox::new("aa bb cc dd", area(12, 100), style)
        .draw(&font(), NoMiddleware::new())
        .ok()
        .unwrap();
    assert_eq!(rendered.commands.len(), 4);
    assert_eq!(rendered.end_type, LineEndType::EndOfText);
    assert_eq!(rendered.height, 36);

    let rendered = TextBox::new("aa bb cc dd", area(12, 20), style)
        .draw(&font(), NoMiddleware::new())
        .ok()
        .unwrap();
    assert_eq!(rendered.commands, vec![at("aa", 0, 0), at("bb", 0, 9)]);
    assert_eq!(rendered.end_type, LineEndType::OutOfVerticalSpace);
    assert_eq!(rendered.height, 18);
}

#[test]
fn empty_text_is_one_empty_line() {
    let style = TextBoxStyle::new().height_mode(HeightMode::FitToText);
    let rendered = TextBox::new("", area(12, 0), style)
        .draw(&font(), NoMiddleware::new())
        .ok()
        .unwrap();
    assert_eq!(rendered.commands, vec![]);
    assert_eq!(rendered.end_type, LineEndType::EndOfText);
    assert_eq!(rendered.height, 9);
}

#[test]
fn line_spacing_separates_lines() {
    let style = TextBoxStyle::new()
        .height_mode(HeightMode::FitToText)
        .line_spacing(2);
    let rendered = TextBox::new("aa bb\ncc dd", area(12, 0), style)
        .draw(&font(), NoMiddleware::new())
        .ok()
        .unwrap();
    assert_eq!(
        rendered.commands,
        vec![at("aa", 0, 0), at("bb", 0, 11), at("cc", 0, 22), at("dd", 0, 33)]
    );
    assert_eq!(rendered.height, 42);
}

#[test]
fn paragraph_spacing_follows_a_break() {
    let style = TextBoxStyle::new()
        .height_mode(HeightMode::FitToText)
        .line_spacing(1)
        .paragraph_spacing(5);
    let rendered = TextBox::new("aa bb\ncc dd", area(12, 0), style)
        .draw(&font(), NoMiddleware::new())
        .ok()
        .unwrap();
    assert_eq!(
        rendered.commands,
        vec![at("aa", 0, 0), at("bb", 0, 10), at("cc", 0, 25), at("dd", 0, 35)]
    );
    assert_eq!(rendered.height, 44);
}

#[test]
fn empty_lines_take_their_height() {
    let style = TextBoxStyle::new().height_mode(HeightMode::FitToText);
    let rendered = TextBox::new("a\n\n\nb\n", area(12, 0), style)
        .draw(&font(), NoMiddleware::new())
        .ok()
        .unwrap();
    assert_eq!(rendered.commands, vec![at("a", 0, 0), at("b", 0, 27)]);
    assert_eq!(rendered.height, 45);
}

#[test]
fn no_layout_in_a_box_that_is_too_narrow() {
    let result = TextBox::new("aa bb", area(5, 100), TextBoxStyle::new())
        .draw(&font(), NoMiddleware::new());
    assert_eq!(result.err(), Some(LayoutInvariantViolation {}));

    let result = TextBox::new("\u{1b}[0m \n\nabc", area(5, 100), TextBoxStyle::new())
        .draw(&font(), NoMiddleware::new());
    assert_eq!(result.err(), Some(LayoutInvariantViolation {}));
}

#[test]
fn narrow_box_is_fine_as_long_as_nothing_is_printed() {
    let rendered = TextBox::new("  \n \u{1b}[0m", area(0, 100), TextBoxStyle::new())
        .draw(&font(), NoMiddleware::new())
        .ok()
        .unwrap();
    assert_eq!(rendered.commands, vec![]);
    assert_eq!(rendered.end_type, LineEndType::EndOfText);
}

#[test]
fn rendering_can_be_resumed() {
    let text = "Lorem ipsum dolor sit amet, conse\u{ad}ctetur  adipiscing\telit.\nSed do eiusmod";
    for alignment in [
        HorizontalAlignment::Left,
        HorizontalAlignment::Center,
        HorizontalAlignment::Right,
        HorizontalAlignment::Justified,
    ] {
        let style = TextBoxStyle::new()
            .alignment(alignment)
            .height_mode(HeightMode::FitToText)
            .paragraph_spacing(3);
        let bounds = area(60, 0);
        let metrics = font();

        let whole = draw_text(
            LineRenderState::new(text, style, NoMiddleware::new()),
            Cursor::new(bounds, &style, &metrics),
            &metrics,
        )
        .ok()
        .unwrap();
        assert!(whole.0.display.len() > 10);

        for first in 0..12 {
            let (state, cursor) = draw_lines(
                LineRenderState::new(text, style, NoMiddleware::new()),
                Cursor::new(bounds, &style, &metrics),
                &metrics,
                first,
            )
            .ok()
            .unwrap();
            let (state, cursor) = if first > 0 && state.end_type == LineEndType::EndOfText {
                (state, cursor)
            } else {
                draw_text(state, cursor, &metrics).ok().unwrap()
            };
            assert_eq!(state.display, whole.0.display);
            assert_eq!(state.end_type, whole.0.end_type);
            assert_eq!(state.character_style, whole.0.character_style);
            assert_eq!(cursor, whole.1);
        }
    }
}

#[test]
fn lines_one_by_one() {
    let style = TextBoxStyle::new();
    let metrics = font();
    let state = LineRenderState::new("aa bb", style, NoMiddleware::new());
    let cursor = Cursor::new(area(12, 10), &style, &metrics);

    let (state, cursor) = draw_next_line(state, cursor, &metrics).ok().unwrap();
    assert_eq!(state.display, vec![at("aa", 0, 0)]);
    assert_eq!(state.end_type, LineEndType::LineBreak);
    assert_eq!((cursor.y, cursor.bottom), (9, 9));

    let (state, cursor) = draw_next_line(state, cursor, &metrics).ok().unwrap();
    assert_eq!(state.display, vec![at("aa", 0, 0)]);
    assert_eq!(state.end_type, LineEndType::OutOfVerticalSpace);
    assert_eq!((cursor.y, cursor.bottom), (9, 9));
    assert_eq!(state.parser.remaining(), "bb");

    let (state, cursor) = draw_lines(state, cursor, &metrics, 0).ok().unwrap();
    assert_eq!(state.end_type, LineEndType::OutOfVerticalSpace);
    assert_eq!((cursor.y, cursor.bottom), (9, 9));
}

#[test]
fn resuming_with_fewer_lines_than_the_text_has() {
    let style = TextBoxStyle::new().height_mode(HeightMode::FitToText);
    let metrics = font();
    let state = LineRenderState::new("aa bb cc dd", style, NoMiddleware::new());
    let cursor = Cursor::new(area(12, 0), &style, &metrics);
    let (state, cursor) = draw_lines(state, cursor, &metrics, 3).ok().unwrap();
    assert_eq!(
        state.display,
        vec![at("aa", 0, 0), at("bb", 0, 9), at("cc", 0, 18)]
    );
    assert_eq!(state.end_type, LineEndType::LineBreak);
    assert_eq!(cursor.y, 27);
    let (state, _) = draw_lines(state, cursor, &metrics, 3).ok().unwrap();
    assert_eq!(state.display.len(), 4);
    assert_eq!(state.end_type, LineEndType::EndOfText);
}
