use embedded_text::geometry::Rectangle;
use embedded_text::metrics::FixedWidthMetrics;
use embedded_text::middleware::MiddlewareWrapper;
use embedded_text::middleware::NoMiddleware;
use embedded_text::parser::ChangeTextStyle;
use embedded_text::parser::Parser;
use embedded_text::parser::Token;
use embedded_text::rendering::cursor::LineCursor;
use embedded_text::rendering::line_iter::ElementHandler;
use embedded_text::rendering::line_iter::LayoutInvariantViolation;
use embedded_text::rendering::line_iter::LineElementParser;
use embedded_text::rendering::line_iter::LineEndType;
use embedded_text::rendering::line_iter::LineError;
use embedded_text::rendering::line_iter::MeasureLineElementHandler;
use embedded_text::rendering::space_config::SpaceConfig;

/// Writes down what it is given, and refuses what comes after `room`
/// elements.
struct Scribe {
    room: usize,
    seen: Vec<String>,
}

impl Scribe {
    fn note(&mut self, entry: String) -> Result<(), u8> {
        if self.seen.len() < self.room {
            self.seen.push(entry);
            Ok(())
        } else {
            Err(7)
        }
    }
}

impl<'a> ElementHandler<'a> for Scribe {
    type Error = u8;

    fn whitespace(
        &mut self,
        text: &'a str,
        space_count: u32,
        width: u32,
    ) -> Result<Option<Rectangle>, u8> {
        self.note(format!("{:?} x{} {}px", text, space_count, width))?;
        Ok(None)
    }

    fn printed_characters(&mut self, text: &'a str, width: u32) -> Result<Option<Rectangle>, u8> {
        self.note(format!("{:?} {}px", text, width))?;
        Ok(None)
    }

    fn change_text_style(&mut self, change: ChangeTextStyle) -> Result<(), u8> {
        self.note(format!("{:?}", change))
    }
}

fn process(
    text: &str,
    width: u32,
    spaces: SpaceConfig,
    room: usize,
) -> (Result<LineEndType, LineError<u8>>, Vec<String>, u32) {
    let mut parser = Parser::parse(text);
    let mut plugin = MiddlewareWrapper::new(NoMiddleware::new());
    let mut handler = Scribe { room, seen: Vec::new() };
    let mut line = LineElementParser::new(LineCursor::new(width, 24), spaces);
    let end = LineElementParser::process(
        &mut line,
        &mut parser,
        &mut plugin,
        &FixedWidthMetrics::new(6, 9),
        &mut handler,
    );
    (end, handler.seen, line.cursor.position())
}

#[test]
fn handler_gets_the_elements_in_order() {
    let (end, seen, position) = process(
        "a \u{1b}[0mb\u{a0}c\t\td e",
        200,
        SpaceConfig::new(1, 1),
        100,
    );
    assert!(matches!(end, Ok(LineEndType::EndOfText)));
    assert_eq!(
        seen,
        vec![
            "\"a\" 6px",
            "\" \" x1 8px",
            "Reset",
            "\"b\" 6px",
            "\" \" 6px",
            "\"c\" 6px",
            "\"\\t\\t\" x2 49px",
            "\"d\" 6px",
            "\" \" x1 7px",
            "\"e\" 6px",
        ]
    );
    assert_eq!(position, 96);
}

#[test]
fn error_of_the_handler_is_passed_on() {
    let (end, seen, _) = process("one two three", 200, SpaceConfig::uniform(), 3);
    assert!(matches!(end, Err(LineError::Handler(7))));
    assert_eq!(seen, vec!["\"one\" 18px", "\" \" x1 6px", "\"two\" 18px"]);

    let (end, seen, _) = process("\u{1b}[0mone", 200, SpaceConfig::uniform(), 0);
    assert!(matches!(end, Err(LineError::Handler(7))));
    assert_eq!(seen.len(), 0);

    let (end, _, _) = process("a\u{ad}b", 200, SpaceConfig::uniform(), 1);
    assert!(matches!(end, Err(LineError::Handler(7))));

    let (end, _, _) = process("a\u{a0}b", 200, SpaceConfig::uniform(), 1);
    assert!(matches!(end, Err(LineError::Handler(7))));
}

#[test]
fn layout_error_comes_before_anything_is_handed_out() {
    let (end, seen, position) = process("one", 5, SpaceConfig::uniform(), 100);
    assert!(matches!(
        end,
        Err(LineError::Layout(LayoutInvariantViolation {}))
    ));
    assert_eq!(seen.len(), 0);
    assert_eq!(position, 0);
}

#[test]
fn line_goes_on_from_the_cursor() {
    let mut parser = Parser::parse("one two");
    let mut plugin = MiddlewareWrapper::new(NoMiddleware::new());
    let mut handler = Scribe { room: 10, seen: Vec::new() };
    let mut cursor = LineCursor::new(40, 24);
    assert_eq!(cursor.move_cursor_forward(10), Ok(10));
    let mut line = LineElementParser::new(cursor, SpaceConfig::uniform());
    let end = LineElementParser::process(
        &mut line,
        &mut parser,
        &mut plugin,
        &FixedWidthMetrics::new(6, 9),
        &mut handler,
    );
    assert!(matches!(end, Ok(LineEndType::LineBreak)));
    assert_eq!(handler.seen, vec!["\"one\" 18px"]);
    assert_eq!(line.cursor.position(), 28);
    assert_eq!(plugin.peek_token(&mut parser), Some(Token::Word("two")));
}

#[test]
fn word_that_does_not_fit_behind_the_cursor_is_left_for_the_next_line() {
    let mut parser = Parser::parse("one two");
    let mut plugin = MiddlewareWrapper::new(NoMiddleware::new());
    let mut handler = Scribe { room: 10, seen: Vec::new() };
    let mut cursor = LineCursor::new(20, 24);
    assert_eq!(cursor.move_cursor_forward(10), Ok(10));
    let mut line = LineElementParser::new(cursor, SpaceConfig::uniform());
    let end = LineElementParser::process(
        &mut line,
        &mut parser,
        &mut plugin,
        &FixedWidthMetrics::new(6, 9),
        &mut handler,
    );
    assert!(matches!(end, Ok(LineEndType::LineBreak)));
    assert_eq!(handler.seen.len(), 0);
    assert_eq!(plugin.peek_token(&mut parser), Some(Token::Word("one")));
}

#[test]
fn measuring_handler_counts_runs() {
    let mut handler = MeasureLineElementHandler::new();
    assert_eq!(handler.space_runs(), 0);
    assert_eq!(handler.whitespace(" ", 1, 6), Ok(None));
    assert_eq!(handler.printed_characters("a", 6), Ok(None));
    assert_eq!(handler.change_text_style(ChangeTextStyle::Reset), Ok(()));
    assert_eq!(handler.whitespace("  ", 2, 0), Ok(None));
    assert_eq!(handler.space_runs(), 2);
}
