use embedded_text::geometry::Point;
use embedded_text::geometry::Rectangle;
use embedded_text::geometry::Size;
use embedded_text::metrics::FixedWidthMetrics;
use embedded_text::middleware::Middleware;
use embedded_text::middleware::MiddlewareWrapper;
use embedded_text::middleware::NoMiddleware;
use embedded_text::middleware::ProcessingState;
use embedded_text::parser::Parser;
use embedded_text::parser::Token;
use embedded_text::rendering::line::CharacterStyle;
use embedded_text::rendering::line::DrawCommand;
use embedded_text::rendering::line::LineRenderState;
use embedded_text::rendering::line_iter::LineEndType;
use embedded_text::style::TextBoxStyle;
use embedded_text::text_box::draw_text;
use embedded_text::text_box::Cursor;
use embedded_text::text_box::TextBox;

#[test]
fn peeking_does_not_take_the_token() {
    let mut parser = Parser::parse("one two");
    let mut wrapper = MiddlewareWrapper::new(NoMiddleware::new());
    assert_eq!(wrapper.state(), ProcessingState::Measure);
    assert_eq!(wrapper.peek_token(&mut parser), Some(Token::Word("one")));
    assert_eq!(wrapper.peek_token(&mut parser), Some(Token::Word("one")));
    assert_eq!(parser.remaining(), " two");
    wrapper.consume_peeked_token();
    assert_eq!(wrapper.peek_token(&mut parser), Some(Token::Whitespace(1, " ")));
    wrapper.consume_peeked_token();
    wrapper.consume_peeked_token();
    assert_eq!(wrapper.peek_token(&mut parser), Some(Token::Word("two")));
    wrapper.consume_peeked_token();
    assert_eq!(wrapper.peek_token(&mut parser), None);
    assert_eq!(wrapper.peek_token(&mut parser), None);
}

#[test]
fn replaced_token_comes_first() {
    let mut parser = Parser::parse("one two");
    let mut wrapper = MiddlewareWrapper::new(NoMiddleware::new());
    assert_eq!(wrapper.peek_token(&mut parser), Some(Token::Word("one")));
    wrapper.replace_peeked_token(Token::Word("e"));
    assert_eq!(wrapper.peek_token(&mut parser), Some(Token::Word("e")));
    assert_eq!(parser.remaining(), " two");
    wrapper.consume_peeked_token();
    wrapper.replace_peeked_token(Token::Break(None));
    assert_eq!(wrapper.peek_token(&mut parser), Some(Token::Break(None)));
    wrapper.consume_peeked_token();
    assert_eq!(wrapper.peek_token(&mut parser), Some(Token::Whitespace(1, " ")));
}

#[test]
fn each_pass_has_its_own_slot() {
    let mut parser = Parser::parse("one two");
    let mut wrapper = MiddlewareWrapper::new(NoMiddleware::new());
    assert_eq!(wrapper.peek_token(&mut parser), Some(Token::Word("one")));

    wrapper.set_state(ProcessingState::Render);
    assert_eq!(wrapper.state(), ProcessingState::Render);
    assert_eq!(*wrapper.current_token_ref(), None);
    assert_eq!(wrapper.peek_token(&mut parser), Some(Token::Whitespace(1, " ")));
    wrapper.replace_peeked_token(Token::Word("x"));

    wrapper.set_state(ProcessingState::Measure);
    assert_eq!(*wrapper.current_token_ref(), Some(Token::Word("one")));
    wrapper.consume_peeked_token();
    assert_eq!(*wrapper.current_token_ref(), None);

    wrapper.set_state(ProcessingState::Render);
    assert_eq!(wrapper.peek_token(&mut parser), Some(Token::Word("x")));
}

#[test]
fn next_token_leaves_the_slot_alone() {
    let mut parser = Parser::parse("one two");
    let mut wrapper = MiddlewareWrapper::new(NoMiddleware::new());
    assert_eq!(wrapper.peek_token(&mut parser), Some(Token::Word("one")));
    assert_eq!(wrapper.next_token(&mut parser), Some(Token::Whitespace(1, " ")));
    assert_eq!(wrapper.peek_token(&mut parser), Some(Token::Word("one")));
}

#[test]
fn copies_for_measuring() {
    let mut parser = Parser::parse("one two");
    let mut wrapper = MiddlewareWrapper::new(NoMiddleware::new());
    wrapper.set_state(ProcessingState::Render);
    assert_eq!(wrapper.peek_token(&mut parser), Some(Token::Word("one")));

    let mut copy = wrapper.duplicate();
    assert_eq!(copy.state(), ProcessingState::Render);
    assert_eq!(*copy.current_token_ref(), Some(Token::Word("one")));

    let mut measuring = wrapper.measure_copy();
    let mut measured = parser;
    assert_eq!(measuring.state(), ProcessingState::Measure);
    assert_eq!(measuring.peek_token(&mut measured), Some(Token::Word("one")));
    measuring.consume_peeked_token();
    assert_eq!(
        measuring.peek_token(&mut measured),
        Some(Token::Whitespace(1, " "))
    );

    assert_eq!(wrapper.peek_token(&mut parser), Some(Token::Word("one")));
    assert_eq!(parser.remaining(), " two");
}

#[derive(Clone, Debug, Default, PartialEq)]
struct Shouting {
    lines: u32,
    starts: Vec<Point>,
    drawn: Vec<(Option<String>, Rectangle)>,
}

impl Shouting {
    fn shout<'a>(token: Option<Token<'a>>) -> Option<Token<'a>> {
        match token {
            Some(Token::Word("quiet")) => Some(Token::Word("LOUD")),
            other => other,
        }
    }
}

impl<'a> Middleware<'a> for Shouting {
    fn duplicate(&self) -> Self {
        self.clone()
    }

    fn new_line(&mut self) {
        self.lines += 1;
    }

    fn next_token_to_measure(&mut self, parser: &mut Parser<'a>) -> Option<Token<'a>> {
        Self::shout(parser.next())
    }

    fn next_token_to_render(&mut self, parser: &mut Parser<'a>) -> Option<Token<'a>> {
        Self::shout(parser.next())
    }

    fn post_render(&mut self, text: Option<&str>, bounds: Rectangle) {
        self.drawn.push((text.map(String::from), bounds));
    }

    fn post_line_start(&mut self, pos: Point) {
        self.starts.push(pos);
    }
}

#[test]
fn middleware_changes_tokens_and_is_told_what_happens() {
    let style = TextBoxStyle::new();
    let metrics = FixedWidthMetrics::new(6, 9);
    let bounds = Rectangle::new(Point::new(1, 2), Size::new(42, 100));
    let state = LineRenderState::new("be quiet or else", style, Shouting::default());
    let cursor = Cursor::new(bounds, &style, &metrics);
    let (state, _) = draw_text(state, cursor, &metrics).ok().unwrap();

    let plain = CharacterStyle::inherited();
    assert_eq!(
        state.display,
        vec![
            DrawCommand::Text { text: "be", position: Point::new(1, 2), style: plain },
            DrawCommand::Whitespace { width: 6, position: Point::new(13, 2), style: plain },
            DrawCommand::Text { text: "LOUD", position: Point::new(19, 2), style: plain },
            DrawCommand::Text { text: "or", position: Point::new(1, 11), style: plain },
            DrawCommand::Whitespace { width: 6, position: Point::new(13, 11), style: plain },
            DrawCommand::Text { text: "else", position: Point::new(19, 11), style: plain },
        ]
    );
    assert_eq!(state.end_type, LineEndType::EndOfText);

    let area = |x, y, width| Rectangle::new(Point::new(x, y), Size::new(width, 9));
    assert_eq!(
        state.plugin.middleware,
        Shouting {
            lines: 2,
            starts: vec![Point::new(1, 2), Point::new(1, 11)],
            drawn: vec![
                (Some("be".into()), area(1, 2, 12)),
                (Some(" ".into()), area(13, 2, 6)),
                (Some("LOUD".into()), area(19, 2, 24)),
                (Some("or".into()), area(1, 11, 12)),
                (Some(" ".into()), area(13, 11, 6)),
                (Some("else".into()), area(19, 11, 24)),
                (None, area(43, 11, 0)),
            ],
        }
    );
}

#[test]
fn text_box_hands_the_middleware_back() {
    let bounds = Rectangle::new(Point::zero(), Size::new(42, 9));
    let rendered = TextBox::new("be quiet or else", bounds, TextBoxStyle::new())
        .draw(&FixedWidthMetrics::new(6, 9), Shouting::default())
        .ok()
        .unwrap();
    assert_eq!(rendered.end_type, LineEndType::OutOfVerticalSpace);
    assert_eq!(rendered.commands.len(), 3);
    assert_eq!(rendered.plugin.middleware.lines, 1);
    assert_eq!(rendered.plugin.middleware.starts, vec![Point::zero()]);
    assert_eq!(rendered.plugin.middleware.drawn.len(), 3);
    assert_eq!(rendered.plugin.state(), ProcessingState::Render);
}

/// Writes down which of its hooks was called.
#[derive(Clone, Debug, Default, PartialEq)]
struct Listener {
    calls: Vec<&'static str>,
}

impl<'a> Middleware<'a> for Listener {
    fn duplicate(&self) -> Self {
        self.clone()
    }

    fn new_line(&mut self) {
        self.calls.push("new_line");
    }

    fn next_token_to_measure(&mut self, parser: &mut Parser<'a>) -> Option<Token<'a>> {
        self.calls.push("measure");
        parser.next()
    }

    fn next_token_to_render(&mut self, parser: &mut Parser<'a>) -> Option<Token<'a>> {
        self.calls.push("render");
        parser.next()
    }

    fn post_render(&mut self, _text: Option<&str>, _bounds: Rectangle) {
        self.calls.push("post_render");
    }

    fn post_line_start(&mut self, _pos: Point) {
        self.calls.push("post_line_start");
    }
}

#[test]
fn wrapper_calls_the_hook_of_the_pass() {
    let mut parser = Parser::parse("a b c");
    let mut wrapper = MiddlewareWrapper::new(Listener::default());
    assert_eq!(wrapper.next_token(&mut parser), Some(Token::Word("a")));
    assert_eq!(wrapper.middleware.calls, vec!["measure"]);
    assert_eq!(wrapper.peek_token(&mut parser), Some(Token::Whitespace(1, " ")));
    assert_eq!(wrapper.peek_token(&mut parser), Some(Token::Whitespace(1, " ")));
    assert_eq!(wrapper.middleware.calls, vec!["measure", "measure"]);

    wrapper.set_state(ProcessingState::Render);
    assert_eq!(wrapper.peek_token(&mut parser), Some(Token::Word("b")));
    assert_eq!(wrapper.peek_token(&mut parser), Some(Token::Word("b")));
    assert_eq!(wrapper.next_token(&mut parser), Some(Token::Whitespace(1, " ")));
    assert_eq!(wrapper.middleware.calls, vec!["measure", "measure", "render", "render"]);

    wrapper.consume_peeked_token();
    wrapper.replace_peeked_token(Token::Break(None));
    assert_eq!(wrapper.peek_token(&mut parser), Some(Token::Break(None)));
    assert_eq!(wrapper.middleware.calls.len(), 4);
}

#[test]
fn wrapper_passes_every_notification_on() {
    let mut wrapper = MiddlewareWrapper::new(Listener::default());
    wrapper.new_line();
    wrapper.post_line_start(Point::new(1, 2));
    wrapper.post_render(Some("a"), Some(Rectangle::new(Point::zero(), Size::new(6, 9))));
    wrapper.post_render(Some("a"), None);
    wrapper.post_render(None, Some(Rectangle::new(Point::zero(), Size::new(0, 9))));
    assert_eq!(
        wrapper.middleware.calls,
        vec!["new_line", "post_line_start", "post_render", "post_render"]
    );
}

#[test]
fn text_asks_the_rendering_hook_only() {
    let style = TextBoxStyle::new();
    let metrics = FixedWidthMetrics::new(6, 9);
    let bounds = Rectangle::new(Point::zero(), Size::new(42, 100));
    let state = LineRenderState::new("Some sample text", style, Listener::default());
    let cursor = Cursor::new(bounds, &style, &metrics);
    let (state, _) = draw_text(state, cursor, &metrics).ok().unwrap();
    assert_eq!(
        state.plugin.middleware.calls,
        vec![
            "new_line",
            "post_line_start",
            "render",
            "post_render",
            "render",
            "new_line",
            "post_line_start",
            "render",
            "post_render",
            "render",
            "new_line",
            "post_line_start",
            "render",
            "post_render",
            "render",
            "post_render",
        ]
    );
}
