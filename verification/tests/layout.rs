use embedded_text::color::DecorationColor;
use embedded_text::color::Rgb;
use embedded_text::geometry::Point;
use embedded_text::metrics::FixedWidthMetrics;
use embedded_text::metrics::TextMetrics;
use embedded_text::middleware::MiddlewareWrapper;
use embedded_text::middleware::NoMiddleware;
use embedded_text::middleware::ProcessingState;
use embedded_text::parser::ChangeTextStyle;
use embedded_text::parser::Parser;
use embedded_text::parser::Token;
use embedded_text::rendering::cursor::LineCursor;
use embedded_text::rendering::line::CharacterStyle;
use embedded_text::rendering::line::DrawCommand;
use embedded_text::rendering::line::LineRenderState;
use embedded_text::rendering::line::Setting;
use embedded_text::rendering::line::StyledLineRenderer;
use embedded_text::rendering::line_iter::LayoutInvariantViolation;
use embedded_text::rendering::line_iter::LineEndType;
use embedded_text::rendering::space_config::SpaceConfig;
use embedded_text::rendering::word::fit_spaces;
use embedded_text::rendering::word::longest_fitting_prefix;
use embedded_text::rendering::word::word_fits;
use embedded_text::style::measure_from;
use embedded_text::style::HorizontalAlignment;
use embedded_text::style::LineMeasurement;
use embedded_text::style::TabSize;
use embedded_text::style::TextBoxStyle;

fn font() -> FixedWidthMetrics {
    FixedWidthMetrics::new(6, 9)
}

fn start<'a>(text: &'a str, style: TextBoxStyle) -> LineRenderState<'a, NoMiddleware> {
    LineRenderState::new(text, style, NoMiddleware::new())
}

fn line<'a>(
    state: LineRenderState<'a, NoMiddleware>,
    width: u32,
) -> LineRenderState<'a, NoMiddleware> {
    StyledLineRenderer::new(LineCursor::new(width, 24), state)
        .draw(&font())
        .ok()
        .unwrap()
}

fn text(text: &str, x: i32) -> DrawCommand<'_> {
    DrawCommand::Text {
        text,
        position: Point::new(x, 0),
        style: CharacterStyle::inherited(),
    }
}

fn space(width: u32, x: i32) -> DrawCommand<'static> {
    DrawCommand::Whitespace {
        width,
        position: Point::new(x, 0),
        style: CharacterStyle::inherited(),
    }
}

#[test]
fn fixed_width_metrics() {
    let metrics = font();
    assert_eq!(metrics.measure(""), 0);
    assert_eq!(metrics.measure("a"), 6);
    assert_eq!(metrics.measure("héllo→"), 36);
    assert_eq!(metrics.line_height(), 9);
    assert_eq!(FixedWidthMetrics::new(0, 1).measure("abc"), 0);
    assert_eq!(FixedWidthMetrics::new(u32::MAX, 1).measure("a"), u32::MAX);
    assert_eq!(FixedWidthMetrics::new(u32::MAX, 1).measure("ab"), u32::MAX);
    assert_eq!(FixedWidthMetrics::new(0x8000_0000, 1).measure("ab"), u32::MAX);
    assert_eq!(FixedWidthMetrics::new(0x7fff_ffff, 1).measure("ab"), 0xffff_fffe);
}

#[test]
fn tab_size_in_pixels() {
    assert_eq!(TabSize::Pixels(17).into_pixels(&font()), 17);
    assert_eq!(TabSize::Spaces(4).into_pixels(&font()), 24);
    assert_eq!(TabSize::Spaces(0).into_pixels(&font()), 0);
    assert_eq!(TabSize::Spaces(u32::MAX).into_pixels(&font()), u32::MAX);
}

#[test]
fn line_wraps_before_the_word_that_does_not_fit() {
    let mut state = line(start("Some sample text", TextBoxStyle::new()), 42);
    assert_eq!(state.display, vec![text("Some", 0)]);
    assert_eq!(state.end_type, LineEndType::LineBreak);
    assert_eq!(
        state.plugin.peek_token(&mut state.parser),
        Some(Token::Word("sample"))
    );
}

#[test]
fn whole_text_on_a_wide_line() {
    let state = line(start("Some sample text", TextBoxStyle::new()), 96);
    assert_eq!(
        state.display,
        vec![
            text("Some", 0),
            space(6, 24),
            text("sample", 30),
            space(6, 66),
            text("text", 72),
        ]
    );
    assert_eq!(state.end_type, LineEndType::EndOfText);
}

#[test]
fn one_pixel_short_wraps() {
    let state = line(start("Some sample text", TextBoxStyle::new()), 95);
    assert_eq!(
        state.display,
        vec![text("Some", 0), space(6, 24), text("sample", 30)]
    );
    assert_eq!(state.end_type, LineEndType::LineBreak);
}

#[test]
fn first_word_wider_than_the_line_is_split() {
    let mut state = line(start("Some sample text", TextBoxStyle::new()), 12);
    assert_eq!(state.display, vec![text("So", 0)]);
    assert_eq!(state.end_type, LineEndType::LineBreak);
    assert_eq!(
        state.plugin.peek_token(&mut state.parser),
        Some(Token::Word("me"))
    );

    state.display.clear();
    let mut state = line(state, 12);
    assert_eq!(state.display, vec![text("me", 0)]);
    assert_eq!(state.end_type, LineEndType::LineBreak);
    assert_eq!(
        state.plugin.peek_token(&mut state.parser),
        Some(Token::Word("sample"))
    );
}

#[test]
fn split_takes_what_fits() {
    let mut state = line(start("abcdefgh", TextBoxStyle::new()), 17);
    assert_eq!(state.display, vec![text("ab", 0)]);
    assert_eq!(
        state.plugin.peek_token(&mut state.parser),
        Some(Token::Word("cdefgh"))
    );
}

#[test]
fn no_layout_where_a_character_is_wider_than_the_line() {
    let result = StyledLineRenderer::new(
        LineCursor::new(5, 24),
        start("Some sample text", TextBoxStyle::new()),
    )
    .draw(&font());
    assert_eq!(result.err(), Some(LayoutInvariantViolation {}));

    let result = StyledLineRenderer::new(LineCursor::new(0, 24), start("a", TextBoxStyle::new()))
        .draw(&font());
    assert_eq!(result.err(), Some(LayoutInvariantViolation {}));
}

#[test]
fn empty_text_ends_at_once() {
    let state = line(start("", TextBoxStyle::new()), 0);
    assert_eq!(state.display, vec![]);
    assert_eq!(state.end_type, LineEndType::EndOfText);
}

#[test]
fn no_break_space_is_printed_as_a_space() {
    let state = line(start("a\u{a0}\u{a0}b\u{a0}", TextBoxStyle::new()), 100);
    assert_eq!(
        state.display,
        vec![
            text("a", 0),
            text(" ", 6),
            text(" ", 12),
            text("b", 18),
            text(" ", 24),
        ]
    );
}

#[test]
fn word_with_no_break_space_is_kept_together() {
    let mut state = line(start("ab cd\u{a0}ef", TextBoxStyle::new()), 42);
    assert_eq!(state.display, vec![text("ab", 0)]);
    assert_eq!(state.end_type, LineEndType::LineBreak);
    assert_eq!(
        state.plugin.peek_token(&mut state.parser),
        Some(Token::Word("cd\u{a0}ef"))
    );
}

#[test]
fn whitespace_before_a_break_is_left_out() {
    let mut state = line(start("Some \nsample text", TextBoxStyle::new()), 42);
    assert_eq!(state.display, vec![text("Some", 0)]);
    assert_eq!(state.end_type, LineEndType::NewLine);
    assert_eq!(
        state.plugin.peek_token(&mut state.parser),
        Some(Token::Word("sample"))
    );
}

#[test]
fn whitespace_at_the_end_of_the_text_is_left_out() {
    let state = line(start("abc  ", TextBoxStyle::new()), 100);
    assert_eq!(state.display, vec![text("abc", 0)]);
    assert_eq!(state.end_type, LineEndType::EndOfText);
}

#[test]
fn leading_whitespace_is_placed_if_the_word_fits_behind_it() {
    let state = line(start(" abc", TextBoxStyle::new()), 24);
    assert_eq!(state.display, vec![space(6, 0), text("abc", 6)]);
}

#[test]
fn leading_whitespace_is_left_out_if_the_word_does_not_fit_behind_it() {
    let state = line(start(" abcd", TextBoxStyle::new()), 24);
    assert_eq!(state.display, vec![text("abcd", 0)]);
    assert_eq!(state.end_type, LineEndType::EndOfText);
}

#[test]
fn whitespace_that_fits_is_eaten_by_the_line_break() {
    let mut state = line(start("Some  text", TextBoxStyle::new()), 36);
    assert_eq!(state.display, vec![text("Some", 0)]);
    assert_eq!(state.end_type, LineEndType::LineBreak);
    assert_eq!(
        state.plugin.peek_token(&mut state.parser),
        Some(Token::Word("text"))
    );
}

#[test]
fn whitespace_that_does_not_fit_is_carried() {
    let mut state = line(start("Some  text", TextBoxStyle::new()), 30);
    assert_eq!(state.display, vec![text("Some", 0)]);
    assert_eq!(state.end_type, LineEndType::LineBreak);
    assert_eq!(
        state.plugin.peek_token(&mut state.parser),
        Some(Token::Whitespace(1, " "))
    );

    state.display.clear();
    let state = line(state, 30);
    assert_eq!(state.display, vec![space(6, 0), text("text", 6)]);
    assert_eq!(state.end_type, LineEndType::EndOfText);
}

#[test]
fn a_single_space_is_eaten_even_where_it_does_not_fit() {
    let mut state = line(start("Some ab", TextBoxStyle::new()), 24);
    assert_eq!(state.display, vec![text("Some", 0)]);
    assert_eq!(state.end_type, LineEndType::LineBreak);
    assert_eq!(
        state.plugin.peek_token(&mut state.parser),
        Some(Token::Word("ab"))
    );
}

#[test]
fn carried_whitespace_when_nothing_fits() {
    let mut state = line(start("Some   a", TextBoxStyle::new()), 24);
    assert_eq!(state.display, vec![text("Some", 0)]);
    assert_eq!(
        state.plugin.peek_token(&mut state.parser),
        Some(Token::Whitespace(2, "  "))
    );
    state.display.clear();
    let state = line(state, 24);
    assert_eq!(state.display, vec![space(12, 0), text("a", 12)]);
}

#[test]
fn tabs_have_the_tab_width() {
    let state = line(start("a\tb \t c", TextBoxStyle::new()), 200);
    assert_eq!(
        state.display,
        vec![
            text("a", 0),
            space(24, 6),
            text("b", 30),
            space(36, 36),
            text("c", 72),
        ]
    );
}

#[test]
fn break_shows_its_hyphen() {
    let mut state = line(start("co\u{ad}operate", TextBoxStyle::new()), 100);
    assert_eq!(state.display, vec![text("co", 0), text("-", 12)]);
    assert_eq!(state.end_type, LineEndType::NewLine);
    assert_eq!(
        state.plugin.peek_token(&mut state.parser),
        Some(Token::Word("operate"))
    );
}

#[test]
fn hyphen_that_does_not_fit_is_left_out() {
    let state = line(start("co\u{ad}operate", TextBoxStyle::new()), 17);
    assert_eq!(state.display, vec![text("co", 0)]);
    assert_eq!(state.end_type, LineEndType::NewLine);

    let state = line(start("co\u{ad}operate", TextBoxStyle::new()), 18);
    assert_eq!(state.display, vec![text("co", 0), text("-", 12)]);
}

#[test]
fn style_changes_apply_to_what_follows() {
    let state = line(
        start("a\u{1b}[31m b\u{1b}[44m\u{1b}[4mc\u{1b}[0md", TextBoxStyle::new()),
        100,
    );
    let red = CharacterStyle {
        text_color: Setting::Given(Some(Rgb::new(170, 0, 0))),
        ..CharacterStyle::inherited()
    };
    let decorated = CharacterStyle {
        background_color: Setting::Given(Some(Rgb::new(0, 0, 170))),
        underline_color: Setting::Given(DecorationColor::TextColor),
        ..red
    };
    let reset = CharacterStyle {
        text_color: Setting::Given(Some(Rgb::new(255, 255, 255))),
        background_color: Setting::Given(None),
        underline_color: Setting::Given(DecorationColor::Off),
        strikethrough_color: Setting::Given(DecorationColor::Off),
    };
    assert_eq!(
        state.display,
        vec![
            text("a", 0),
            DrawCommand::Whitespace { width: 6, position: Point::new(6, 0), style: red },
            DrawCommand::Text { text: "b", position: Point::new(12, 0), style: red },
            DrawCommand::Text { text: "c", position: Point::new(18, 0), style: decorated },
            DrawCommand::Text { text: "d", position: Point::new(24, 0), style: reset },
        ]
    );
    assert_eq!(state.character_style, reset);
}

#[test]
fn apply_changes_one_part() {
    let mut style = CharacterStyle::inherited();
    ChangeTextStyle::Strikethrough(DecorationColor::Custom(Rgb::new(1, 2, 3))).apply(&mut style);
    assert_eq!(
        style,
        CharacterStyle {
            strikethrough_color: Setting::Given(DecorationColor::Custom(Rgb::new(1, 2, 3))),
            ..CharacterStyle::inherited()
        }
    );
    ChangeTextStyle::BackgroundColor(None).apply(&mut style);
    ChangeTextStyle::TextColor(None).apply(&mut style);
    ChangeTextStyle::Underline(DecorationColor::TextColor).apply(&mut style);
    assert_eq!(
        style,
        CharacterStyle {
            text_color: Setting::Given(None),
            background_color: Setting::Given(None),
            underline_color: Setting::Given(DecorationColor::TextColor),
            strikethrough_color: Setting::Given(DecorationColor::Custom(Rgb::new(1, 2, 3))),
        }
    );
    ChangeTextStyle::Reset.apply(&mut style);
    assert_eq!(
        style,
        CharacterStyle {
            text_color: Setting::Given(Some(Rgb::white())),
            background_color: Setting::Given(None),
            underline_color: Setting::Given(DecorationColor::Off),
            strikethrough_color: Setting::Given(DecorationColor::Off),
        }
    );
}

#[test]
fn style_change_does_not_hide_the_word_from_the_whitespace() {
    let mut state = line(start("Some \u{1b}[31msample", TextBoxStyle::new()), 42);
    assert_eq!(state.display, vec![text("Some", 0)]);
    assert_eq!(state.end_type, LineEndType::LineBreak);
    assert_eq!(
        state.plugin.peek_token(&mut state.parser),
        Some(Token::ChangeTextStyle(ChangeTextStyle::TextColor(Some(
            Rgb::new(170, 0, 0)
        ))))
    );
}

#[test]
fn right_aligned_line() {
    let style = TextBoxStyle::new().alignment(HorizontalAlignment::Right);
    let state = line(start("aa bb cc dd", style), 50);
    assert_eq!(
        state.display,
        vec![
            text("aa", 2),
            space(6, 14),
            text("bb", 20),
            space(6, 32),
            text("cc", 38),
        ]
    );
    assert_eq!(state.end_type, LineEndType::LineBreak);
}

#[test]
fn centered_line() {
    let style = TextBoxStyle::new().alignment(HorizontalAlignment::Center);
    let state = line(start("aa bb cc dd", style), 51);
    assert_eq!(
        state.display,
        vec![
            text("aa", 1),
            space(6, 13),
            text("bb", 19),
            space(6, 31),
            text("cc", 37),
        ]
    );
}

#[test]
fn justified_line_is_full() {
    let style = TextBoxStyle::new().alignment(HorizontalAlignment::Justified);
    let state = line(start("aa bb cc dd", style), 50);
    assert_eq!(
        state.display,
        vec![
            text("aa", 0),
            space(7, 12),
            text("bb", 19),
            space(7, 31),
            text("cc", 38),
        ]
    );
}

#[test]
fn justified_remainder_goes_to_the_first_runs() {
    let style = TextBoxStyle::new().alignment(HorizontalAlignment::Justified);
    let state = line(start("aa bb cc dd", style), 51);
    assert_eq!(
        state.display,
        vec![
            text("aa", 0),
            space(8, 12),
            text("bb", 20),
            space(7, 32),
            text("cc", 39),
        ]
    );

    let state = line(start("a b c d e", style), 61);
    // 9 characters take 54 pixels; 7 are left for 4 runs
    assert_eq!(
        state.display,
        vec![
            text("a", 0),
            space(8, 6),
            text("b", 14),
            space(8, 20),
            text("c", 28),
            space(8, 34),
            text("d", 42),
            space(7, 48),
            text("e", 55),
        ]
    );
}

#[test]
fn justified_line_without_whitespace_starts_left() {
    let style = TextBoxStyle::new().alignment(HorizontalAlignment::Justified);
    let state = line(start("aa", style), 50);
    assert_eq!(state.display, vec![text("aa", 0)]);
}

#[test]
fn justified_passes_agree_on_the_line() {
    for width in 12..120 {
        let left = start("aa bb  cc d eeee ff", TextBoxStyle::new());
        let full = start(
            "aa bb  cc d eeee ff",
            TextBoxStyle::new().alignment(HorizontalAlignment::Justified),
        );
        let mut left = line(left, width);
        let mut full = line(full, width);
        assert_eq!(left.end_type, full.end_type);
        assert_eq!(left.parser.remaining(), full.parser.remaining());
        assert_eq!(
            left.plugin.peek_token(&mut left.parser),
            full.plugin.peek_token(&mut full.parser)
        );
        assert_eq!(left.display.len(), full.display.len());
    }
}

#[test]
fn place_line_values() {
    let measured = |width, space_runs| LineMeasurement {
        max_line_width: 100,
        width,
        space_runs,
        line_end_type: LineEndType::LineBreak,
    };
    assert_eq!(
        HorizontalAlignment::Left.place_line(measured(93, 3)),
        (0, SpaceConfig::uniform())
    );
    assert_eq!(
        HorizontalAlignment::Center.place_line(measured(93, 3)),
        (3, SpaceConfig::uniform())
    );
    assert_eq!(
        HorizontalAlignment::Right.place_line(measured(93, 3)),
        (7, SpaceConfig::uniform())
    );
    assert_eq!(
        HorizontalAlignment::Justified.place_line(measured(93, 3)),
        (0, SpaceConfig::new(2, 1))
    );
    assert_eq!(
        HorizontalAlignment::Justified.place_line(measured(93, 0)),
        (0, SpaceConfig::uniform())
    );
    assert_eq!(
        HorizontalAlignment::Justified.place_line(measured(100, 4)),
        (0, SpaceConfig::new(0, 0))
    );
    assert_eq!(
        HorizontalAlignment::Right.place_line(measured(120, 4)),
        (0, SpaceConfig::uniform())
    );
}

#[test]
fn space_config_hands_out_the_remainder_first() {
    let mut spaces = SpaceConfig::new(2, 2);
    assert_eq!(spaces.consume(), 3);
    assert_eq!(spaces.consume(), 3);
    assert_eq!(spaces.consume(), 2);
    assert_eq!(spaces.consume(), 2);
    assert_eq!(spaces, SpaceConfig::new(2, 0));

    let mut spaces = SpaceConfig::new(u32::MAX, 1);
    assert_eq!(spaces.consume(), u32::MAX);
    assert_eq!(SpaceConfig::uniform().consume(), 0);
}

#[test]
fn measuring_a_line() {
    let style = TextBoxStyle::new();
    let mut parser = Parser::parse("Some sample text");
    let mut plugin = MiddlewareWrapper::new(NoMiddleware::new());
    assert_eq!(
        style.measure_line(&mut plugin, &font(), &mut parser, 42),
        Ok(LineMeasurement {
            max_line_width: 42,
            width: 24,
            space_runs: 0,
            line_end_type: LineEndType::LineBreak,
        })
    );
    assert_eq!(plugin.state(), ProcessingState::Measure);
    assert_eq!(plugin.peek_token(&mut parser), Some(Token::Word("sample")));

    let mut parser = Parser::parse("Some sample text");
    let mut plugin = MiddlewareWrapper::new(NoMiddleware::new());
    assert_eq!(
        style.measure_line(&mut plugin, &font(), &mut parser, 100),
        Ok(LineMeasurement {
            max_line_width: 100,
            width: 96,
            space_runs: 2,
            line_end_type: LineEndType::EndOfText,
        })
    );

    let mut parser = Parser::parse("Some\tsample\n");
    let mut plugin = MiddlewareWrapper::new(NoMiddleware::new());
    assert_eq!(
        style.measure_line(&mut plugin, &font(), &mut parser, 100),
        Ok(LineMeasurement {
            max_line_width: 100,
            width: 84,
            space_runs: 1,
            line_end_type: LineEndType::NewLine,
        })
    );

    let mut parser = Parser::parse("Some");
    let mut plugin = MiddlewareWrapper::new(NoMiddleware::new());
    assert_eq!(
        style.measure_line(&mut plugin, &font(), &mut parser, 3),
        Err(LayoutInvariantViolation {})
    );
}

#[test]
fn measuring_from_a_cursor() {
    let mut cursor = LineCursor::new(60, 24);
    assert_eq!(cursor.move_cursor_forward(20), Ok(20));
    let mut parser = Parser::parse("Some sample text");
    let mut plugin = MiddlewareWrapper::new(NoMiddleware::new());
    assert_eq!(
        measure_from(cursor, &mut plugin, &font(), &mut parser),
        Ok(LineMeasurement {
            max_line_width: 60,
            width: 44,
            space_runs: 0,
            line_end_type: LineEndType::LineBreak,
        })
    );
}

#[test]
fn line_cursor_moves_within_the_line() {
    let mut cursor = LineCursor::new(10, 4);
    assert_eq!(cursor.line_width(), 10);
    assert_eq!(cursor.tab_width(), 4);
    assert_eq!(cursor.space(), 10);
    assert!(cursor.fits_in_line(10));
    assert!(!cursor.fits_in_line(11));
    assert_eq!(cursor.move_cursor_forward(4), Ok(4));
    assert_eq!(cursor.position(), 4);
    assert_eq!(cursor.space(), 6);
    assert_eq!(cursor.pos(), Point::new(4, 0));
    assert_eq!(cursor.move_cursor_forward(7), Err(6));
    assert_eq!(cursor.position(), 4);
    assert_eq!(cursor.move_cursor_forward(6), Ok(6));
    assert_eq!(cursor.move_cursor_forward(0), Ok(0));
    assert_eq!(cursor.move_cursor_forward(1), Err(0));
    assert_eq!(cursor.position(), 10);

    assert_eq!(cursor.move_cursor(-3), Ok(-3));
    assert_eq!(cursor.position(), 7);
    assert_eq!(cursor.move_cursor(-8), Err(-7));
    assert_eq!(cursor.move_cursor(4), Err(3));
    assert_eq!(cursor.position(), 7);
    assert_eq!(cursor.move_cursor(3), Ok(3));
    assert_eq!(cursor.move_cursor(i32::MIN), Err(-10));
    assert_eq!(cursor.move_cursor(i32::MAX), Err(0));

    cursor.move_to(Point::new(-5, 8));
    assert_eq!(cursor.pos(), Point::new(5, 8));
    assert_eq!(cursor.position(), 10);

    let mut wide = LineCursor::new(u32::MAX, 0);
    assert_eq!(wide.move_cursor(1), Ok(1));
    assert_eq!(wide.move_cursor(i32::MAX), Ok(i32::MAX));
    assert_eq!(wide.position(), 0x8000_0000);
    assert_eq!(wide.move_cursor(i32::MIN), Ok(i32::MIN));
    assert_eq!(wide.position(), 0);
}

#[test]
fn measuring_words_and_runs() {
    let metrics = font();
    assert_eq!(word_fits(&metrics, "Some", 24), Some(24));
    assert_eq!(word_fits(&metrics, "Some", 23), None);
    assert_eq!(word_fits(&metrics, "", 0), Some(0));
    assert_eq!(word_fits(&metrics, "a\u{a0}b", 18), Some(18));
    assert_eq!(word_fits(&metrics, "a\u{a0}b", 17), None);
    assert_eq!(word_fits(&metrics, "\u{a0}", 6), Some(6));

    assert_eq!(longest_fitting_prefix(&metrics, "Some", 23), (3, 18));
    assert_eq!(longest_fitting_prefix(&metrics, "Some", 6), (1, 6));
    assert_eq!(longest_fitting_prefix(&metrics, "Some", 5), (0, 0));
    assert_eq!(longest_fitting_prefix(&metrics, "a\u{a0}b", 12), (2, 12));
    assert_eq!(longest_fitting_prefix(&metrics, "Some", 24), (4, 24));
    assert_eq!(longest_fitting_prefix(&metrics, "Some", 100), (4, 24));
    assert_eq!(longest_fitting_prefix(&metrics, "", 0), (0, 0));

    assert_eq!(fit_spaces(&metrics, "   ", 24, 18), (3, 18));
    assert_eq!(fit_spaces(&metrics, "   ", 24, 17), (2, 12));
    assert_eq!(fit_spaces(&metrics, " \t ", 24, 30), (2, 30));
    assert_eq!(fit_spaces(&metrics, " \t ", 24, 29), (1, 6));
    assert_eq!(fit_spaces(&metrics, "\t", 24, 23), (0, 0));
    assert_eq!(fit_spaces(&metrics, "", 24, 0), (0, 0));
}
