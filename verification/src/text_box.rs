//! A box of text: line after line, from the top of the box down.

use crate::geometry::Point;
use crate::geometry::Rectangle;
use crate::metrics::TextMetrics;
use crate::middleware::asked_in_pass;
use crate::middleware::lemma_asked_on;
use crate::middleware::lemma_not_asked;
use crate::middleware::Middleware;
use crate::middleware::ProcessingState;
use crate::middleware::MiddlewareWrapper;
use crate::middleware::Notification;
use crate::parser::TokenView;
use crate::rendering::cursor::LineCursor;
use crate::rendering::line::CharacterStyle;
use crate::rendering::line::DrawCommand;
use crate::rendering::line::DrawCommandView;
use crate::rendering::line::LineRenderState;
use crate::rendering::line::Pen;
use crate::rendering::line::StyledLineRenderer;
use crate::rendering::line::commands_view;
use crate::rendering::line::draw_line;
use crate::rendering::line_iter::LayoutInvariantViolation;
use crate::rendering::line_iter::LineEndType;
use crate::rendering::line_iter::layout;
use crate::rendering::line_laws::lemma_line_progress;
use crate::rendering::line_laws::stream_weight;
use crate::style::HeightMode;
use crate::style::HorizontalAlignment;
use crate::style::TextBoxStyle;
use vstd::prelude::*;

verus! {

/// Where in the box the next line goes, and how far down the box reaches.
#[derive(Clone, Copy, Debug, PartialEq, Eq, Structural)]
pub struct Cursor {
    /// The top left corner of the box.
    pub top_left: Point,
    /// The width of a line.
    pub line_width: u32,
    /// How many rows below the top of the box the next line starts.
    pub y: u32,
    /// How many rows below the top of the box the lines so far reach.
    pub bottom: u32,
    /// How many rows below the top of the box a line may reach.
    pub limit: u32,
    /// The height of a line.
    pub line_height: u32,
    /// The empty rows between two lines.
    pub line_spacing: u32,
    /// The empty rows that follow a line which a break has ended, on top
    /// of the line spacing.
    pub paragraph_spacing: u32,
    /// The width of a tab.
    pub tab_width: u32,
}

/// The sum of two lengths, at most `u32::MAX`.
pub open spec fn capped_sum(a: int, b: int) -> u32 {
    if a + b <= u32::MAX {
        (a + b) as u32
    } else {
        u32::MAX
    }
}

impl Cursor {
    /// How far down a box of the given height reaches in a height mode:
    /// to its height, or as far as the text goes.
    pub open spec fn spec_limit(height: u32, mode: HeightMode) -> u32 {
        match mode {
            HeightMode::Exact => height,
            HeightMode::FitToText => u32::MAX,
            HeightMode::ShrinkToText => height,
        }
    }

    /// The cursor at the top of a box.
    pub fn new<F: TextMetrics>(bounds: Rectangle, style: &TextBoxStyle, metrics: &F) -> (r: Self)
        ensures
            r == (Cursor {
                top_left: bounds.top_left,
                line_width: bounds.size.width,
                y: 0,
                bottom: 0,
                limit: Self::spec_limit(bounds.size.height, style.height_mode),
                line_height: metrics.height(),
                line_spacing: style.line_spacing,
                paragraph_spacing: style.paragraph_spacing,
                tab_width: style.tab_size.spec_into_pixels(metrics.width_of(" "@)),
            }),
    {
        let limit: u32 = match style.height_mode {
            HeightMode::Exact => bounds.size.height,
            HeightMode::FitToText => u32::MAX,
            HeightMode::ShrinkToText => bounds.size.height,
        };
        Cursor {
            top_left: bounds.top_left,
            line_width: bounds.size.width,
            y: 0,
            bottom: 0,
            limit,
            line_height: metrics.line_height(),
            line_spacing: style.line_spacing,
            paragraph_spacing: style.paragraph_spacing,
            tab_width: style.tab_size.into_pixels(metrics),
        }
    }

    /// The box that this cursor moves in: the cursor at the top of it.
    pub open spec fn frame(self) -> Cursor {
        Cursor { y: 0, bottom: 0, ..self }
    }

    /// Whether a line that starts `y` rows below the top is within the
    /// box.
    pub open spec fn fits(self, y: u32) -> bool {
        y + self.line_height <= self.limit
    }

    /// Whether the next line is within the box.
    pub fn in_display_area(&self) -> (fits: bool)
        ensures
            fits == self.fits(self.y),
    {
        self.y as u64 + self.line_height as u64 <= self.limit as u64
    }

    /// Where the next line starts on the display.
    pub open spec fn line_start(self, y: u32) -> Point {
        self.top_left.spec_down(y as int)
    }

    /// The cursor of the next line, at the line's start.
    pub fn line(&self) -> (line: LineCursor)
        ensures
            line.spec_start() == self.line_start(self.y),
            line.spec_width() == self.line_width,
            line.spec_position() == 0,
            line.spec_tab_width() == self.tab_width,
    {
        let mut line = LineCursor::new(self.line_width, self.tab_width);
        line.move_to(self.top_left.down(self.y));
        line
    }

    /// How many rows below the top the line after one that starts at `y`
    /// starts: below that line and the line spacing, and below the
    /// paragraph spacing if a break has ended the line.
    pub open spec fn next_y(self, y: u32, end: LineEndType) -> u32 {
        let below = capped_sum(capped_sum(y as int, self.line_height as int) as int, self.line_spacing as int);
        if end == LineEndType::NewLine {
            capped_sum(below as int, self.paragraph_spacing as int)
        } else {
            below
        }
    }

    /// Goes to the start of the line after the next, which has ended as
    /// `end` says.
    pub fn new_line(&mut self, end: LineEndType)
        ensures
            *final(self) == (Cursor {
                y: old(self).next_y(old(self).y, end),
                bottom: capped_sum(old(self).y as int, old(self).line_height as int),
                ..*old(self)
            }),
    {
        let bottom: u32 = self.y.saturating_add(self.line_height);
        let mut y: u32 = bottom.saturating_add(self.line_spacing);
        if end == LineEndType::NewLine {
            y = y.saturating_add(self.paragraph_spacing);
        }
        self.bottom = bottom;
        self.y = y;
    }
}

/// A text while it is rendered: the tokens that are still to be laid
/// out, the commands and the character style so far, what the middleware
/// has been told so far, where the next line starts, how far down the
/// lines so far reach, and why the last line ended.
pub struct TextState {
    pub stream: Seq<TokenView>,
    pub commands: Seq<DrawCommandView>,
    pub style: CharacterStyle,
    pub told: Seq<Notification>,
    pub y: u32,
    pub bottom: u32,
    pub end: LineEndType,
}

/// Whether a text ends with a line that has ended like this.
pub open spec fn is_last(end: LineEndType) -> bool {
    end == LineEndType::EndOfText || end == LineEndType::OutOfVerticalSpace
}

/// Renders one more line of a text.
///
/// Where the line is not within the box, nothing is drawn and the text is
/// out of vertical space. Otherwise the middleware is told that a line
/// starts, the line is drawn at its place, and the next line starts below
/// it.
pub open spec fn render_line<F: TextMetrics>(
    metrics: &F,
    cursor: Cursor,
    alignment: HorizontalAlignment,
    text: TextState,
) -> Option<TextState> {
    if !cursor.fits(text.y) {
        Some(TextState { end: LineEndType::OutOfVerticalSpace, ..text })
    } else {
        match draw_line(
            metrics,
            text.stream,
            cursor.line_width,
            cursor.tab_width,
            0,
            alignment,
            Pen {
                commands: text.commands,
                pos: cursor.line_start(text.y).spec_right(0),
                style: text.style,
            },
        ) {
            None => None,
            Some(line) => Some(
                TextState {
                    stream: line.layout.rest,
                    commands: line.pen.commands,
                    style: line.pen.style,
                    told: text.told.push(Notification::NewLine) + line.told,
                    y: cursor.next_y(text.y, line.layout.end),
                    bottom: capped_sum(text.y as int, cursor.line_height as int),
                    end: line.layout.end,
                },
            ),
        }
    }
}

/// Renders up to `lines` more lines of a text, and stops behind the last
/// line of the text.
pub open spec fn render_lines<F: TextMetrics>(
    metrics: &F,
    cursor: Cursor,
    alignment: HorizontalAlignment,
    text: TextState,
    lines: nat,
) -> Option<TextState>
    decreases lines,
{
    if lines == 0 {
        Some(text)
    } else {
        match render_line(metrics, cursor, alignment, text) {
            None => None,
            Some(next) => if is_last(next.end) {
                Some(next)
            } else {
                render_lines(metrics, cursor, alignment, next, (lines - 1) as nat)
            },
        }
    }
}

/// Renders the rest of a text, line by line, down to its last line.
pub open spec fn render_text<F: TextMetrics>(
    metrics: &F,
    cursor: Cursor,
    alignment: HorizontalAlignment,
    text: TextState,
) -> Option<TextState>
    decreases stream_weight(text.stream),
{
    match render_line(metrics, cursor, alignment, text) {
        None => None,
        Some(next) => if is_last(next.end) {
            Some(next)
        } else if stream_weight(next.stream) < stream_weight(text.stream) {
            render_text(metrics, cursor, alignment, next)
        } else {
            None
        },
    }
}

/// The text as a state and a cursor hold it.
pub open spec fn text_state<'a, M: Middleware<'a>>(
    state: &LineRenderState<'a, M>,
    cursor: Cursor,
) -> TextState {
    TextState {
        stream: state.stream(),
        commands: commands_view(state.display@),
        style: state.character_style,
        told: state.plugin.told(),
        y: cursor.y,
        bottom: cursor.bottom,
        end: state.end_type,
    }
}

/// Renders one more line of a text: tells the middleware that a line
/// starts, draws the line and moves the cursor below it. Where the line
/// is not within the box, nothing is drawn and the text is out of
/// vertical space.
pub fn draw_next_line<'a, M: Middleware<'a>, F: TextMetrics>(
    state: LineRenderState<'a, M>,
    cursor: Cursor,
    metrics: &F,
) -> (r: Result<(LineRenderState<'a, M>, Cursor), LayoutInvariantViolation>)
    ensures
        match r {
            Ok((next, below)) => {
                &&& render_line(
                    metrics,
                    cursor.frame(),
                    state.style.alignment,
                    text_state(&state, cursor),
                ) == Some(text_state(&next, below))
                &&& next.style == state.style
                &&& below.frame() == cursor.frame()
                &&& asked_in_pass(state.plugin.asked(), next.plugin.asked(), ProcessingState::Render)
            },
            Err(_) => render_line(
                metrics,
                cursor.frame(),
                state.style.alignment,
                text_state(&state, cursor),
            ) is None,
        },
{
    let mut state = state;
    let mut cursor = cursor;
    if !cursor.in_display_area() {
        state.end_type = LineEndType::OutOfVerticalSpace;
        proof {
            lemma_not_asked(state.plugin.asked(), ProcessingState::Render);
        }
        return Ok((state, cursor));
    }
    state.plugin.new_line();
    let line = cursor.line();
    match StyledLineRenderer::new(line, state).draw(metrics) {
        Ok(next) => {
            cursor.new_line(next.end_type);
            Ok((next, cursor))
        },
        Err(violation) => Err(violation),
    }
}

/// Renders up to `lines` more lines of a text, and stops behind the last
/// line of the text. The state and the cursor that come back go on where
/// this call has stopped.
pub fn draw_lines<'a, M: Middleware<'a>, F: TextMetrics>(
    state: LineRenderState<'a, M>,
    cursor: Cursor,
    metrics: &F,
    lines: u32,
) -> (r: Result<(LineRenderState<'a, M>, Cursor), LayoutInvariantViolation>)
    ensures
        match r {
            Ok((next, below)) => {
                &&& render_lines(
                    metrics,
                    cursor.frame(),
                    state.style.alignment,
                    text_state(&state, cursor),
                    lines as nat,
                ) == Some(text_state(&next, below))
                &&& next.style == state.style
                &&& below.frame() == cursor.frame()
                &&& asked_in_pass(state.plugin.asked(), next.plugin.asked(), ProcessingState::Render)
            },
            Err(_) => render_lines(
                metrics,
                cursor.frame(),
                state.style.alignment,
                text_state(&state, cursor),
                lines as nat,
            ) is None,
        },
{
    let ghost first = text_state(&state, cursor);
    let ghost style = state.style;
    let mut current = state;
    let mut place = cursor;
    let mut done: u32 = 0;
    proof {
        lemma_not_asked(state.plugin.asked(), ProcessingState::Render);
    }
    while done < lines
        invariant
            done <= lines,
            first == text_state(&state, cursor),
            style == state.style,
            place.frame() == cursor.frame(),
            current.style == style,
            asked_in_pass(state.plugin.asked(), current.plugin.asked(), ProcessingState::Render),
            render_lines(metrics, cursor.frame(), style.alignment, first, lines as nat)
                == render_lines(
                metrics,
                cursor.frame(),
                style.alignment,
                text_state(&current, place),
                (lines - done) as nat,
            ),
        decreases lines - done,
    {
        let ghost asked = current.plugin.asked();
        match draw_next_line(current, place, metrics) {
            Ok((next, below)) => {
                proof {
                    lemma_asked_on(
                        state.plugin.asked(),
                        asked,
                        next.plugin.asked(),
                        ProcessingState::Render,
                    );
                }
                current = next;
                place = below;
                if current.end_type == LineEndType::EndOfText || current.end_type
                    == LineEndType::OutOfVerticalSpace {
                    return Ok((current, place));
                }
                done = done + 1;
            },
            Err(violation) => {
                return Err(violation);
            },
        }
    }
    Ok((current, place))
}

/// Renders the rest of a text, line by line, down to its last line.
pub fn draw_text<'a, M: Middleware<'a>, F: TextMetrics>(
    state: LineRenderState<'a, M>,
    cursor: Cursor,
    metrics: &F,
) -> (r: Result<(LineRenderState<'a, M>, Cursor), LayoutInvariantViolation>)
    ensures
        match r {
            Ok((last, below)) => {
                &&& render_text(
                    metrics,
                    cursor.frame(),
                    state.style.alignment,
                    text_state(&state, cursor),
                ) == Some(text_state(&last, below))
                &&& is_last(last.end_type)
                &&& last.style == state.style
                &&& below.frame() == cursor.frame()
                &&& asked_in_pass(state.plugin.asked(), last.plugin.asked(), ProcessingState::Render)
            },
            Err(_) => render_text(
                metrics,
                cursor.frame(),
                state.style.alignment,
                text_state(&state, cursor),
            ) is None,
        },
{
    let ghost first = text_state(&state, cursor);
    let ghost style = state.style;
    let mut current = state;
    let mut place = cursor;
    proof {
        lemma_not_asked(state.plugin.asked(), ProcessingState::Render);
    }
    loop
        invariant
            first == text_state(&state, cursor),
            style == state.style,
            place.frame() == cursor.frame(),
            current.style == style,
            asked_in_pass(state.plugin.asked(), current.plugin.asked(), ProcessingState::Render),
            render_text(metrics, cursor.frame(), style.alignment, first) == render_text(
                metrics,
                cursor.frame(),
                style.alignment,
                text_state(&current, place),
            ),
        decreases stream_weight(current.stream()),
    {
        proof {
            lemma_line_progress(
                metrics,
                current.stream(),
                cursor.line_width,
                cursor.tab_width,
                0,
                Seq::empty(),
            );
        }
        let ghost asked = current.plugin.asked();
        match draw_next_line(current, place, metrics) {
            Ok((next, below)) => {
                proof {
                    lemma_asked_on(
                        state.plugin.asked(),
                        asked,
                        next.plugin.asked(),
                        ProcessingState::Render,
                    );
                }
                current = next;
                place = below;
                if current.end_type == LineEndType::EndOfText || current.end_type
                    == LineEndType::OutOfVerticalSpace {
                    return Ok((current, place));
                }
            },
            Err(violation) => {
                return Err(violation);
            },
        }
    }
}

/// The height that a box reports: its own in a box that keeps its
/// height, that of the text in a box that fits the text, and the smaller
/// of the two in a box that shrinks to the text.
pub open spec fn reported_height(mode: HeightMode, height: u32, bottom: u32) -> u32 {
    match mode {
        HeightMode::Exact => height,
        HeightMode::FitToText => bottom,
        HeightMode::ShrinkToText => if bottom < height {
            bottom
        } else {
            height
        },
    }
}

/// A text in a box.
#[derive(Clone, Copy, Debug)]
pub struct TextBox<'a> {
    /// The text.
    pub text: &'a str,
    /// The area that the text is laid out in.
    pub bounds: Rectangle,
    /// The settings.
    pub style: TextBoxStyle,
}

/// A rendered text box.
pub struct RenderedText<'a, M> {
    /// What is to be drawn, in order.
    pub commands: Vec<DrawCommand<'a>>,
    /// The middleware, as the text has left it.
    pub plugin: MiddlewareWrapper<'a, M>,
    /// Why the last line ended: at the end of the text, or where the box
    /// was full.
    pub end_type: LineEndType,
    /// The height of the box.
    pub height: u32,
}

/// A text before its first line, with a middleware that has heard
/// `told` before.
pub open spec fn fresh_text(stream: Seq<TokenView>, told: Seq<Notification>) -> TextState {
    TextState {
        stream,
        commands: Seq::empty(),
        style: CharacterStyle::spec_inherited(),
        told,
        y: 0,
        bottom: 0,
        end: LineEndType::EndOfText,
    }
}

impl<'a> TextBox<'a> {
    pub fn new(text: &'a str, bounds: Rectangle, style: TextBoxStyle) -> (r: Self)
        ensures
            r.text == text,
            r.bounds == bounds,
            r.style == style,
    {
        TextBox { text, bounds, style }
    }

    /// Lays out the text and hands out the commands that draw it.
    ///
    /// All lines are rendered, from the top of the box down, until the
    /// text ends or the next line would not be within the box.
    pub fn draw<M: Middleware<'a>, F: TextMetrics>(&self, metrics: &F, middleware: M) -> (r: Result<
        RenderedText<'a, M>,
        LayoutInvariantViolation,
    >)
        ensures
            ({
                let last = render_text(
                    metrics,
                    Cursor {
                        top_left: self.bounds.top_left,
                        line_width: self.bounds.size.width,
                        y: 0,
                        bottom: 0,
                        limit: Cursor::spec_limit(self.bounds.size.height, self.style.height_mode),
                        line_height: metrics.height(),
                        line_spacing: self.style.line_spacing,
                        paragraph_spacing: self.style.paragraph_spacing,
                        tab_width: self.style.tab_size.spec_into_pixels(metrics.width_of(" "@)),
                    },
                    self.style.alignment,
                    fresh_text(middleware.upcoming(self.text@), middleware.heard()),
                );
                match r {
                    Ok(text) => {
                        &&& last is Some
                        &&& commands_view(text.commands@) == last->0.commands
                        &&& text.plugin.told() == last->0.told
                        &&& asked_in_pass(
                            middleware.asked(),
                            text.plugin.asked(),
                            ProcessingState::Render,
                        )
                        &&& text.end_type == last->0.end
                        &&& is_last(text.end_type)
                        &&& text.height == reported_height(
                            self.style.height_mode,
                            self.bounds.size.height,
                            last->0.bottom,
                        )
                    },
                    Err(_) => last is None,
                }
            }),
    {
        let cursor = Cursor::new(self.bounds, &self.style, metrics);
        let state = LineRenderState::new(self.text, self.style, middleware);
        assert(commands_view(state.display@) =~= Seq::empty());
        assert(text_state(&state, cursor) == fresh_text(middleware.upcoming(self.text@), middleware.heard()));
        match draw_text(state, cursor, metrics) {
            Ok((last, below)) => {
                let height: u32 = match self.style.height_mode {
                    HeightMode::Exact => self.bounds.size.height,
                    HeightMode::FitToText => below.bottom,
                    HeightMode::ShrinkToText => if below.bottom < self.bounds.size.height {
                        below.bottom
                    } else {
                        self.bounds.size.height
                    },
                };
                Ok(
                    RenderedText {
                        commands: last.display,
                        plugin: last.plugin,
                        end_type: last.end_type,
                        height,
                    },
                )
            },
            Err(violation) => Err(violation),
        }
    }
}

/// Rendering can be resumed: rendering some lines first and the lines
/// after them in a second call gives what rendering them in one call
/// gives.
pub proof fn lemma_render_lines_resumes<F: TextMetrics>(
    metrics: &F,
    cursor: Cursor,
    alignment: HorizontalAlignment,
    text: TextState,
    first: nat,
    second: nat,
)
    ensures
        render_lines(metrics, cursor, alignment, text, first + second) == match render_lines(
            metrics,
            cursor,
            alignment,
            text,
            first,
        ) {
            None => None,
            Some(between) => if first > 0 && is_last(between.end) {
                Some(between)
            } else {
                render_lines(metrics, cursor, alignment, between, second)
            },
        },
    decreases first,
{
    if first > 0 {
        match render_line(metrics, cursor, alignment, text) {
            None => {},
            Some(next) => {
                if !is_last(next.end) {
                    lemma_render_lines_resumes(
                        metrics,
                        cursor,
                        alignment,
                        next,
                        (first - 1) as nat,
                        second,
                    );
                    if first == 1 {
                        assert(render_lines(metrics, cursor, alignment, next, 0) == Some(next));
                    }
                }
            },
        }
    }
}

/// Rendering can be resumed: rendering some lines of a text and then,
/// from where that has stopped, the rest of the text gives what rendering
/// the whole text in one go gives.
pub proof fn lemma_render_text_resumes<F: TextMetrics>(
    metrics: &F,
    cursor: Cursor,
    alignment: HorizontalAlignment,
    text: TextState,
    lines: nat,
)
    ensures
        match render_lines(metrics, cursor, alignment, text, lines) {
            None => render_text(metrics, cursor, alignment, text) is None,
            Some(between) => render_text(metrics, cursor, alignment, text) == if lines > 0
                && is_last(between.end) {
                Some(between)
            } else {
                render_text(metrics, cursor, alignment, between)
            },
        },
    decreases lines,
{
    if lines > 0 {
        lemma_line_progress(
            metrics,
            text.stream,
            cursor.line_width,
            cursor.tab_width,
            0,
            Seq::empty(),
        );
        match render_line(metrics, cursor, alignment, text) {
            None => {},
            Some(next) => {
                if !is_last(next.end) {
                    lemma_render_text_resumes(metrics, cursor, alignment, next, (lines - 1) as nat);
                    if lines == 1 {
                        assert(render_lines(metrics, cursor, alignment, next, 0) == Some(next));
                    }
                }
            },
        }
    }
}

/// Where the line after `lines` lines starts in a box without paragraph
/// spacing.
pub open spec fn line_top(cursor: Cursor, lines: nat) -> u32 {
    capped_sum(lines * (cursor.line_height + cursor.line_spacing), 0)
}

/// In a box without paragraph spacing, lines stand at equal distances:
/// if the text goes on after `lines` more lines, the next line starts
/// that many lines further down, and all of those lines were within the
/// box.
pub proof fn lemma_lines_stand_evenly<F: TextMetrics>(
    metrics: &F,
    cursor: Cursor,
    alignment: HorizontalAlignment,
    text: TextState,
    before: nat,
    lines: nat,
)
    requires
        cursor.paragraph_spacing == 0,
        cursor.line_height > 0,
        text.y == line_top(cursor, before),
        render_lines(metrics, cursor, alignment, text, lines) matches Some(after) && !is_last(
            after.end,
        ),
        lines > 0 || !is_last(text.end),
    ensures
        render_lines(metrics, cursor, alignment, text, lines)->0.y == line_top(
            cursor,
            before + lines,
        ),
        lines > 0 ==> line_top(cursor, (before + lines - 1) as nat) + cursor.line_height
            <= cursor.limit,
    decreases lines,
{
    if lines > 0 {
        let next = render_line(metrics, cursor, alignment, text)->0;
        let step = cursor.line_height + cursor.line_spacing;
        assert((before + 1) * step == before * step + step) by (nonlinear_arith);
        assert(next.y == line_top(cursor, before + 1));
        lemma_lines_stand_evenly(metrics, cursor, alignment, next, before + 1, (lines - 1) as nat);
    }
}

/// The height boundary: in a box without paragraph spacing that is high
/// enough for `lines` lines and no more, a text that goes on after
/// `lines` lines is out of vertical space there. The line after them is
/// not begun: no command is added for it.
pub proof fn lemma_height_boundary<F: TextMetrics>(
    metrics: &F,
    cursor: Cursor,
    alignment: HorizontalAlignment,
    text: TextState,
    lines: nat,
)
    requires
        cursor.paragraph_spacing == 0,
        cursor.line_height > 0,
        text.y == 0,
        lines * (cursor.line_height + cursor.line_spacing) + cursor.line_height > cursor.limit,
        render_lines(metrics, cursor, alignment, text, lines) matches Some(after) && !is_last(
            after.end,
        ),
        lines > 0 || !is_last(text.end),
    ensures
        ({
            let after = render_lines(metrics, cursor, alignment, text, lines)->0;
            let full = TextState { end: LineEndType::OutOfVerticalSpace, ..after };
            &&& render_line(metrics, cursor, alignment, after) == Some(full)
            &&& render_text(metrics, cursor, alignment, text) == Some(full)
        }),
{
    let step = cursor.line_height + cursor.line_spacing;
    assert(0 * step == 0) by (nonlinear_arith);
    lemma_lines_stand_evenly(metrics, cursor, alignment, text, 0, lines);
    lemma_render_text_resumes(metrics, cursor, alignment, text, lines);
}

/// Whether two texts stand at the same place: the same tokens are left,
/// the next line starts in the same row, and the last line ended for the
/// same reason.
pub open spec fn same_place(a: TextState, b: TextState) -> bool {
    &&& a.stream == b.stream
    &&& a.y == b.y
    &&& a.bottom == b.bottom
    &&& a.end == b.end
}

/// The passes agree on the whole text: where the lines of a text break
/// does not depend on how the lines are aligned. A text that is rendered
/// with one alignment breaks where it breaks with any other, and so where
/// the measuring pass, which widens nothing, has found its breaks.
pub proof fn lemma_breaks_do_not_depend_on_alignment<F: TextMetrics>(
    metrics: &F,
    cursor: Cursor,
    one: HorizontalAlignment,
    other: HorizontalAlignment,
    text: TextState,
    twin: TextState,
    lines: nat,
)
    requires
        same_place(text, twin),
    ensures
        match (
            render_lines(metrics, cursor, one, text, lines),
            render_lines(metrics, cursor, other, twin, lines),
        ) {
            (Some(a), Some(b)) => same_place(a, b),
            (None, None) => true,
            _ => false,
        },
    decreases lines,
{
    if lines > 0 {
        match (
            render_line(metrics, cursor, one, text),
            render_line(metrics, cursor, other, twin),
        ) {
            (Some(a), Some(b)) => {
                if !is_last(a.end) {
                    lemma_breaks_do_not_depend_on_alignment(
                        metrics,
                        cursor,
                        one,
                        other,
                        a,
                        b,
                        (lines - 1) as nat,
                    );
                }
            },
            _ => {},
        }
    }
}

} // verus!
