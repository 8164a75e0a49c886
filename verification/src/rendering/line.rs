//! Line rendering.

use crate::color::DecorationColor;
use crate::color::Rgb;
use crate::geometry::Point;
use crate::geometry::Rectangle;
use crate::geometry::Size;
use crate::metrics::TextMetrics;
use crate::middleware::asked_in_pass;
use crate::middleware::Middleware;
use crate::middleware::MiddlewareWrapper;
use crate::middleware::Notification;
use crate::middleware::ProcessingState;
use crate::parser::ChangeTextStyle;
use crate::parser::Parser;
use crate::parser::TokenView;
use crate::rendering::cursor::LineCursor;
use crate::alignment::lemma_justified_layout_is_full;
use crate::rendering::line_iter::count_runs;
use crate::rendering::line_iter::layout;
use crate::rendering::line_iter::line_of;
use crate::rendering::line_iter::total_width;
use crate::rendering::line_laws::lemma_first_word_is_placed;
use crate::rendering::line_laws::lemma_line_progress;
use crate::rendering::line_laws::stream_weight;
use crate::rendering::word::fitting_prefix;
use crate::rendering::word::word_elements;
use crate::rendering::word::word_width;
use crate::rendering::line_iter::reports;
use crate::rendering::line_iter::stretch;
use crate::rendering::line_iter::ElementHandler;
use crate::rendering::line_iter::LayoutInvariantViolation;
use crate::rendering::line_iter::LineElementParser;
use crate::rendering::line_iter::LineEndType;
use crate::rendering::line_iter::LineError;
use crate::rendering::line_iter::LineLayout;
use crate::rendering::line_iter::RenderElement;
use crate::rendering::line_iter::Span;
use crate::style::measure_from;
use crate::style::measurement_of;
use crate::style::HorizontalAlignment;
use crate::style::TextBoxStyle;
use vstd::prelude::*;

verus! {

/// A part of the character style: as the renderer has it, or set by the
/// text.
#[derive(Clone, Copy, Debug, PartialEq, Eq)]
pub enum Setting<T> {
    /// The text has not changed it.
    Inherited,
    /// The text has set it.
    Given(T),
}

/// What the style changes in the text have made of the character style.
///
/// The renderer that draws the text holds the style itself. This is the
/// part of it that the text has set.
#[derive(Clone, Copy, Debug, PartialEq, Eq)]
pub struct CharacterStyle {
    pub text_color: Setting<Option<Rgb>>,
    pub background_color: Setting<Option<Rgb>>,
    pub underline_color: Setting<DecorationColor>,
    pub strikethrough_color: Setting<DecorationColor>,
}

impl CharacterStyle {
    /// The style that the text has not changed.
    pub open spec fn spec_inherited() -> CharacterStyle {
        CharacterStyle {
            text_color: Setting::Inherited,
            background_color: Setting::Inherited,
            underline_color: Setting::Inherited,
            strikethrough_color: Setting::Inherited,
        }
    }

    /// The style that the text has not changed.
    pub fn inherited() -> (style: Self)
        ensures
            style == Self::spec_inherited(),
    {
        CharacterStyle {
            text_color: Setting::Inherited,
            background_color: Setting::Inherited,
            underline_color: Setting::Inherited,
            strikethrough_color: Setting::Inherited,
        }
    }
}

impl ChangeTextStyle {
    /// The style after this change.
    ///
    /// A reset gives white text without background and decorations. Any
    /// other change sets one part and keeps the others.
    pub open spec fn applied(self, style: CharacterStyle) -> CharacterStyle {
        match self {
            ChangeTextStyle::Reset => CharacterStyle {
                text_color: Setting::Given(Some(Rgb::spec_white())),
                background_color: Setting::Given(None),
                underline_color: Setting::Given(DecorationColor::Off),
                strikethrough_color: Setting::Given(DecorationColor::Off),
            },
            ChangeTextStyle::TextColor(color) => CharacterStyle {
                text_color: Setting::Given(color),
                ..style
            },
            ChangeTextStyle::BackgroundColor(color) => CharacterStyle {
                background_color: Setting::Given(color),
                ..style
            },
            ChangeTextStyle::Underline(color) => CharacterStyle {
                underline_color: Setting::Given(color),
                ..style
            },
            ChangeTextStyle::Strikethrough(color) => CharacterStyle {
                strikethrough_color: Setting::Given(color),
                ..style
            },
        }
    }

    /// Changes the style.
    pub fn apply(self, style: &mut CharacterStyle)
        ensures
            *final(style) == self.applied(*old(style)),
    {
        match self {
            ChangeTextStyle::Reset => {
                style.text_color = Setting::Given(Some(Rgb::white()));
                style.background_color = Setting::Given(None);
                style.underline_color = Setting::Given(DecorationColor::Off);
                style.strikethrough_color = Setting::Given(DecorationColor::Off);
            },
            ChangeTextStyle::TextColor(color) => {
                style.text_color = Setting::Given(color);
            },
            ChangeTextStyle::BackgroundColor(color) => {
                style.background_color = Setting::Given(color);
            },
            ChangeTextStyle::Underline(color) => {
                style.underline_color = Setting::Given(color);
            },
            ChangeTextStyle::Strikethrough(color) => {
                style.strikethrough_color = Setting::Given(color);
            },
        }
    }
}

/// Something to draw, with the place where it goes and the style that it
/// is drawn in.
#[derive(Clone, Copy, Debug, PartialEq, Eq)]
pub enum DrawCommand<'a> {
    /// Characters, with their top left corner at `position`.
    Text { text: &'a str, position: Point, style: CharacterStyle },
    /// An empty area as high as a line, with its top left corner at
    /// `position`.
    Whitespace { width: u32, position: Point, style: CharacterStyle },
}

/// What a [`DrawCommand`] holds, as mathematical values.
pub enum DrawCommandView {
    Text { text: Seq<char>, position: Point, style: CharacterStyle },
    Whitespace { width: u32, position: Point, style: CharacterStyle },
}

impl<'a> View for DrawCommand<'a> {
    type V = DrawCommandView;

    open spec fn view(&self) -> DrawCommandView {
        match *self {
            DrawCommand::Text { text, position, style } => DrawCommandView::Text {
                text: text@,
                position,
                style,
            },
            DrawCommand::Whitespace { width, position, style } => DrawCommandView::Whitespace {
                width,
                position,
                style,
            },
        }
    }
}

/// The views of a list of commands.
pub open spec fn commands_view(commands: Seq<DrawCommand<'_>>) -> Seq<DrawCommandView> {
    commands.map_values(|c: DrawCommand<'_>| c@)
}

/// Where drawing stands: the commands so far, the position of the next
/// element and the character style.
pub struct Pen {
    pub commands: Seq<DrawCommandView>,
    pub pos: Point,
    pub style: CharacterStyle,
}

/// The pen after one more element.
///
/// Printed characters are drawn at the pen's position, and so is
/// whitespace that has a width. Both move the pen to the right by their
/// width. A style change changes the style.
pub open spec fn draw_element(pen: Pen, element: RenderElement) -> Pen {
    match element {
        RenderElement::PrintedCharacters(text, width) => Pen {
            commands: pen.commands.push(
                DrawCommandView::Text { text, position: pen.pos, style: pen.style },
            ),
            pos: pen.pos.spec_right(width as int),
            style: pen.style,
        },
        RenderElement::Whitespace(_, _, width) => Pen {
            commands: if width > 0 {
                pen.commands.push(
                    DrawCommandView::Whitespace { width, position: pen.pos, style: pen.style },
                )
            } else {
                pen.commands
            },
            pos: pen.pos.spec_right(width as int),
            style: pen.style,
        },
        RenderElement::StyleChange(change) => Pen {
            commands: pen.commands,
            pos: pen.pos,
            style: change.applied(pen.style),
        },
    }
}

/// The pen after the given elements, in order.
pub open spec fn draw_elements(pen: Pen, elements: Seq<RenderElement>) -> Pen
    decreases elements.len(),
{
    if elements.len() == 0 {
        pen
    } else {
        draw_element(draw_elements(pen, elements.drop_last()), elements.last())
    }
}

/// The texts among the elements, each with the area that it is drawn in:
/// as wide as the element and as high as a line, at the place where the
/// pen stands when it comes to the element.
pub open spec fn spans_of(pen: Pen, elements: Seq<RenderElement>, line_height: u32) -> Seq<Span>
    decreases elements.len(),
{
    if elements.len() == 0 {
        Seq::empty()
    } else {
        let front = elements.drop_last();
        let before = spans_of(pen, front, line_height);
        let top_left = draw_elements(pen, front).pos;
        match elements.last() {
            RenderElement::PrintedCharacters(text, width) => before.push(
                (text, Rectangle { top_left, size: Size { width, height: line_height } }),
            ),
            RenderElement::Whitespace(text, _, width) => before.push(
                (text, Rectangle { top_left, size: Size { width, height: line_height } }),
            ),
            RenderElement::StyleChange(_) => before,
        }
    }
}

/// The handler of the rendering pass: it turns the elements of a line
/// into draw commands.
pub struct RenderElementHandler<'a> {
    /// The commands so far.
    pub display: Vec<DrawCommand<'a>>,
    /// Where the next element goes.
    pub pos: Point,
    /// The character style.
    pub style: CharacterStyle,
    /// The height of a line.
    pub line_height: u32,
    /// The elements taken so far.
    pub trace: Ghost<Seq<RenderElement>>,
    /// The texts drawn so far, with their areas.
    pub spans: Ghost<Seq<Span>>,
    /// The pen that the handler was made with.
    pub origin: Ghost<Pen>,
}

impl<'a> RenderElementHandler<'a> {
    /// The pen as the handler holds it.
    pub open spec fn pen(&self) -> Pen {
        Pen { commands: commands_view(self.display@), pos: self.pos, style: self.style }
    }

    /// A handler that goes on from the given commands, position and
    /// style.
    pub fn new(
        display: Vec<DrawCommand<'a>>,
        pos: Point,
        style: CharacterStyle,
        line_height: u32,
    ) -> (r: Self)
        ensures
            r.follows(&r),
            r.received() == Seq::<RenderElement>::empty(),
            r.drawn() == Seq::<Span>::empty(),
            r.origin@ == (Pen { commands: commands_view(display@), pos, style }),
            r.line_height == line_height,
    {
        RenderElementHandler {
            display,
            pos,
            style,
            line_height,
            trace: Ghost(Seq::empty()),
            spans: Ghost(Seq::empty()),
            origin: Ghost(Pen { commands: commands_view(display@), pos, style }),
        }
    }

    /// The area of an element of the given width at the current
    /// position, and the position behind it.
    pub fn post_print(&self, width: u32) -> (r: (Rectangle, Point))
        ensures
            r.0 == (Rectangle {
                top_left: self.pos,
                size: Size { width, height: self.line_height },
            }),
            r.1 == self.pos.spec_right(width as int),
    {
        let bounds = Rectangle::new(self.pos, Size::new(width, self.line_height));
        (bounds, self.pos.right(width))
    }
}

impl<'a> ElementHandler<'a> for RenderElementHandler<'a> {
    type Error = ();

    open spec fn received(&self) -> Seq<RenderElement> {
        self.trace@
    }

    open spec fn drawn(&self) -> Seq<Span> {
        self.spans@
    }

    open spec fn can_fail() -> bool {
        false
    }

    /// The handler was made with the pen and the line height that
    /// `start` was made with, holds the pen that its elements have led
    /// to, and has drawn the texts among its elements.
    open spec fn follows(&self, start: &Self) -> bool {
        &&& self.origin == start.origin
        &&& self.line_height == start.line_height
        &&& self.pen() == draw_elements(self.origin@, self.trace@)
        &&& self.spans@ == spans_of(self.origin@, self.trace@, self.line_height)
    }

    fn whitespace(&mut self, text: &'a str, space_count: u32, width: u32) -> (r: Result<
        Option<Rectangle>,
        Self::Error,
    >)
        ensures
            r == Ok::<Option<Rectangle>, ()>(
                Some(
                    Rectangle {
                        top_left: old(self).pos,
                        size: Size { width, height: old(self).line_height },
                    },
                ),
            ),
            final(self).pen() == draw_element(
                old(self).pen(),
                RenderElement::Whitespace(text@, space_count, width),
            ),
            final(self).line_height == old(self).line_height,
            final(self).origin == old(self).origin,
    {
        let ghost before = self.trace@;
        let ghost shown = self.display@;
        if width > 0 {
            self.display.push(
                DrawCommand::Whitespace { width, position: self.pos, style: self.style },
            );
            assert(commands_view(self.display@) =~= commands_view(shown).push(
                DrawCommandView::Whitespace { width, position: self.pos, style: self.style },
            ));
        }
        let (bounds, next) = self.post_print(width);
        self.pos = next;
        self.trace = Ghost(before.push(RenderElement::Whitespace(text@, space_count, width)));
        self.spans = Ghost(self.spans@.push((text@, bounds)));
        assert(self.trace@.drop_last() =~= before);
        Ok(Some(bounds))
    }

    fn printed_characters(&mut self, text: &'a str, width: u32) -> (r: Result<
        Option<Rectangle>,
        Self::Error,
    >)
        ensures
            r == Ok::<Option<Rectangle>, ()>(
                Some(
                    Rectangle {
                        top_left: old(self).pos,
                        size: Size { width, height: old(self).line_height },
                    },
                ),
            ),
            final(self).pen() == draw_element(
                old(self).pen(),
                RenderElement::PrintedCharacters(text@, width),
            ),
            final(self).line_height == old(self).line_height,
            final(self).origin == old(self).origin,
    {
        let ghost before = self.trace@;
        let ghost shown = self.display@;
        self.display.push(DrawCommand::Text { text, position: self.pos, style: self.style });
        assert(commands_view(self.display@) =~= commands_view(shown).push(
            DrawCommandView::Text { text: text@, position: self.pos, style: self.style },
        ));
        let (bounds, next) = self.post_print(width);
        self.pos = next;
        self.trace = Ghost(before.push(RenderElement::PrintedCharacters(text@, width)));
        self.spans = Ghost(self.spans@.push((text@, bounds)));
        assert(self.trace@.drop_last() =~= before);
        Ok(Some(bounds))
    }

    fn change_text_style(&mut self, change: ChangeTextStyle) -> (r: Result<(), Self::Error>)
        ensures
            final(self).pen() == draw_element(old(self).pen(), RenderElement::StyleChange(change)),
            final(self).line_height == old(self).line_height,
            final(self).origin == old(self).origin,
    {
        let ghost before = self.trace@;
        change.apply(&mut self.style);
        self.trace = Ghost(before.push(RenderElement::StyleChange(change)));
        assert(self.trace@.drop_last() =~= before);
        Ok(())
    }
}

/// What is carried from one line of a text to the next.
pub struct LineRenderState<'a, M> {
    /// The text that is still to be read.
    pub parser: Parser<'a>,
    /// The character style at the end of the last line.
    pub character_style: CharacterStyle,
    /// The settings of the text box.
    pub style: TextBoxStyle,
    /// Why the last line ended.
    pub end_type: LineEndType,
    /// The middleware and its look-ahead.
    pub plugin: MiddlewareWrapper<'a, M>,
    /// The commands of the lines so far.
    pub display: Vec<DrawCommand<'a>>,
}

impl<'a, M: Middleware<'a>> LineRenderState<'a, M> {
    /// The tokens that are still to be laid out.
    pub open spec fn stream(&self) -> Seq<TokenView> {
        self.plugin.upcoming_in(ProcessingState::Render, self.parser@)
    }

    /// The pen at `pos` with the commands and the style of this state.
    pub open spec fn pen_at(&self, pos: Point) -> Pen {
        Pen { commands: commands_view(self.display@), pos, style: self.character_style }
    }

    /// The state before the first line of `text`.
    pub fn new(text: &'a str, style: TextBoxStyle, middleware: M) -> (state: Self)
        ensures
            state.parser@ == text@,
            state.character_style == CharacterStyle::spec_inherited(),
            state.style == style,
            state.plugin.inner() == middleware,
            state.stream() == middleware.upcoming(text@),
            state.display@.len() == 0,
            state.end_type == LineEndType::EndOfText,
            state.plugin.told() == middleware.heard(),
    {
        LineRenderState {
            parser: Parser::parse(text),
            character_style: CharacterStyle::inherited(),
            style,
            end_type: LineEndType::EndOfText,
            plugin: MiddlewareWrapper::new(middleware),
            display: Vec::new(),
        }
    }
}

/// A line as it is drawn: its layout, where it starts, counted from the
/// left edge, the pen behind it, and what the middleware is told of it.
pub struct DrawnLine {
    pub layout: LineLayout,
    pub left: u32,
    pub pen: Pen,
    pub told: Seq<Notification>,
}

/// Draws the line that starts with the first token of `stream`.
///
/// The line is `width` pixels wide and laid out from `position` on. The
/// alignment places the measured line: the pen starts that far to the
/// right of where it stands, and the whitespace is widened as the
/// alignment says.
///
/// The middleware is told where the line starts, then of every text and
/// every whitespace run of the line with its area, and at the end of the
/// text of the place where the text ends.
pub open spec fn draw_line<F: TextMetrics>(
    metrics: &F,
    stream: Seq<TokenView>,
    width: u32,
    tab: u32,
    position: u32,
    alignment: HorizontalAlignment,
    pen: Pen,
) -> Option<DrawnLine> {
    match layout(metrics, stream, width, tab, position as nat, Seq::empty()) {
        None => None,
        Some(line) => {
            let placement = alignment.spec_place_line(measurement_of(line, width, position));
            let start = Pen { pos: pen.pos.spec_right(placement.0 as int), ..pen };
            let shown = stretch(line.elements, placement.1).0;
            let end = draw_elements(start, shown);
            Some(
                DrawnLine {
                    layout: line,
                    left: placement.0,
                    pen: end,
                    told: seq![Notification::LineStart(start.pos)] + reports(
                        spans_of(start, shown, metrics.height()),
                    ) + if line.end == LineEndType::EndOfText {
                        seq![
                            Notification::Rendered(
                                None,
                                Rectangle {
                                    top_left: end.pos,
                                    size: Size { width: 0, height: metrics.height() },
                                },
                            ),
                        ]
                    } else {
                        Seq::empty()
                    },
                },
            )
        },
    }
}

/// The passes agree: the rendering pass lays out the line that the
/// measuring pass has measured. Whatever the alignment and wherever the
/// line is drawn, the line that is drawn holds the elements of the
/// measured line, ends for the same reason and leaves the same tokens for
/// the next line; and there is a line to draw exactly if there is one to
/// measure.
pub proof fn lemma_passes_agree<F: TextMetrics>(
    metrics: &F,
    stream: Seq<TokenView>,
    width: u32,
    tab: u32,
    position: u32,
    alignment: HorizontalAlignment,
    pen: Pen,
)
    ensures
        ({
            let measured = layout(metrics, stream, width, tab, position as nat, Seq::empty());
            let drawn = draw_line(metrics, stream, width, tab, position, alignment, pen);
            &&& drawn is Some <==> measured is Some
            &&& drawn is Some ==> {
                &&& drawn->0.layout.elements == measured->0.elements
                &&& drawn->0.layout.end == measured->0.end
                &&& drawn->0.layout.rest == measured->0.rest
            }
        }),
{
}

/// The pen moves by the widths that it is given: behind any elements it
/// stands to the right of where it started by exactly the sum of their
/// widths, in the same row, as long as that is a place on the display.
pub proof fn lemma_pen_moves_by_widths(pen: Pen, elements: Seq<RenderElement>)
    requires
        total_width(elements) <= i32::MAX,
        pen.pos.x + total_width(elements) <= i32::MAX,
    ensures
        draw_elements(pen, elements).pos == (Point {
            x: (pen.pos.x + total_width(elements)) as i32,
            y: pen.pos.y,
        }),
    decreases elements.len(),
{
    if elements.len() > 0 {
        lemma_pen_moves_by_widths(pen, elements.drop_last());
    }
}

/// A justified line ends at the right edge: on a justified line with
/// whitespace runs the pen, which starts at the left edge of the line,
/// stands behind the last element exactly the line's width to the right.
/// Every run has moved it by the run's own width and its share of the free
/// width, so that nothing of the free width is lost or given twice.
pub proof fn lemma_justified_pen_reaches_the_edge<F: TextMetrics>(
    metrics: &F,
    stream: Seq<TokenView>,
    width: u32,
    tab: u32,
    pen: Pen,
)
    requires
        line_of(metrics, stream, width, tab) matches Some(line) && 0 < count_runs(line.elements)
            <= u32::MAX,
        width <= i32::MAX,
        pen.pos.x + width <= i32::MAX,
    ensures
        draw_line(metrics, stream, width, tab, 0, HorizontalAlignment::Justified, pen) matches Some(
            drawn,
        ) && drawn.left == 0 && drawn.pen.pos == (Point {
            x: (pen.pos.x + width) as i32,
            y: pen.pos.y,
        }),
{
    let line = line_of(metrics, stream, width, tab)->0;
    lemma_justified_layout_is_full(metrics, stream, width, tab);
    let placement = HorizontalAlignment::Justified.spec_place_line(measurement_of(line, width, 0));
    let start = Pen { pos: pen.pos.spec_right(0), ..pen };
    lemma_pen_moves_by_widths(start, stretch(line.elements, placement.1).0);
}

/// The first word is drawn: where a line starts with a word that is wider
/// than the line and there is a line at all, the line is full, the start
/// of the word that fits is on it, which is at least one element, and
/// less of the text is left than before.
pub proof fn lemma_first_word_is_drawn<F: TextMetrics>(
    metrics: &F,
    word: Seq<char>,
    rest: Seq<TokenView>,
    width: u32,
    tab: u32,
    alignment: HorizontalAlignment,
    pen: Pen,
)
    requires
        word_width(metrics, word) > width,
    ensures
        draw_line(metrics, seq![TokenView::Word(word)] + rest, width, tab, 0, alignment, pen)
            matches Some(drawn) ==> {
            &&& drawn.layout.end == LineEndType::LineBreak
            &&& drawn.layout.elements.len() > 0
            &&& drawn.layout.elements == word_elements(
                metrics,
                word.take(fitting_prefix(metrics, word, width as nat, 0)),
            )
            &&& stream_weight(drawn.layout.rest) < stream_weight(
                seq![TokenView::Word(word)] + rest,
            )
        },
{
    lemma_first_word_is_placed(metrics, word, rest, width, tab);
    lemma_line_progress(
        metrics,
        seq![TokenView::Word(word)] + rest,
        width,
        tab,
        0,
        Seq::empty(),
    );
}

/// Renders a single line of styled text.
pub struct StyledLineRenderer<'a, M> {
    /// Where the line stands and how wide it is.
    pub cursor: LineCursor,
    /// What the lines before have left.
    pub state: LineRenderState<'a, M>,
}

impl<'a, M: Middleware<'a>> StyledLineRenderer<'a, M> {
    /// Creates a new line renderer.
    pub fn new(cursor: LineCursor, state: LineRenderState<'a, M>) -> (r: Self)
        ensures
            r.cursor == cursor,
            r.state == state,
    {
        Self { cursor, state }
    }

    /// Renders the line and hands back the state for the next line.
    ///
    /// The line is measured on copies of the parser and the middleware,
    /// placed by the alignment, and then laid out again: its commands
    /// are added to the display, and the tokens that it takes are taken
    /// from the parser and the middleware. Both passes lay out the same
    /// line. The middleware is told where the line starts, and at the end
    /// of the text where the text ends. It is asked for tokens by the hook
    /// of the rendering pass alone: the measuring pass asks a copy.
    ///
    /// There is no line where a character is wider than the line.
    pub fn draw<F: TextMetrics>(self, metrics: &F) -> (r: Result<
        LineRenderState<'a, M>,
        LayoutInvariantViolation,
    >)
        ensures
            ({
                let line = draw_line(
                    metrics,
                    self.state.stream(),
                    self.cursor.spec_width(),
                    self.cursor.spec_tab_width(),
                    self.cursor.spec_position(),
                    self.state.style.alignment,
                    self.state.pen_at(
                        self.cursor.spec_start().spec_right(self.cursor.spec_position() as int),
                    ),
                );
                match r {
                    Ok(next) => {
                        &&& line is Some
                        &&& next.end_type == line->0.layout.end
                        &&& next.stream() == line->0.layout.rest
                        &&& commands_view(next.display@) == line->0.pen.commands
                        &&& next.character_style == line->0.pen.style
                        &&& next.style == self.state.style
                        &&& next.plugin.spec_state() == ProcessingState::Render
                        &&& next.plugin.told() == self.state.plugin.told() + line->0.told
                        &&& asked_in_pass(
                            self.state.plugin.asked(),
                            next.plugin.asked(),
                            ProcessingState::Render,
                        )
                    },
                    Err(_) => line is None,
                }
            }),
    {
        let StyledLineRenderer { cursor, state } = self;
        let ghost stream = state.stream();
        let LineRenderState { mut parser, character_style, style, end_type: _, mut plugin, display } =
            state;
        let ghost whole = layout(
            metrics,
            stream,
            cursor.spec_width(),
            cursor.spec_tab_width(),
            cursor.spec_position() as nat,
            Seq::empty(),
        );
        let lm = {
            let mut cloned_parser = parser;
            let mut measure_plugin = plugin.measure_copy();
            measure_from(cursor, &mut measure_plugin, metrics, &mut cloned_parser)
        };
        let lm = match lm {
            Ok(lm) => lm,
            Err(violation) => {
                return Err(violation);
            },
        };
        let (left, space_config) = style.alignment.place_line(lm);
        plugin.set_state(ProcessingState::Render);
        let start = cursor.pos().right(left);
        plugin.post_line_start(start);
        assert(plugin.upcoming(parser@) == stream);
        let line_height: u32 = metrics.line_height();
        let mut handler = RenderElementHandler::new(display, start, character_style, line_height);
        let ghost fresh = handler;
        let mut line = LineElementParser::new(cursor, space_config);
        let end_type = match LineElementParser::process(
            &mut line,
            &mut parser,
            &mut plugin,
            metrics,
            &mut handler,
        ) {
            Ok(end_type) => end_type,
            Err(LineError::Layout(violation)) => {
                return Err(violation);
            },
            Err(LineError::Handler(_)) => {
                proof {
                    assert(false);
                }
                return Err(LayoutInvariantViolation {  });
            },
        };
        assert(handler.received() =~= stretch(whole->0.elements, space_config).0);
        assert(plugin.upcoming(parser@) == whole->0.rest);
        if end_type == LineEndType::EndOfText {
            plugin.post_render(
                None,
                Some(Rectangle::new(handler.pos, Size::new(0, line_height))),
            );
        }
        assert(plugin.upcoming(parser@) == whole->0.rest);
        assert(handler.follows(&fresh));
        let RenderElementHandler {
            display,
            pos: _,
            style: character_style,
            line_height: _,
            trace: _,
            spans: _,
            origin: _,
        } = handler;
        Ok(LineRenderState { parser, character_style, style, end_type, plugin, display })
    }
}

} // verus!
