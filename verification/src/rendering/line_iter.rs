//! Breaks a stream of tokens into one line of render elements.

use crate::geometry::Rectangle;
use crate::metrics::TextMetrics;
use crate::middleware::asked_in_pass;
use crate::middleware::lemma_asked_on;
use crate::middleware::lemma_not_asked;
use crate::middleware::Middleware;
use crate::middleware::MiddlewareWrapper;
use crate::middleware::Notification;
use crate::parser::ChangeTextStyle;
use crate::parser::Parser;
use crate::parser::Token;
use crate::parser::TokenView;
use crate::rendering::cursor::LineCursor;
use crate::rendering::space_config::SpaceConfig;
use crate::rendering::line_laws::lemma_layout_extends;
use crate::rendering::line_laws::lemma_stretch_keeps_elements;
use crate::rendering::line_laws::lemma_stretch_take;
use crate::rendering::word::emit_word;
use crate::rendering::word::fit_spaces;
use crate::rendering::word::fitting_prefix;
use crate::rendering::word::fitting_spaces;
use crate::rendering::word::lemma_spaces_width_grows;
use crate::rendering::word::lemma_word_elements;
use crate::rendering::word::longest_fitting_prefix;
use crate::rendering::word::run_width;
use crate::rendering::word::word_elements;
use crate::rendering::word::word_fits;
use crate::rendering::word::word_width;
use vstd::prelude::*;
use vstd::string::*;

verus! {

/// The smallest unit of a laid out line.
///
/// This is a mathematical value; a handler gets the same fields as
/// arguments of its methods.
pub enum RenderElement {
    /// Characters to print, and their width.
    PrintedCharacters(Seq<char>, u32),
    /// A whitespace run: its text, the number of its characters and the
    /// width that it takes on the line.
    Whitespace(Seq<char>, u32, u32),
    /// A change of the text style. It takes no width.
    StyleChange(ChangeTextStyle),
}

/// A text that was drawn, and the area that it was drawn in.
pub type Span = (Seq<char>, Rectangle);

/// Takes the elements of a line, in order, as they are laid out.
///
/// `received` is the record of what a handler has taken so far; every
/// accepted element is added to it. A handler that draws an element
/// answers with the area that the element takes on the display, and
/// `drawn` is the record of those answers. A handler that refuses an
/// element has not taken it.
///
/// The specification functions have bodies so that an implementor which
/// Verus does not check can leave them out. Those bodies say nothing true
/// of such an implementor: with them it could not meet the contracts of
/// the methods, which add to the records. Nothing holds such an
/// implementor to the contracts, and what is proved of the layout is
/// proved of handlers that meet them.
pub trait ElementHandler<'a>: Sized {
    /// What goes wrong when an element cannot be taken.
    type Error;

    /// The elements that this handler has taken so far.
    open spec fn received(&self) -> Seq<RenderElement> {
        Seq::empty()
    }

    /// The texts that this handler has drawn so far, with their areas.
    open spec fn drawn(&self) -> Seq<Span> {
        Seq::empty()
    }

    /// Whether handlers of this type ever refuse an element.
    open spec fn can_fail() -> bool {
        true
    }

    /// What a handler keeps true of itself while it takes elements:
    /// whether it stands as a handler does that was started as `start` and
    /// has taken elements since.
    open spec fn follows(&self, start: &Self) -> bool {
        true
    }

    /// A whitespace run of the given width.
    fn whitespace(&mut self, text: &'a str, space_count: u32, width: u32) -> (r: Result<
        Option<Rectangle>,
        Self::Error,
    >)
        ensures
            r is Ok ==> final(self).received() == old(self).received().push(
                RenderElement::Whitespace(text@, space_count, width),
            ),
            r is Err ==> final(self).received() == old(self).received(),
            r is Ok ==> final(self).drawn() == with_span(old(self).drawn(), text@, r->Ok_0),
            !Self::can_fail() ==> r is Ok,
            forall|start: Self| old(self).follows(&start) ==> #[trigger] final(self).follows(&start),
    ;

    /// Characters to print, of the given width.
    fn printed_characters(&mut self, text: &'a str, width: u32) -> (r: Result<
        Option<Rectangle>,
        Self::Error,
    >)
        ensures
            r is Ok ==> final(self).received() == old(self).received().push(
                RenderElement::PrintedCharacters(text@, width),
            ),
            r is Err ==> final(self).received() == old(self).received(),
            r is Ok ==> final(self).drawn() == with_span(old(self).drawn(), text@, r->Ok_0),
            !Self::can_fail() ==> r is Ok,
            forall|start: Self| old(self).follows(&start) ==> #[trigger] final(self).follows(&start),
    ;

    /// A change of the text style.
    fn change_text_style(&mut self, change: ChangeTextStyle) -> (r: Result<(), Self::Error>)
        ensures
            r is Ok ==> final(self).received() == old(self).received().push(
                RenderElement::StyleChange(change),
            ),
            r is Err ==> final(self).received() == old(self).received(),
            r is Ok ==> final(self).drawn() == old(self).drawn(),
            !Self::can_fail() ==> r is Ok,
            forall|start: Self| old(self).follows(&start) ==> #[trigger] final(self).follows(&start),
    ;
}

/// Whether a handler's record has grown from `before` to `after` by a
/// start of `elements`: by the first of them, in order, up to some point.
pub open spec fn grown_by_start(
    before: Seq<RenderElement>,
    after: Seq<RenderElement>,
    elements: Seq<RenderElement>,
) -> bool {
    exists|k: int| 0 <= k <= elements.len() && after == before + #[trigger] elements.take(k)
}

/// A record that holds, with something behind it, what an earlier record
/// holds with `elements` behind it, has grown by a start of `elements`.
pub proof fn lemma_grown_by_start(
    before: Seq<RenderElement>,
    after: Seq<RenderElement>,
    elements: Seq<RenderElement>,
    rest: Seq<RenderElement>,
)
    requires
        before + elements == after + rest,
        before.len() <= after.len(),
    ensures
        grown_by_start(before, after, elements),
{
    let k = after.len() - before.len();
    let whole = before + elements;
    let other = after + rest;
    assert(whole.len() == other.len());
    assert(0 <= k <= elements.len());
    let start = before + elements.take(k);
    assert(start.len() == after.len());
    assert forall|i: int| 0 <= i < after.len() implies after[i] == start[i] by {
        assert(other[i] == after[i]);
        assert(whole[i] == other[i]);
        if i < before.len() {
            assert(start[i] == before[i]);
            assert(whole[i] == before[i]);
        } else {
            assert(start[i] == elements.take(k)[i - before.len()]);
            assert(whole[i] == elements[i - before.len()]);
        }
    }
    assert(after =~= start);
}

/// The record of what was drawn, with one more text if it was drawn.
pub open spec fn with_span(drawn: Seq<Span>, text: Seq<char>, area: Option<Rectangle>) -> Seq<Span> {
    match area {
        Some(bounds) => drawn.push((text, bounds)),
        None => drawn,
    }
}

/// What a middleware is told of texts that were drawn: of each that it
/// was drawn, in order.
pub open spec fn reports(spans: Seq<Span>) -> Seq<Notification> {
    spans.map_values(|span: Span| Notification::Rendered(Some(span.0), span.1))
}

/// Whether the middleware was told of what the handler has drawn between
/// two moments, and of nothing else: the handler's record has grown from
/// `drawn_before` to `drawn_after`, and what the middleware has been
/// told has grown from `told_before` to `told_after` by what was added
/// to the handler's record.
pub open spec fn told_what_was_drawn(
    told_before: Seq<Notification>,
    told_after: Seq<Notification>,
    drawn_before: Seq<Span>,
    drawn_after: Seq<Span>,
) -> bool {
    &&& drawn_before.len() <= drawn_after.len()
    &&& drawn_after.take(drawn_before.len() as int) == drawn_before
    &&& told_after == told_before + reports(drawn_after.skip(drawn_before.len() as int))
}

/// Nothing drawn and nothing told keeps the middleware told of what was
/// drawn.
pub proof fn lemma_told_nothing(told: Seq<Notification>, drawn: Seq<Span>)
    ensures
        told_what_was_drawn(told, told, drawn, drawn),
{
    assert(drawn.take(drawn.len() as int) =~= drawn);
    assert(told + reports(drawn.skip(drawn.len() as int)) =~= told);
}

/// Telling the middleware of one more text that was drawn keeps it told
/// of what was drawn.
pub proof fn lemma_told_one_more(
    told_before: Seq<Notification>,
    told: Seq<Notification>,
    drawn_before: Seq<Span>,
    drawn: Seq<Span>,
    text: Seq<char>,
    area: Option<Rectangle>,
)
    requires
        told_what_was_drawn(told_before, told, drawn_before, drawn),
    ensures
        told_what_was_drawn(
            told_before,
            match area {
                Some(bounds) => told.push(Notification::Rendered(Some(text), bounds)),
                None => told,
            },
            drawn_before,
            with_span(drawn, text, area),
        ),
{
    match area {
        Some(bounds) => {
            let more = drawn.push((text, bounds));
            let n = drawn_before.len() as int;
            assert(more.take(n) =~= drawn.take(n));
            assert(more.skip(n) =~= drawn.skip(n).push((text, bounds)));
            assert(reports(more.skip(n)) =~= reports(drawn.skip(n)).push(
                Notification::Rendered(Some(text), bounds),
            ));
            assert(told.push(Notification::Rendered(Some(text), bounds)) =~= told_before + reports(
                more.skip(n),
            ));
        },
        None => {},
    }
}

/// A middleware that was told of what was drawn up to some moment, and
/// from then on, was told of what was drawn all along.
pub proof fn lemma_told_on(
    told_before: Seq<Notification>,
    told_between: Seq<Notification>,
    told_after: Seq<Notification>,
    drawn_before: Seq<Span>,
    drawn_between: Seq<Span>,
    drawn_after: Seq<Span>,
)
    requires
        told_what_was_drawn(told_before, told_between, drawn_before, drawn_between),
        told_what_was_drawn(told_between, told_after, drawn_between, drawn_after),
    ensures
        told_what_was_drawn(told_before, told_after, drawn_before, drawn_after),
{
    let a = drawn_before.len() as int;
    let b = drawn_between.len() as int;
    assert(drawn_after.take(a) =~= drawn_after.take(b).take(a));
    assert(drawn_after.skip(a) =~= drawn_between.skip(a) + drawn_after.skip(b));
    assert(reports(drawn_after.skip(a)) =~= reports(drawn_between.skip(a)) + reports(
        drawn_after.skip(b),
    ));
    assert(told_after =~= told_before + reports(drawn_after.skip(a)));
}

/// Why a line ended.
#[derive(Clone, Copy, Debug, PartialEq, Eq, Structural)]
pub enum LineEndType {
    /// Nothing is left of the text.
    EndOfText,
    /// A break token ended the line.
    NewLine,
    /// The line is full: the next word did not fit.
    LineBreak,
    /// There is no room for another line.
    OutOfVerticalSpace,
}

/// The layout cannot go on: a single character is wider than the whole
/// line.
#[derive(Clone, Copy, Debug, PartialEq, Eq, Structural)]
pub struct LayoutInvariantViolation {}

/// Why a line could not be laid out.
#[derive(Debug)]
pub enum LineError<E> {
    /// The handler refused an element. Its error is passed on unchanged.
    Handler(E),
    /// The text cannot be laid out in the given width.
    Layout(LayoutInvariantViolation),
}

/// One laid out line: its elements, why it ended, and the tokens that are
/// left for the lines after it.
pub struct LineLayout {
    pub elements: Seq<RenderElement>,
    pub end: LineEndType,
    pub rest: Seq<TokenView>,
}

/// What follows a whitespace run, style changes aside.
pub enum Lookahead {
    /// A word.
    Word(Seq<char>),
    /// Another whitespace run.
    Space,
    /// A break, or the end of the text.
    End,
}

/// The first token of `stream` that is no style change, seen as what it
/// means for the whitespace before it.
pub open spec fn next_solid(stream: Seq<TokenView>) -> Lookahead
    decreases stream.len(),
{
    if stream.len() == 0 {
        Lookahead::End
    } else {
        match stream[0] {
            TokenView::ChangeTextStyle(_) => next_solid(stream.drop_first()),
            TokenView::Word(w) => Lookahead::Word(w),
            TokenView::Whitespace(_, _) => Lookahead::Space,
            TokenView::Break(_) => Lookahead::End,
        }
    }
}

/// The width that has to be free behind a whitespace run for the run to
/// be placed: that of the word that follows it. Whitespace before a break
/// or at the end of the text is never placed.
pub open spec fn following_width<F: TextMetrics>(metrics: &F, rest: Seq<TokenView>) -> Option<nat> {
    match next_solid(rest) {
        Lookahead::Word(w) => Some(word_width(metrics, w)),
        Lookahead::Space => Some(0nat),
        Lookahead::End => None,
    }
}

/// How the text of a break is shown: as printed characters if it fits
/// into `space`, else not at all.
pub open spec fn hyphen_elements<F: TextMetrics>(
    metrics: &F,
    hyphen: Option<Seq<char>>,
    space: nat,
) -> Seq<RenderElement> {
    match hyphen {
        Some(h) => if metrics.width_of(h) <= space {
            seq![RenderElement::PrintedCharacters(h, metrics.width_of(h))]
        } else {
            Seq::empty()
        },
        None => Seq::empty(),
    }
}

/// The number of characters of a whitespace run that stay on a line
/// which is full: those that still fit into `space`, and at least one.
pub open spec fn eaten<F: TextMetrics>(metrics: &F, run: Seq<char>, tab: u32, space: nat) -> int {
    let fit = fitting_spaces(metrics, run, tab, space, 0);
    if fit <= 0 {
        1
    } else {
        fit
    }
}

/// The rest of a whitespace run of which the first `k` characters stay
/// on the line that is full.
pub open spec fn carried(count: u32, run: Seq<char>, k: int) -> TokenView {
    TokenView::Whitespace(
        if count >= k {
            (count - k) as u32
        } else {
            0
        },
        run.skip(k),
    )
}

/// Lays out one line.
///
/// `stream` holds the tokens that are still to be placed, `used` is the
/// width that is taken on the line, `placed` holds the elements that are
/// on it already. The widths of whitespace are the runs' own widths; what
/// an alignment adds to them plays no part in what goes on the line.
///
/// - A style change is passed on and takes no width.
/// - A break ends the line. Its text is shown if it fits.
/// - A word is placed if it fits. If it does not, the line is full;
///   unless nothing on the line takes any width yet, in which case the
///   longest start of the word that fits is placed and the rest of the
///   word is left for the next line. If not even one character fits,
///   there is no layout.
/// - A whitespace run is placed if it fits together with the word behind
///   it. Before a break and at the end of the text it is left out. If it
///   does not fit, it is left out where nothing on the line takes any
///   width yet; otherwise the line is full: the characters of the run that
///   still fit, and at least one, stay on this line, unseen, and the
///   others are left for the next line.
pub open spec fn layout<F: TextMetrics>(
    metrics: &F,
    stream: Seq<TokenView>,
    width: u32,
    tab: u32,
    used: nat,
    placed: Seq<RenderElement>,
) -> Option<LineLayout>
    decreases stream.len(),
{
    if stream.len() == 0 {
        Some(LineLayout { elements: placed, end: LineEndType::EndOfText, rest: stream })
    } else {
        let rest = stream.drop_first();
        match stream[0] {
            TokenView::ChangeTextStyle(c) => layout(
                metrics,
                rest,
                width,
                tab,
                used,
                placed.push(RenderElement::StyleChange(c)),
            ),
            TokenView::Break(h) => Some(
                LineLayout {
                    elements: placed + hyphen_elements(metrics, h, (width - used) as nat),
                    end: LineEndType::NewLine,
                    rest,
                },
            ),
            TokenView::Word(w) => {
                let word = word_width(metrics, w);
                if used + word <= width {
                    layout(metrics, rest, width, tab, used + word, placed + word_elements(metrics, w))
                } else if used > 0 {
                    Some(LineLayout { elements: placed, end: LineEndType::LineBreak, rest: stream })
                } else {
                    let k = fitting_prefix(metrics, w, width as nat, 0);
                    if k <= 0 {
                        None
                    } else {
                        Some(
                            LineLayout {
                                elements: placed + word_elements(metrics, w.take(k)),
                                end: LineEndType::LineBreak,
                                rest: seq![TokenView::Word(w.skip(k))] + rest,
                            },
                        )
                    }
                }
            },
            TokenView::Whitespace(n, run) => {
                let space = run_width(metrics, run, tab);
                match following_width(metrics, rest) {
                    None => layout(metrics, rest, width, tab, used, placed),
                    Some(word) => if used + space + word <= width {
                        layout(
                            metrics,
                            rest,
                            width,
                            tab,
                            used + space,
                            placed.push(RenderElement::Whitespace(run, n, space as u32)),
                        )
                    } else if used == 0 {
                        layout(metrics, rest, width, tab, used, placed)
                    } else {
                        let k = eaten(metrics, run, tab, (width - used) as nat);
                        Some(
                            LineLayout {
                                elements: placed,
                                end: LineEndType::LineBreak,
                                rest: if k >= run.len() {
                                    rest
                                } else {
                                    seq![carried(n, run, k)] + rest
                                },
                            },
                        )
                    },
                }
            },
        }
    }
}

/// The line that starts with the first token of `stream`.
pub open spec fn line_of<F: TextMetrics>(
    metrics: &F,
    stream: Seq<TokenView>,
    width: u32,
    tab: u32,
) -> Option<LineLayout> {
    layout(metrics, stream, width, tab, 0, Seq::empty())
}

/// The width of an element.
pub open spec fn element_width(element: RenderElement) -> nat {
    match element {
        RenderElement::PrintedCharacters(_, w) => w as nat,
        RenderElement::Whitespace(_, _, w) => w as nat,
        RenderElement::StyleChange(_) => 0,
    }
}

/// The width of all elements together.
pub open spec fn total_width(elements: Seq<RenderElement>) -> nat
    decreases elements.len(),
{
    if elements.len() == 0 {
        0
    } else {
        total_width(elements.drop_last()) + element_width(elements.last())
    }
}

/// The number of whitespace runs among the elements.
pub open spec fn count_runs(elements: Seq<RenderElement>) -> nat
    decreases elements.len(),
{
    if elements.len() == 0 {
        0
    } else {
        count_runs(elements.drop_last()) + if elements.last() is Whitespace {
            1nat
        } else {
            0nat
        }
    }
}

/// A width with extra pixels added, at most `u32::MAX`.
pub open spec fn widen(width: u32, bonus: u32) -> u32 {
    if width + bonus <= u32::MAX {
        (width + bonus) as u32
    } else {
        u32::MAX
    }
}

/// The elements as an alignment shows them: every whitespace run is
/// widened by its share of the free width, in the order of the runs. With
/// them comes the configuration as it is after the last run.
pub open spec fn stretch(elements: Seq<RenderElement>, spaces: SpaceConfig) -> (
    Seq<RenderElement>,
    SpaceConfig,
)
    decreases elements.len(),
{
    if elements.len() == 0 {
        (Seq::empty(), spaces)
    } else {
        let before = stretch(elements.drop_last(), spaces);
        match elements.last() {
            RenderElement::Whitespace(text, count, width) => (
                before.0.push(
                    RenderElement::Whitespace(text, count, widen(width, before.1.bonus())),
                ),
                before.1.rest(),
            ),
            other => (before.0.push(other), before.1),
        }
    }
}

/// Whether all elements are printed characters.
pub open spec fn printed_only(elements: Seq<RenderElement>) -> bool {
    forall|i: int| 0 <= i < elements.len() ==> (#[trigger] elements[i]) is PrintedCharacters
}

/// Widths and run counts add up over elements that stand one after the
/// other.
pub proof fn lemma_concat(a: Seq<RenderElement>, b: Seq<RenderElement>)
    ensures
        total_width(a + b) == total_width(a) + total_width(b),
        count_runs(a + b) == count_runs(a) + count_runs(b),
        printed_only(a) && printed_only(b) ==> printed_only(a + b),
    decreases b.len(),
{
    if b.len() == 0 {
        assert(a + b =~= a);
    } else {
        assert((a + b).drop_last() =~= a + b.drop_last());
        lemma_concat(a, b.drop_last());
    }
}

/// Printed characters at the end of a line are shown as they are, and
/// leave the spacing as it was.
pub proof fn lemma_stretch_printed(a: Seq<RenderElement>, b: Seq<RenderElement>, spaces: SpaceConfig)
    requires
        printed_only(b),
    ensures
        stretch(a + b, spaces) == (stretch(a, spaces).0 + b, stretch(a, spaces).1),
    decreases b.len(),
{
    if b.len() == 0 {
        assert(a + b =~= a);
        assert(stretch(a, spaces).0 + b =~= stretch(a, spaces).0);
    } else {
        assert((a + b).drop_last() =~= a + b.drop_last());
        assert(b.last() is PrintedCharacters);
        lemma_stretch_printed(a, b.drop_last(), spaces);
        assert(stretch(a, spaces).0 + b =~= (stretch(a, spaces).0 + b.drop_last()).push(b.last()));
    }
}

/// What stands behind a whitespace run, as far as the run's place on the
/// line depends on it.
enum Following {
    /// A break or the end of the text.
    End,
    /// Something that fits behind the run.
    Fits,
    /// Something that does not fit behind the run, or the run itself does
    /// not fit.
    TooWide,
}

/// Lays out one line: takes tokens from the middleware and hands the
/// elements of the line to a handler.
pub struct LineElementParser {
    /// The position on the line.
    pub cursor: LineCursor,
    /// What the whitespace runs get on top of their own width.
    pub spaces: SpaceConfig,
}

impl LineElementParser {
    pub fn new(cursor: LineCursor, spaces: SpaceConfig) -> (r: Self)
        ensures
            r.cursor == cursor,
            r.spaces == spaces,
    {
        LineElementParser { cursor, spaces }
    }

    /// Looks behind the whitespace run that waits in the slot, on copies
    /// of the parser and the middleware: whether the text goes on behind
    /// it, and if so, whether what follows fits into `budget`. Without a
    /// budget nothing fits.
    fn look_ahead<'a, M: Middleware<'a>, F: TextMetrics>(
        parser: &Parser<'a>,
        plugin: &MiddlewareWrapper<'a, M>,
        metrics: &F,
        budget: Option<u32>,
    ) -> (r: Following)
        requires
            plugin.slot() is Some,
        ensures
            match following_width(metrics, plugin.upcoming(parser@).drop_first()) {
                None => r is End,
                Some(w) => if budget is Some && w <= budget->0 {
                    r is Fits
                } else {
                    r is TooWide
                },
            },
    {
        let ghost rest = plugin.upcoming(parser@).drop_first();
        let mut ahead = plugin.duplicate();
        let mut ahead_parser = *parser;
        ahead.consume_peeked_token();
        assert(ahead.upcoming(ahead_parser@) =~= rest);
        loop
            invariant
                rest == plugin.upcoming(parser@).drop_first(),
                next_solid(ahead.upcoming(ahead_parser@)) == next_solid(rest),
            decreases ahead.upcoming(ahead_parser@).len(),
        {
            let ghost stream = ahead.upcoming(ahead_parser@);
            match ahead.peek_token(&mut ahead_parser) {
                None => {
                    return Following::End;
                },
                Some(Token::ChangeTextStyle(_)) => {
                    ahead.consume_peeked_token();
                    assert(ahead.upcoming(ahead_parser@) =~= stream.drop_first());
                },
                Some(Token::Word(w)) => {
                    return match budget {
                        Some(b) => match word_fits(metrics, w, b) {
                            Some(_) => Following::Fits,
                            None => Following::TooWide,
                        },
                        None => Following::TooWide,
                    };
                },
                Some(Token::Whitespace(_, _)) => {
                    return if budget.is_some() {
                        Following::Fits
                    } else {
                        Following::TooWide
                    };
                },
                Some(Token::Break(_)) => {
                    return Following::End;
                },
            }
        }
    }

    /// Whether this line stands as `placed` says: the cursor is behind
    /// the placed elements, the handler has taken them as they are shown,
    /// and the spacing is what is left after them. `first` is where the
    /// line was started, `spaces` the spacing that it was started with,
    /// and `taken` what the handler held before.
    spec fn stands<'a, H: ElementHandler<'a>>(
        &self,
        handler: &H,
        placed: Seq<RenderElement>,
        first: u32,
        spaces: SpaceConfig,
        taken: Seq<RenderElement>,
    ) -> bool {
        &&& self.cursor.spec_position() == first + total_width(placed)
        &&& handler.received() == taken + stretch(placed, spaces).0
        &&& self.spaces == stretch(placed, spaces).1
    }

    /// The layout of the line from where it stands.
    spec fn line<'a, M: Middleware<'a>, F: TextMetrics>(
        &self,
        metrics: &F,
        parser: &Parser<'a>,
        plugin: &MiddlewareWrapper<'a, M>,
        placed: Seq<RenderElement>,
    ) -> Option<LineLayout> {
        layout(
            metrics,
            plugin.upcoming(parser@),
            self.cursor.spec_width(),
            self.cursor.spec_tab_width(),
            self.cursor.spec_position() as nat,
            placed,
        )
    }

    /// Whether a handler that has refused an element has taken a start of
    /// the line's elements, as they are shown.
    spec fn stopped(
        line: Option<LineLayout>,
        taken: Seq<RenderElement>,
        received: Seq<RenderElement>,
        spaces: SpaceConfig,
    ) -> bool {
        line is Some ==> grown_by_start(taken, received, stretch(line->0.elements, spaces).0)
    }

    /// A handler that holds a start of a line's elements, as they are
    /// shown, has taken a start of the line's elements.
    proof fn lemma_stopped(
        line: Option<LineLayout>,
        start: Seq<RenderElement>,
        taken: Seq<RenderElement>,
        received: Seq<RenderElement>,
        spaces: SpaceConfig,
    )
        requires
            line is Some ==> start.len() <= line->0.elements.len() && line->0.elements.take(
                start.len() as int,
            ) == start,
            received == taken + stretch(start, spaces).0,
        ensures
            Self::stopped(line, taken, received, spaces),
    {
        if line is Some {
            let elements = line->0.elements;
            lemma_stretch_take(elements, spaces, start.len() as int);
            lemma_stretch_keeps_elements(elements, spaces);
            assert(received == taken + stretch(elements, spaces).0.take(start.len() as int));
        }
    }

    /// A handler that has refused a part of a word, behind what was on
    /// the line before, has taken a start of the line's elements.
    proof fn lemma_stopped_in_word(
        line: Option<LineLayout>,
        placed: Seq<RenderElement>,
        shown: Seq<RenderElement>,
        taken: Seq<RenderElement>,
        received: Seq<RenderElement>,
        spaces: SpaceConfig,
    )
        requires
            printed_only(shown),
            line is Some ==> (placed + shown).len() <= line->0.elements.len()
                && line->0.elements.take((placed + shown).len() as int) == placed + shown,
            grown_by_start(taken + stretch(placed, spaces).0, received, shown),
        ensures
            Self::stopped(line, taken, received, spaces),
    {
        let k = choose|k: int|
            0 <= k <= shown.len() && received == taken + stretch(placed, spaces).0
                + #[trigger] shown.take(k);
        let part = shown.take(k);
        lemma_stretch_printed(placed, part, spaces);
        assert(received =~= taken + stretch(placed + part, spaces).0);
        if line is Some {
            let elements = line->0.elements;
            assert(elements.take((placed + part).len() as int) =~= (placed + shown).take(
                (placed + part).len() as int,
            ));
            assert((placed + shown).take((placed + part).len() as int) =~= placed + part);
        }
        Self::lemma_stopped(line, placed + part, taken, received, spaces);
    }

    /// Whether taking one token has brought the line from `before` to
    /// `after` as [`layout`] says: either the line goes on from where it
    /// stands now, or it has ended.
    spec fn advanced(
        before: Option<LineLayout>,
        after: Option<LineLayout>,
        step: Step,
        rest: Seq<TokenView>,
    ) -> bool {
        match step.end {
            None => before == after,
            Some(end) => before == Some(LineLayout { elements: step.placed@, end, rest }),
        }
    }

    /// Passes a style change on.
    fn style_change<'a, M: Middleware<'a>, F: TextMetrics, H: ElementHandler<'a>>(
        &mut self,
        parser: &Parser<'a>,
        plugin: &mut MiddlewareWrapper<'a, M>,
        metrics: &F,
        handler: &mut H,
        change: ChangeTextStyle,
        Ghost(placed): Ghost<Seq<RenderElement>>,
        Ghost(first): Ghost<u32>,
        Ghost(spaces): Ghost<SpaceConfig>,
        Ghost(taken): Ghost<Seq<RenderElement>>,
    ) -> (r: Result<Step, LineError<H::Error>>)
        requires
            old(plugin).slot() == Some(TokenView::ChangeTextStyle(change)),
            old(self).stands(old(handler), placed, first, spaces, taken),
        ensures
            final(plugin).spec_state() == old(plugin).spec_state(),
            final(plugin).asked() == old(plugin).asked(),
            forall|start: H| old(handler).follows(&start) ==> #[trigger] final(handler).follows(&start),
            r is Ok ==> told_what_was_drawn(
                old(plugin).told(),
                final(plugin).told(),
                old(handler).drawn(),
                final(handler).drawn(),
            ),
            final(self).cursor.spec_width() == old(self).cursor.spec_width(),
            final(self).cursor.spec_start() == old(self).cursor.spec_start(),
            final(self).cursor.spec_tab_width() == old(self).cursor.spec_tab_width(),
            match r {
                Ok(step) => {
                    &&& final(self).stands(final(handler), step.placed@, first, spaces, taken)
                    &&& Self::advanced(
                        old(self).line(metrics, parser, old(plugin), placed),
                        final(self).line(metrics, parser, final(plugin), step.placed@),
                        step,
                        final(plugin).upcoming(parser@),
                    )
                    &&& step.end is None ==> final(plugin).upcoming(parser@).len() < old(
                        plugin,
                    ).upcoming(parser@).len()
                },
                Err(LineError::Layout(_)) => old(self).line(metrics, parser, old(plugin), placed)
                    is None,
                Err(LineError::Handler(_)) => H::can_fail() && Self::stopped(
                    old(self).line(metrics, parser, old(plugin), placed),
                    taken,
                    final(handler).received(),
                    spaces,
                ),
            },
    {
        let ghost stream = plugin.upcoming(parser@);
        let ghost line = self.line(metrics, parser, plugin, placed);
        match handler.change_text_style(change) {
            Ok(()) => {},
            Err(e) => {
                proof {
                    lemma_layout_extends(
                        metrics,
                        stream,
                        self.cursor.spec_width(),
                        self.cursor.spec_tab_width(),
                        self.cursor.spec_position() as nat,
                        placed,
                    );
                    Self::lemma_stopped(line, placed, taken, handler.received(), spaces);
                }
                return Err(LineError::Handler(e));
            },
        }
        plugin.consume_peeked_token();
        proof {
            lemma_told_nothing(plugin.told(), handler.drawn());
        }
        let ghost after = placed.push(RenderElement::StyleChange(change));
        proof {
            assert(after.drop_last() =~= placed);
            assert(plugin.upcoming(parser@) =~= stream.drop_first());
            assert(handler.received() =~= taken + stretch(after, spaces).0);
        }
        Ok(Step { end: None, placed: Ghost(after) })
    }

    /// Ends the line at a break, and shows the text of the break if it
    /// fits.
    fn line_break<'a, M: Middleware<'a>, F: TextMetrics, H: ElementHandler<'a>>(
        &mut self,
        parser: &Parser<'a>,
        plugin: &mut MiddlewareWrapper<'a, M>,
        metrics: &F,
        handler: &mut H,
        hyphen: Option<&'a str>,
        Ghost(placed): Ghost<Seq<RenderElement>>,
        Ghost(first): Ghost<u32>,
        Ghost(spaces): Ghost<SpaceConfig>,
        Ghost(taken): Ghost<Seq<RenderElement>>,
    ) -> (r: Result<Step, LineError<H::Error>>)
        requires
            old(plugin).slot() == Some(Token::Break(hyphen)@),
            old(self).stands(old(handler), placed, first, spaces, taken),
        ensures
            final(plugin).spec_state() == old(plugin).spec_state(),
            final(plugin).asked() == old(plugin).asked(),
            forall|start: H| old(handler).follows(&start) ==> #[trigger] final(handler).follows(&start),
            r is Ok ==> told_what_was_drawn(
                old(plugin).told(),
                final(plugin).told(),
                old(handler).drawn(),
                final(handler).drawn(),
            ),
            final(self).cursor.spec_width() == old(self).cursor.spec_width(),
            final(self).cursor.spec_start() == old(self).cursor.spec_start(),
            final(self).cursor.spec_tab_width() == old(self).cursor.spec_tab_width(),
            match r {
                Ok(step) => {
                    &&& final(self).stands(final(handler), step.placed@, first, spaces, taken)
                    &&& Self::advanced(
                        old(self).line(metrics, parser, old(plugin), placed),
                        final(self).line(metrics, parser, final(plugin), step.placed@),
                        step,
                        final(plugin).upcoming(parser@),
                    )
                    &&& step.end is None ==> final(plugin).upcoming(parser@).len() < old(
                        plugin,
                    ).upcoming(parser@).len()
                },
                Err(LineError::Layout(_)) => old(self).line(metrics, parser, old(plugin), placed)
                    is None,
                Err(LineError::Handler(_)) => H::can_fail() && Self::stopped(
                    old(self).line(metrics, parser, old(plugin), placed),
                    taken,
                    final(handler).received(),
                    spaces,
                ),
            },
    {
        let ghost stream = plugin.upcoming(parser@);
        let ghost shown = hyphen_elements(
            metrics,
            stream[0]->Break_0,
            (self.cursor.spec_width() - self.cursor.spec_position()) as nat,
        );
        assert(stream[0] == Token::Break(hyphen)@);
        let free: u32 = self.cursor.space();
        proof {
            lemma_told_nothing(plugin.told(), handler.drawn());
        }
        if let Some(text) = hyphen {
            let w: u32 = metrics.measure(text);
            if w <= free {
                match handler.printed_characters(text, w) {
                    Ok(area) => {
                        plugin.post_render(Some(text), area);
                        proof {
                            lemma_told_one_more(
                                old(plugin).told(),
                                old(plugin).told(),
                                old(handler).drawn(),
                                old(handler).drawn(),
                                text@,
                                area,
                            );
                        }
                    },
                    Err(e) => {
                        proof {
                            lemma_layout_extends(
                                metrics,
                                stream,
                                self.cursor.spec_width(),
                                self.cursor.spec_tab_width(),
                                self.cursor.spec_position() as nat,
                                placed,
                            );
                            Self::lemma_stopped(
                                self.line(metrics, parser, old(plugin), placed),
                                placed,
                                taken,
                                handler.received(),
                                spaces,
                            );
                        }
                        return Err(LineError::Handler(e));
                    },
                }
                let _ = self.cursor.move_cursor_forward(w);
            }
        }
        plugin.consume_peeked_token();
        let ghost after = placed + shown;
        proof {
            let nothing = Seq::<RenderElement>::empty();
            assert(total_width(nothing) == 0);
            if shown.len() > 0 {
                assert(shown.drop_last() =~= nothing);
            }
            lemma_concat(placed, shown);
            lemma_stretch_printed(placed, shown, spaces);
            assert(plugin.upcoming(parser@) =~= stream.drop_first());
            match hyphen {
                Some(text) => {
                    if old(self).cursor.spec_position() + metrics.width_of(text@) <= old(
                        self,
                    ).cursor.spec_width() {
                        let element = RenderElement::PrintedCharacters(
                            text@,
                            metrics.width_of(text@),
                        );
                        assert(shown =~= nothing.push(element));
                        assert(handler.received() == old(handler).received().push(element));
                    } else {
                        assert(shown =~= nothing);
                    }
                },
                None => {
                    assert(shown =~= nothing);
                },
            }
            assert(handler.received() =~= taken + stretch(after, spaces).0);
        }
        Ok(Step { end: Some(LineEndType::NewLine), placed: Ghost(after) })
    }

    /// Places a word, or a part of it, or finds the line full.
    fn word<'a, M: Middleware<'a>, F: TextMetrics, H: ElementHandler<'a>>(
        &mut self,
        parser: &Parser<'a>,
        plugin: &mut MiddlewareWrapper<'a, M>,
        metrics: &F,
        handler: &mut H,
        word: &'a str,
        Ghost(placed): Ghost<Seq<RenderElement>>,
        Ghost(first): Ghost<u32>,
        Ghost(spaces): Ghost<SpaceConfig>,
        Ghost(taken): Ghost<Seq<RenderElement>>,
    ) -> (r: Result<Step, LineError<H::Error>>)
        requires
            old(plugin).slot() == Some(TokenView::Word(word@)),
            old(self).stands(old(handler), placed, first, spaces, taken),
        ensures
            final(plugin).spec_state() == old(plugin).spec_state(),
            final(plugin).asked() == old(plugin).asked(),
            forall|start: H| old(handler).follows(&start) ==> #[trigger] final(handler).follows(&start),
            r is Ok ==> told_what_was_drawn(
                old(plugin).told(),
                final(plugin).told(),
                old(handler).drawn(),
                final(handler).drawn(),
            ),
            final(self).cursor.spec_width() == old(self).cursor.spec_width(),
            final(self).cursor.spec_start() == old(self).cursor.spec_start(),
            final(self).cursor.spec_tab_width() == old(self).cursor.spec_tab_width(),
            match r {
                Ok(step) => {
                    &&& final(self).stands(final(handler), step.placed@, first, spaces, taken)
                    &&& Self::advanced(
                        old(self).line(metrics, parser, old(plugin), placed),
                        final(self).line(metrics, parser, final(plugin), step.placed@),
                        step,
                        final(plugin).upcoming(parser@),
                    )
                    &&& step.end is None ==> final(plugin).upcoming(parser@).len() < old(
                        plugin,
                    ).upcoming(parser@).len()
                },
                Err(LineError::Layout(_)) => old(self).line(metrics, parser, old(plugin), placed)
                    is None,
                Err(LineError::Handler(_)) => H::can_fail() && Self::stopped(
                    old(self).line(metrics, parser, old(plugin), placed),
                    taken,
                    final(handler).received(),
                    spaces,
                ),
            },
    {
        let ghost stream = plugin.upcoming(parser@);
        let ghost line = self.line(metrics, parser, plugin, placed);
        match word_fits(metrics, word, self.cursor.space()) {
            Some(w) => {
                match emit_word(metrics, handler, plugin, word) {
                    Ok(()) => {},
                    Err(e) => {
                        proof {
                            let shown = word_elements(metrics, word@);
                            lemma_word_elements(metrics, word@, 0, 0);
                            lemma_layout_extends(
                                metrics,
                                stream.drop_first(),
                                self.cursor.spec_width(),
                                self.cursor.spec_tab_width(),
                                (self.cursor.spec_position() + w) as nat,
                                placed + shown,
                            );
                            Self::lemma_stopped_in_word(
                                line,
                                placed,
                                shown,
                                taken,
                                handler.received(),
                                spaces,
                            );
                        }
                        return Err(LineError::Handler(e));
                    },
                }
                let _ = self.cursor.move_cursor_forward(w);
                plugin.consume_peeked_token();
                let ghost shown = word_elements(metrics, word@);
                let ghost after = placed + shown;
                proof {
                    lemma_word_elements(metrics, word@, 0, 0);
                    lemma_concat(placed, shown);
                    lemma_stretch_printed(placed, shown, spaces);
                    assert(plugin.upcoming(parser@) =~= stream.drop_first());
                    assert(handler.received() =~= taken + stretch(after, spaces).0);
                }
                Ok(Step { end: None, placed: Ghost(after) })
            },
            None => {
                if self.cursor.position() > 0 {
                    proof {
                        lemma_told_nothing(plugin.told(), handler.drawn());
                    }
                    return Ok(Step { end: Some(LineEndType::LineBreak), placed: Ghost(placed) });
                }
                let (k, w) = longest_fitting_prefix(metrics, word, self.cursor.line_width());
                if k == 0 {
                    return Err(LineError::Layout(LayoutInvariantViolation {  }));
                }
                let len: usize = word.unicode_len();
                assert(k < len) by {
                    if k == len {
                        assert(word@.take(len as int) =~= word@);
                    }
                }
                let head = word.substring_char(0, k);
                let tail = word.substring_char(k, len);
                match emit_word(metrics, handler, plugin, head) {
                    Ok(()) => {},
                    Err(e) => {
                        proof {
                            let shown = word_elements(metrics, head@);
                            lemma_word_elements(metrics, head@, 0, 0);
                            assert((placed + shown).take((placed + shown).len() as int) =~= placed
                                + shown);
                            Self::lemma_stopped_in_word(
                                line,
                                placed,
                                shown,
                                taken,
                                handler.received(),
                                spaces,
                            );
                        }
                        return Err(LineError::Handler(e));
                    },
                }
                let _ = self.cursor.move_cursor_forward(w);
                plugin.replace_peeked_token(Token::Word(tail));
                let ghost shown = word_elements(metrics, head@);
                let ghost after = placed + shown;
                proof {
                    lemma_word_elements(metrics, head@, 0, 0);
                    lemma_concat(placed, shown);
                    lemma_stretch_printed(placed, shown, spaces);
                    assert(plugin.upcoming(parser@) =~= seq![TokenView::Word(tail@)]
                        + stream.drop_first());
                    assert(handler.received() =~= taken + stretch(after, spaces).0);
                }
                Ok(Step { end: Some(LineEndType::LineBreak), placed: Ghost(after) })
            },
        }
    }

    /// Places a whitespace run, leaves it out, or finds the line full.
    fn whitespace<'a, M: Middleware<'a>, F: TextMetrics, H: ElementHandler<'a>>(
        &mut self,
        parser: &Parser<'a>,
        plugin: &mut MiddlewareWrapper<'a, M>,
        metrics: &F,
        handler: &mut H,
        count: u32,
        run: &'a str,
        Ghost(placed): Ghost<Seq<RenderElement>>,
        Ghost(first): Ghost<u32>,
        Ghost(spaces): Ghost<SpaceConfig>,
        Ghost(taken): Ghost<Seq<RenderElement>>,
    ) -> (r: Result<Step, LineError<H::Error>>)
        requires
            old(plugin).slot() == Some(TokenView::Whitespace(count, run@)),
            old(self).stands(old(handler), placed, first, spaces, taken),
        ensures
            final(plugin).spec_state() == old(plugin).spec_state(),
            final(plugin).asked() == old(plugin).asked(),
            forall|start: H| old(handler).follows(&start) ==> #[trigger] final(handler).follows(&start),
            r is Ok ==> told_what_was_drawn(
                old(plugin).told(),
                final(plugin).told(),
                old(handler).drawn(),
                final(handler).drawn(),
            ),
            final(self).cursor.spec_width() == old(self).cursor.spec_width(),
            final(self).cursor.spec_start() == old(self).cursor.spec_start(),
            final(self).cursor.spec_tab_width() == old(self).cursor.spec_tab_width(),
            match r {
                Ok(step) => {
                    &&& final(self).stands(final(handler), step.placed@, first, spaces, taken)
                    &&& Self::advanced(
                        old(self).line(metrics, parser, old(plugin), placed),
                        final(self).line(metrics, parser, final(plugin), step.placed@),
                        step,
                        final(plugin).upcoming(parser@),
                    )
                    &&& step.end is None ==> final(plugin).upcoming(parser@).len() < old(
                        plugin,
                    ).upcoming(parser@).len()
                },
                Err(LineError::Layout(_)) => old(self).line(metrics, parser, old(plugin), placed)
                    is None,
                Err(LineError::Handler(_)) => H::can_fail() && Self::stopped(
                    old(self).line(metrics, parser, old(plugin), placed),
                    taken,
                    final(handler).received(),
                    spaces,
                ),
            },
    {
        let ghost stream = plugin.upcoming(parser@);
        let tab: u32 = self.cursor.tab_width();
        let len: usize = run.unicode_len();
        let free: u32 = self.cursor.space();
        let (k, w) = fit_spaces(metrics, run, tab, free);
        let budget: Option<u32> = if k == len {
            Some((free - w) as u32)
        } else {
            None
        };
        proof {
            if k < len {
                lemma_spaces_width_grows(metrics, run@, tab, k + 1, len as int);
            }
            lemma_told_nothing(plugin.told(), handler.drawn());
        }
        match Self::look_ahead(parser, plugin, metrics, budget) {
            Following::End => {
                plugin.consume_peeked_token();
                assert(plugin.upcoming(parser@) =~= stream.drop_first());
                Ok(Step { end: None, placed: Ghost(placed) })
            },
            Following::Fits => {
                let bonus: u32 = self.spaces.consume();
                let shown: u32 = match w.checked_add(bonus) {
                    Some(sum) => sum,
                    None => u32::MAX,
                };
                match handler.whitespace(run, count, shown) {
                    Ok(area) => {
                        plugin.post_render(Some(run), area);
                        proof {
                            lemma_told_one_more(
                                old(plugin).told(),
                                old(plugin).told(),
                                old(handler).drawn(),
                                old(handler).drawn(),
                                run@,
                                area,
                            );
                        }
                    },
                    Err(e) => {
                        proof {
                            lemma_layout_extends(
                                metrics,
                                stream,
                                self.cursor.spec_width(),
                                self.cursor.spec_tab_width(),
                                self.cursor.spec_position() as nat,
                                placed,
                            );
                            Self::lemma_stopped(
                                old(self).line(metrics, parser, old(plugin), placed),
                                placed,
                                taken,
                                handler.received(),
                                spaces,
                            );
                        }
                        return Err(LineError::Handler(e));
                    },
                }
                let _ = self.cursor.move_cursor_forward(w);
                plugin.consume_peeked_token();
                let ghost after = placed.push(RenderElement::Whitespace(run@, count, w));
                proof {
                    assert(after.drop_last() =~= placed);
                    assert(plugin.upcoming(parser@) =~= stream.drop_first());
                    assert(handler.received() =~= taken + stretch(after, spaces).0);
                }
                Ok(Step { end: None, placed: Ghost(after) })
            },
            Following::TooWide => {
                if self.cursor.position() == 0 {
                    plugin.consume_peeked_token();
                    assert(plugin.upcoming(parser@) =~= stream.drop_first());
                    Ok(Step { end: None, placed: Ghost(placed) })
                } else {
                    let eaten: usize = if k == 0 {
                        1
                    } else {
                        k
                    };
                    if eaten >= len {
                        plugin.consume_peeked_token();
                        assert(plugin.upcoming(parser@) =~= stream.drop_first());
                    } else {
                        let left: u32 = if count as usize >= eaten {
                            (count as usize - eaten) as u32
                        } else {
                            0
                        };
                        let tail = run.substring_char(eaten, len);
                        plugin.replace_peeked_token(Token::Whitespace(left, tail));
                        assert(plugin.upcoming(parser@) =~= seq![
                            carried(count, run@, eaten as int),
                        ] + stream.drop_first());
                    }
                    Ok(Step { end: Some(LineEndType::LineBreak), placed: Ghost(placed) })
                }
            },
        }
    }

    /// Lays out one line, starting at the cursor.
    ///
    /// The tokens come from the current pass of `plugin`; what is left of
    /// them afterwards is left for the next line. The elements of the
    /// line go to `handler`, with every whitespace run widened as
    /// `spaces` says. The middleware is told of every element that the
    /// handler has drawn.
    ///
    /// Which tokens go on the line, and why the line ends, is decided by
    /// [`layout`] from the tokens, the line's width and the metrics alone.
    ///
    /// The middleware is asked for tokens by the hook of the wrapper's
    /// pass alone. Where the handler refuses an element, it has taken a
    /// start of the line's elements, and the error is passed on.
    pub fn process<'a, M: Middleware<'a>, F: TextMetrics, H: ElementHandler<'a>>(
        this: &mut Self,
        parser: &mut Parser<'a>,
        plugin: &mut MiddlewareWrapper<'a, M>,
        metrics: &F,
        handler: &mut H,
    ) -> (r: Result<LineEndType, LineError<H::Error>>)
        ensures
            final(plugin).spec_state() == old(plugin).spec_state(),
            asked_in_pass(old(plugin).asked(), final(plugin).asked(), old(plugin).spec_state()),
            forall|start: H| old(handler).follows(&start) ==> #[trigger] final(handler).follows(&start),
            r is Ok ==> told_what_was_drawn(
                old(plugin).told(),
                final(plugin).told(),
                old(handler).drawn(),
                final(handler).drawn(),
            ),
            final(this).cursor.spec_width() == old(this).cursor.spec_width(),
            final(this).cursor.spec_start() == old(this).cursor.spec_start(),
            final(this).cursor.spec_tab_width() == old(this).cursor.spec_tab_width(),
            ({
                let line = layout(
                    metrics,
                    old(plugin).upcoming(old(parser)@),
                    old(this).cursor.spec_width(),
                    old(this).cursor.spec_tab_width(),
                    old(this).cursor.spec_position() as nat,
                    Seq::empty(),
                );
                match r {
                    Ok(end) => {
                        &&& line is Some
                        &&& end == line->0.end
                        &&& final(plugin).upcoming(final(parser)@) == line->0.rest
                        &&& final(handler).received() == old(handler).received() + stretch(
                            line->0.elements,
                            old(this).spaces,
                        ).0
                        &&& final(this).spaces == stretch(line->0.elements, old(this).spaces).1
                        &&& final(this).cursor.spec_position() == old(this).cursor.spec_position()
                            + total_width(line->0.elements)
                    },
                    Err(LineError::Layout(_)) => line is None,
                    Err(LineError::Handler(_)) => H::can_fail() && (line is Some
                        ==> grown_by_start(
                        old(handler).received(),
                        final(handler).received(),
                        stretch(line->0.elements, old(this).spaces).0,
                    )),
                }
            }),
    {
        let ghost whole = this.line(metrics, parser, plugin, Seq::empty());
        let ghost first = this.cursor.spec_position();
        let ghost spaces = this.spaces;
        let ghost taken = handler.received();
        let ghost mut placed: Seq<RenderElement> = Seq::empty();
        assert(handler.received() =~= taken + stretch(placed, spaces).0);
        proof {
            lemma_told_nothing(plugin.told(), handler.drawn());
            lemma_not_asked(plugin.asked(), plugin.spec_state());
        }
        loop
            invariant
                whole == old(this).line(metrics, old(parser), old(plugin), Seq::empty()),
                first == old(this).cursor.spec_position(),
                spaces == old(this).spaces,
                taken == old(handler).received(),
                plugin.spec_state() == old(plugin).spec_state(),
                asked_in_pass(old(plugin).asked(), plugin.asked(), old(plugin).spec_state()),
                forall|start: H| old(handler).follows(&start) ==> #[trigger] handler.follows(&start),
                told_what_was_drawn(
                    old(plugin).told(),
                    plugin.told(),
                    old(handler).drawn(),
                    handler.drawn(),
                ),
                this.cursor.spec_width() == old(this).cursor.spec_width(),
                this.cursor.spec_tab_width() == old(this).cursor.spec_tab_width(),
                this.cursor.spec_start() == old(this).cursor.spec_start(),
                this.stands(handler, placed, first, spaces, taken),
                whole == this.line(metrics, parser, plugin, placed),
            decreases plugin.upcoming(parser@).len(),
        {
            let ghost asked = plugin.asked();
            let token = plugin.peek_token(parser);
            proof {
                let pass = plugin.spec_state();
                if plugin.asked() == asked {
                    lemma_not_asked(asked, pass);
                } else {
                    assert(plugin.asked().take(asked.len() as int) =~= asked);
                }
                lemma_asked_on(old(plugin).asked(), asked, plugin.asked(), pass);
            }
            let ghost told = plugin.told();
            let ghost drawn = handler.drawn();
            let step = match token {
                None => {
                    return Ok(LineEndType::EndOfText);
                },
                Some(Token::ChangeTextStyle(change)) => this.style_change(
                    parser,
                    plugin,
                    metrics,
                    handler,
                    change,
                    Ghost(placed),
                    Ghost(first),
                    Ghost(spaces),
                    Ghost(taken),
                ),
                Some(Token::Break(hyphen)) => this.line_break(
                    parser,
                    plugin,
                    metrics,
                    handler,
                    hyphen,
                    Ghost(placed),
                    Ghost(first),
                    Ghost(spaces),
                    Ghost(taken),
                ),
                Some(Token::Word(word)) => this.word(
                    parser,
                    plugin,
                    metrics,
                    handler,
                    word,
                    Ghost(placed),
                    Ghost(first),
                    Ghost(spaces),
                    Ghost(taken),
                ),
                Some(Token::Whitespace(count, run)) => this.whitespace(
                    parser,
                    plugin,
                    metrics,
                    handler,
                    count,
                    run,
                    Ghost(placed),
                    Ghost(first),
                    Ghost(spaces),
                    Ghost(taken),
                ),
            };
            match step {
                Ok(step) => {
                    proof {
                        placed = step.placed@;
                        lemma_told_on(
                            old(plugin).told(),
                            told,
                            plugin.told(),
                            old(handler).drawn(),
                            drawn,
                            handler.drawn(),
                        );
                    }
                    if let Some(end) = step.end {
                        return Ok(end);
                    }
                },
                Err(e) => {
                    return Err(e);
                },
            }
        }
    }
}

/// What taking one token has done to a line: whether and why the line has
/// ended, and the elements that are on it now.
struct Step {
    end: Option<LineEndType>,
    placed: Ghost<Seq<RenderElement>>,
}

/// Without anything extra the elements are shown as they are.
pub proof fn lemma_stretch_uniform(elements: Seq<RenderElement>)
    ensures
        stretch(elements, SpaceConfig::spec_uniform()) == (elements, SpaceConfig::spec_uniform()),
    decreases elements.len(),
{
    if elements.len() > 0 {
        lemma_stretch_uniform(elements.drop_last());
        assert(elements.drop_last().push(elements.last()) =~= elements);
    } else {
        assert(elements =~= Seq::empty());
    }
}

/// The handler of the measuring pass: it counts the whitespace runs of a
/// line and draws nothing.
pub struct MeasureLineElementHandler {
    runs: u32,
    trace: Ghost<Seq<RenderElement>>,
}

impl MeasureLineElementHandler {
    /// The count is that of the runs taken, at most `u32::MAX`.
    #[verifier::type_invariant]
    spec fn counts(&self) -> bool {
        self.runs == if count_runs(self.trace@) <= u32::MAX {
            count_runs(self.trace@)
        } else {
            u32::MAX as nat
        }
    }

    /// A handler that has taken nothing yet.
    pub fn new() -> (r: Self)
        ensures
            r.received() == Seq::<RenderElement>::empty(),
    {
        MeasureLineElementHandler { runs: 0, trace: Ghost(Seq::empty()) }
    }

    /// The number of whitespace runs taken, at most `u32::MAX`.
    pub fn space_runs(&self) -> (runs: u32)
        ensures
            runs == if count_runs(self.received()) <= u32::MAX {
                count_runs(self.received())
            } else {
                u32::MAX as nat
            },
    {
        proof {
            use_type_invariant(self);
        }
        self.runs
    }
}

impl<'a> ElementHandler<'a> for MeasureLineElementHandler {
    type Error = ();

    closed spec fn received(&self) -> Seq<RenderElement> {
        self.trace@
    }

    open spec fn can_fail() -> bool {
        false
    }

    fn whitespace(&mut self, text: &'a str, space_count: u32, width: u32) -> (r: Result<
        Option<Rectangle>,
        Self::Error,
    >) {
        proof {
            use_type_invariant(&*self);
        }
        let ghost after = self.trace@.push(RenderElement::Whitespace(text@, space_count, width));
        assert(after.drop_last() =~= self.trace@);
        let runs: u32 = if self.runs < u32::MAX {
            self.runs + 1
        } else {
            self.runs
        };
        *self = MeasureLineElementHandler { runs, trace: Ghost(after) };
        Ok(None)
    }

    fn printed_characters(&mut self, text: &'a str, width: u32) -> (r: Result<
        Option<Rectangle>,
        Self::Error,
    >) {
        proof {
            use_type_invariant(&*self);
        }
        let ghost after = self.trace@.push(RenderElement::PrintedCharacters(text@, width));
        assert(after.drop_last() =~= self.trace@);
        *self = MeasureLineElementHandler { runs: self.runs, trace: Ghost(after) };
        Ok(None)
    }

    fn change_text_style(&mut self, change: ChangeTextStyle) -> (r: Result<(), Self::Error>) {
        proof {
            use_type_invariant(&*self);
        }
        let ghost after = self.trace@.push(RenderElement::StyleChange(change));
        assert(after.drop_last() =~= self.trace@);
        *self = MeasureLineElementHandler { runs: self.runs, trace: Ghost(after) };
        Ok(())
    }
}

} // verus!
