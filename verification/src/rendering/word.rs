//! Words and whitespace runs: how wide they are and how they are shown.

use crate::metrics::TextMetrics;
use crate::middleware::Middleware;
use crate::middleware::MiddlewareWrapper;
use crate::middleware::ProcessingState;
use crate::parser::NO_BREAK_SPACE;
use crate::rendering::line_iter::count_runs;
use crate::rendering::line_iter::grown_by_start;
use crate::rendering::line_iter::lemma_concat;
use crate::rendering::line_iter::lemma_grown_by_start;
use crate::rendering::line_iter::lemma_told_nothing;
use crate::rendering::line_iter::lemma_told_one_more;
use crate::rendering::line_iter::told_what_was_drawn;
use crate::rendering::line_iter::printed_only;
use crate::rendering::line_iter::total_width;
use crate::rendering::line_iter::ElementHandler;
use crate::rendering::line_iter::RenderElement;
use vstd::prelude::*;
use vstd::string::*;

verus! {

/// The width of a part of a word that holds no no-break space. An empty
/// part has no width.
pub open spec fn piece_width<F: TextMetrics>(metrics: &F, piece: Seq<char>) -> nat {
    if piece.len() == 0 {
        0
    } else {
        metrics.width_of(piece) as nat
    }
}

/// The width of `word[start..]`, where `word[start..i]` holds no no-break
/// space: the widths of the parts between the no-break spaces, and for
/// each no-break space the width of a space.
pub open spec fn width_from<F: TextMetrics>(metrics: &F, word: Seq<char>, start: int, i: int) -> nat
    decreases word.len() - i,
{
    if i < 0 || i >= word.len() {
        piece_width(metrics, word.subrange(start, word.len() as int))
    } else if word[i] == NO_BREAK_SPACE {
        piece_width(metrics, word.subrange(start, i)) + metrics.width_of(" "@) as nat + width_from(
            metrics,
            word,
            i + 1,
            i + 1,
        )
    } else {
        width_from(metrics, word, start, i + 1)
    }
}

/// The width of a word.
pub open spec fn word_width<F: TextMetrics>(metrics: &F, word: Seq<char>) -> nat {
    width_from(metrics, word, 0, 0)
}

/// How a part of a word that holds no no-break space is shown: as it is,
/// or not at all if it is empty.
pub open spec fn piece_elements<F: TextMetrics>(metrics: &F, piece: Seq<char>) -> Seq<
    RenderElement,
> {
    if piece.len() == 0 {
        Seq::empty()
    } else {
        seq![RenderElement::PrintedCharacters(piece, metrics.width_of(piece))]
    }
}

/// How `word[start..]` is shown, where `word[start..i]` holds no no-break
/// space: the parts between the no-break spaces as they are, and a printed
/// space for each no-break space.
pub open spec fn elements_from<F: TextMetrics>(
    metrics: &F,
    word: Seq<char>,
    start: int,
    i: int,
) -> Seq<RenderElement>
    decreases word.len() - i,
{
    if i < 0 || i >= word.len() {
        piece_elements(metrics, word.subrange(start, word.len() as int))
    } else if word[i] == NO_BREAK_SPACE {
        piece_elements(metrics, word.subrange(start, i)).push(
            RenderElement::PrintedCharacters(" "@, metrics.width_of(" "@)),
        ) + elements_from(metrics, word, i + 1, i + 1)
    } else {
        elements_from(metrics, word, start, i + 1)
    }
}

/// How a word is shown.
pub open spec fn word_elements<F: TextMetrics>(metrics: &F, word: Seq<char>) -> Seq<RenderElement> {
    elements_from(metrics, word, 0, 0)
}

/// The number of characters in the longest start of `word` that fits into
/// `width`, counted from `k` on: every start longer than `k` and up to
/// that length fits.
pub open spec fn fitting_prefix<F: TextMetrics>(metrics: &F, word: Seq<char>, width: nat, k: int) -> int
    decreases word.len() - k,
{
    if 0 <= k < word.len() && word_width(metrics, word.take(k + 1)) <= width {
        fitting_prefix(metrics, word, width, k + 1)
    } else {
        k
    }
}

/// The width of one character of a whitespace run: a tab has the tab
/// width, anything else the width of a space.
pub open spec fn space_char_width<F: TextMetrics>(metrics: &F, c: char, tab: u32) -> nat {
    if c == '\t' {
        tab as nat
    } else {
        metrics.width_of(" "@) as nat
    }
}

/// The width of the first `n` characters of a whitespace run.
pub open spec fn spaces_width<F: TextMetrics>(metrics: &F, run: Seq<char>, tab: u32, n: int) -> nat
    decreases n,
{
    if n <= 0 {
        0
    } else {
        spaces_width(metrics, run, tab, n - 1) + space_char_width(metrics, run[n - 1], tab)
    }
}

/// The width of a whitespace run.
pub open spec fn run_width<F: TextMetrics>(metrics: &F, run: Seq<char>, tab: u32) -> nat {
    spaces_width(metrics, run, tab, run.len() as int)
}

/// The number of characters at the start of a whitespace run that fit into
/// `width`, counted from `k` on.
pub open spec fn fitting_spaces<F: TextMetrics>(
    metrics: &F,
    run: Seq<char>,
    tab: u32,
    width: nat,
    k: int,
) -> int
    decreases run.len() - k,
{
    if 0 <= k < run.len() && spaces_width(metrics, run, tab, k + 1) <= width {
        fitting_spaces(metrics, run, tab, width, k + 1)
    } else {
        k
    }
}

/// A longer start of a whitespace run is at least as wide as a shorter
/// one.
pub proof fn lemma_spaces_width_grows<F: TextMetrics>(
    metrics: &F,
    run: Seq<char>,
    tab: u32,
    shorter: int,
    longer: int,
)
    requires
        shorter <= longer,
    ensures
        spaces_width(metrics, run, tab, shorter) <= spaces_width(metrics, run, tab, longer),
    decreases longer - shorter,
{
    if shorter < longer {
        lemma_spaces_width_grows(metrics, run, tab, shorter, longer - 1);
    }
}

/// The longest start that fits is a start of the word.
pub proof fn lemma_fitting_prefix_bounds<F: TextMetrics>(
    metrics: &F,
    word: Seq<char>,
    width: nat,
    k: int,
)
    requires
        0 <= k <= word.len(),
    ensures
        k <= fitting_prefix(metrics, word, width, k) <= word.len(),
    decreases word.len() - k,
{
    if k < word.len() && word_width(metrics, word.take(k + 1)) <= width {
        lemma_fitting_prefix_bounds(metrics, word, width, k + 1);
    }
}

/// Every start of a word that counts as fitting does fit, and if the
/// whole word counts as fitting, so does the word.
pub proof fn lemma_fitting_prefix_fits<F: TextMetrics>(
    metrics: &F,
    word: Seq<char>,
    width: nat,
    k: int,
)
    requires
        0 <= k <= word.len(),
    ensures
        fitting_prefix(metrics, word, width, k) > k ==> word_width(
            metrics,
            word.take(fitting_prefix(metrics, word, width, k)),
        ) <= width,
    decreases word.len() - k,
{
    if k < word.len() && word_width(metrics, word.take(k + 1)) <= width {
        lemma_fitting_prefix_fits(metrics, word, width, k + 1);
    }
}

/// A word that has characters is shown by at least one element.
pub proof fn lemma_word_is_shown<F: TextMetrics>(metrics: &F, word: Seq<char>, start: int, i: int)
    requires
        0 <= start <= i <= word.len(),
        start < word.len(),
    ensures
        elements_from(metrics, word, start, i).len() > 0,
    decreases word.len() - i,
{
    if i < word.len() && word[i] != NO_BREAK_SPACE {
        lemma_word_is_shown(metrics, word, start, i + 1);
    }
}

/// The characters of a run that fit are a start of the run.
pub proof fn lemma_fitting_spaces_bounds<F: TextMetrics>(
    metrics: &F,
    run: Seq<char>,
    tab: u32,
    width: nat,
    k: int,
)
    requires
        0 <= k <= run.len(),
    ensures
        k <= fitting_spaces(metrics, run, tab, width, k) <= run.len(),
    decreases run.len() - k,
{
    if k < run.len() && spaces_width(metrics, run, tab, k + 1) <= width {
        lemma_fitting_spaces_bounds(metrics, run, tab, width, k + 1);
    }
}

/// The elements of a word are printed characters, and together they are
/// as wide as the word.
pub proof fn lemma_word_elements<F: TextMetrics>(metrics: &F, word: Seq<char>, start: int, i: int)
    requires
        0 <= start <= i <= word.len(),
    ensures
        printed_only(elements_from(metrics, word, start, i)),
        total_width(elements_from(metrics, word, start, i)) == width_from(metrics, word, start, i),
        count_runs(elements_from(metrics, word, start, i)) == 0,
    decreases word.len() - i,
{
    let nothing = Seq::<RenderElement>::empty();
    assert(total_width(nothing) == 0 && count_runs(nothing) == 0);
    if i >= word.len() {
        let piece = word.subrange(start, word.len() as int);
        if piece.len() > 0 {
            assert(piece_elements(metrics, piece).drop_last() =~= nothing);
        }
    } else if word[i] == NO_BREAK_SPACE {
        let piece = word.subrange(start, i);
        let head = piece_elements(metrics, piece);
        let space = RenderElement::PrintedCharacters(" "@, metrics.width_of(" "@));
        if piece.len() > 0 {
            assert(head.drop_last() =~= nothing);
        }
        assert(total_width(head) == piece_width(metrics, piece));
        assert(count_runs(head) == 0);
        assert(head.push(space).drop_last() =~= head);
        assert(total_width(head.push(space)) == piece_width(metrics, piece) + metrics.width_of(
            " "@,
        ));
        assert(count_runs(head.push(space)) == 0);
        lemma_word_elements(metrics, word, i + 1, i + 1);
        lemma_concat(head.push(space), elements_from(metrics, word, i + 1, i + 1));
    } else {
        lemma_word_elements(metrics, word, start, i + 1);
    }
}

/// Measures a word against a budget: its width if that is within the
/// budget, else nothing.
pub fn word_fits<F: TextMetrics>(metrics: &F, word: &str, budget: u32) -> (r: Option<u32>)
    ensures
        match r {
            Some(width) => width == word_width(metrics, word@) && width <= budget,
            None => word_width(metrics, word@) > budget,
        },
{
    let len: usize = word.unicode_len();
    let mut total: u32 = 0;
    let mut start: usize = 0;
    let mut i: usize = 0;
    while i < len
        invariant
            start <= i <= len,
            len == word@.len(),
            total <= budget,
            word_width(metrics, word@) == total + width_from(metrics, word@, start as int, i as int),
        decreases len - i,
    {
        if word.get_char(i) == NO_BREAK_SPACE {
            let mut piece: u32 = 0;
            if start < i {
                piece = metrics.measure(word.substring_char(start, i));
            }
            let space: u32 = metrics.measure(" ");
            let sum: u64 = total as u64 + piece as u64 + space as u64;
            if sum > budget as u64 {
                return None;
            }
            total = sum as u32;
            start = i + 1;
        }
        i = i + 1;
    }
    let mut piece: u32 = 0;
    if start < len {
        piece = metrics.measure(word.substring_char(start, len));
    }
    let sum: u64 = total as u64 + piece as u64;
    if sum > budget as u64 {
        None
    } else {
        Some(sum as u32)
    }
}

/// Hands a word to the handler, piece by piece, and tells the middleware
/// of each piece that was drawn. Stops at the first piece that the
/// handler refuses.
pub fn emit_word<'a, M: Middleware<'a>, F: TextMetrics, H: ElementHandler<'a>>(
    metrics: &F,
    handler: &mut H,
    plugin: &mut MiddlewareWrapper<'a, M>,
    word: &'a str,
) -> (r: Result<(), H::Error>)
    ensures
        r is Ok ==> final(handler).received() == old(handler).received() + word_elements(
            metrics,
            word@,
        ),
        r is Err ==> grown_by_start(
            old(handler).received(),
            final(handler).received(),
            word_elements(metrics, word@),
        ),
        !H::can_fail() ==> r is Ok,
        forall|start: H| old(handler).follows(&start) ==> #[trigger] final(handler).follows(&start),
        r is Ok ==> told_what_was_drawn(
            old(plugin).told(),
            final(plugin).told(),
            old(handler).drawn(),
            final(handler).drawn(),
        ),
        final(plugin).spec_state() == old(plugin).spec_state(),
        final(plugin).asked() == old(plugin).asked(),
        forall|s: ProcessingState| final(plugin).slot_of(s) == old(plugin).slot_of(s),
        forall|text: Seq<char>| #[trigger]
            final(plugin).inner().upcoming(text) == old(plugin).inner().upcoming(text),
{
    let len: usize = word.unicode_len();
    let mut start: usize = 0;
    let mut i: usize = 0;
    proof {
        lemma_told_nothing(plugin.told(), handler.drawn());
    }
    while i < len
        invariant
            start <= i <= len,
            len == word@.len(),
            old(handler).received() + word_elements(metrics, word@) == handler.received()
                + elements_from(metrics, word@, start as int, i as int),
            old(handler).received().len() <= handler.received().len(),
            forall|start: H| old(handler).follows(&start) ==> #[trigger] handler.follows(&start),
            told_what_was_drawn(
                old(plugin).told(),
                plugin.told(),
                old(handler).drawn(),
                handler.drawn(),
            ),
            plugin.spec_state() == old(plugin).spec_state(),
            plugin.asked() == old(plugin).asked(),
            forall|s: ProcessingState| plugin.slot_of(s) == old(plugin).slot_of(s),
            forall|text: Seq<char>| #[trigger]
                plugin.inner().upcoming(text) == old(plugin).inner().upcoming(text),
        decreases len - i,
    {
        if word.get_char(i) == NO_BREAK_SPACE {
            let ghost before = handler.received();
            if start < i {
                let piece = word.substring_char(start, i);
                let ghost told = plugin.told();
                let ghost drawn = handler.drawn();
                match handler.printed_characters(piece, metrics.measure(piece)) {
                    Ok(area) => {
                        plugin.post_render(Some(piece), area);
                        proof {
                            lemma_told_one_more(
                                old(plugin).told(),
                                told,
                                old(handler).drawn(),
                                drawn,
                                piece@,
                                area,
                            );
                        }
                    },
                    Err(e) => {
                        proof {
                            lemma_grown_by_start(
                                old(handler).received(),
                                handler.received(),
                                word_elements(metrics, word@),
                                elements_from(metrics, word@, start as int, i as int),
                            );
                        }
                        return Err(e);
                    },
                }
            }
            let ghost told = plugin.told();
            let ghost drawn = handler.drawn();
            match handler.printed_characters(" ", metrics.measure(" ")) {
                Ok(area) => {
                    plugin.post_render(Some(" "), area);
                    proof {
                        lemma_told_one_more(
                            old(plugin).told(),
                            told,
                            old(handler).drawn(),
                            drawn,
                            " "@,
                            area,
                        );
                    }
                },
                Err(e) => {
                    proof {
                        let rest = seq![
                            RenderElement::PrintedCharacters(" "@, metrics.width_of(" "@)),
                        ] + elements_from(metrics, word@, i as int + 1, i as int + 1);
                        assert(old(handler).received() + word_elements(metrics, word@)
                            =~= handler.received() + rest);
                        lemma_grown_by_start(
                            old(handler).received(),
                            handler.received(),
                            word_elements(metrics, word@),
                            rest,
                        );
                    }
                    return Err(e);
                },
            }
            assert(handler.received() + elements_from(
                metrics,
                word@,
                i as int + 1,
                i as int + 1,
            ) =~= before + elements_from(metrics, word@, start as int, i as int));
            start = i + 1;
        }
        i = i + 1;
    }
    if start < len {
        let piece = word.substring_char(start, len);
        let ghost told = plugin.told();
        let ghost drawn = handler.drawn();
        match handler.printed_characters(piece, metrics.measure(piece)) {
            Ok(area) => {
                plugin.post_render(Some(piece), area);
                proof {
                    lemma_told_one_more(
                        old(plugin).told(),
                        told,
                        old(handler).drawn(),
                        drawn,
                        piece@,
                        area,
                    );
                }
            },
            Err(e) => {
                proof {
                    lemma_grown_by_start(
                        old(handler).received(),
                        handler.received(),
                        word_elements(metrics, word@),
                        elements_from(metrics, word@, start as int, len as int),
                    );
                }
                return Err(e);
            },
        }
    }
    assert(handler.received() =~= old(handler).received() + word_elements(metrics, word@));
    Ok(())
}

/// Finds how much of a word fits into `width`: the number of characters
/// of the longest start that fits, and the width of that start. A start
/// fits if it is not wider than `width` and no shorter start is.
pub fn longest_fitting_prefix<F: TextMetrics>(metrics: &F, word: &str, width: u32) -> (r: (
    usize,
    u32,
))
    ensures
        r.0 == fitting_prefix(metrics, word@, width as nat, 0),
        r.0 <= word@.len(),
        r.1 == if r.0 > 0 {
            word_width(metrics, word@.take(r.0 as int))
        } else {
            0
        },
        r.1 <= width,
{
    let len: usize = word.unicode_len();
    let mut k: usize = 0;
    let mut taken: u32 = 0;
    while k < len
        invariant
            len == word@.len(),
            k <= len,
            fitting_prefix(metrics, word@, width as nat, 0) == fitting_prefix(
                metrics,
                word@,
                width as nat,
                k as int,
            ),
            taken == if k > 0 {
                word_width(metrics, word@.take(k as int))
            } else {
                0
            },
            taken <= width,
        ensures
            k == fitting_prefix(metrics, word@, width as nat, 0),
            k <= len,
            taken == if k > 0 {
                word_width(metrics, word@.take(k as int))
            } else {
                0
            },
            taken <= width,
        decreases len - k,
    {
        match word_fits(metrics, word.substring_char(0, k + 1), width) {
            Some(w) => {
                taken = w;
                k = k + 1;
            },
            None => {
                break ;
            },
        }
    }
    (k, taken)
}

/// Measures a whitespace run against a budget: how many of its characters
/// fit, counted from the start, and how wide those are.
pub fn fit_spaces<F: TextMetrics>(metrics: &F, run: &str, tab: u32, budget: u32) -> (r: (usize, u32))
    ensures
        r.0 == fitting_spaces(metrics, run@, tab, budget as nat, 0),
        r.0 <= run@.len(),
        r.1 == spaces_width(metrics, run@, tab, r.0 as int),
        r.1 <= budget,
        r.0 < run@.len() ==> spaces_width(metrics, run@, tab, r.0 + 1) > budget,
{
    let len: usize = run.unicode_len();
    let space: u32 = metrics.measure(" ");
    let mut k: usize = 0;
    let mut taken: u32 = 0;
    while k < len
        invariant
            len == run@.len(),
            k <= len,
            space == metrics.width_of(" "@),
            fitting_spaces(metrics, run@, tab, budget as nat, 0) == fitting_spaces(
                metrics,
                run@,
                tab,
                budget as nat,
                k as int,
            ),
            taken == spaces_width(metrics, run@, tab, k as int),
            taken <= budget,
        ensures
            k == fitting_spaces(metrics, run@, tab, budget as nat, 0),
            taken == spaces_width(metrics, run@, tab, k as int),
            k < len ==> spaces_width(metrics, run@, tab, k + 1) > budget,
        decreases len - k,
    {
        let step: u32 = if run.get_char(k) == '\t' {
            tab
        } else {
            space
        };
        let sum: u64 = taken as u64 + step as u64;
        if sum > budget as u64 {
            break ;
        }
        taken = sum as u32;
        k = k + 1;
    }
    (k, taken)
}

} // verus!
