//! What holds of every line that is laid out.

use crate::metrics::TextMetrics;
use crate::parser::TokenView;
use crate::rendering::line_iter::carried;
use crate::rendering::line_iter::eaten;
use crate::rendering::line_iter::following_width;
use crate::rendering::line_iter::hyphen_elements;
use crate::rendering::line_iter::layout;
use crate::rendering::line_iter::lemma_concat;
use crate::rendering::line_iter::next_solid;
use crate::rendering::line_iter::LineLayout;
use crate::rendering::line_iter::Lookahead;
use crate::rendering::line_iter::line_of;
use crate::rendering::line_iter::stretch;
use crate::rendering::line_iter::total_width;
use crate::rendering::line_iter::LineEndType;
use crate::rendering::line_iter::RenderElement;
use crate::rendering::space_config::SpaceConfig;
use crate::rendering::word::fitting_prefix;
use crate::rendering::word::fitting_spaces;
use crate::rendering::word::spaces_width;
use crate::rendering::word::lemma_fitting_prefix_bounds;
use crate::rendering::word::lemma_fitting_prefix_fits;
use crate::rendering::word::lemma_fitting_spaces_bounds;
use crate::rendering::word::lemma_word_elements;
use crate::rendering::word::lemma_word_is_shown;
use crate::rendering::word::run_width;
use crate::rendering::word::word_elements;
use crate::rendering::word::word_width;
use vstd::prelude::*;

verus! {

/// How much of a text a token holds: itself and its characters.
pub open spec fn token_weight(token: TokenView) -> nat {
    match token {
        TokenView::Word(w) => 1 + w.len(),
        TokenView::Whitespace(_, run) => 1 + run.len(),
        TokenView::Break(_) => 1,
        TokenView::ChangeTextStyle(_) => 1,
    }
}

/// How much of a text is still to be laid out.
pub open spec fn stream_weight(stream: Seq<TokenView>) -> nat
    decreases stream.len(),
{
    if stream.len() == 0 {
        0
    } else {
        token_weight(stream[0]) + stream_weight(stream.drop_first())
    }
}

/// A token in front of a stream adds its weight.
pub proof fn lemma_weight_push_front(token: TokenView, rest: Seq<TokenView>)
    ensures
        stream_weight(seq![token] + rest) == token_weight(token) + stream_weight(rest),
{
    assert((seq![token] + rest).drop_first() =~= rest);
}

/// Every line takes something from the text: a line never leaves more
/// than it found, and a line that starts at the left edge and does not
/// end the text leaves less.
pub proof fn lemma_line_progress<F: TextMetrics>(
    metrics: &F,
    stream: Seq<TokenView>,
    width: u32,
    tab: u32,
    used: nat,
    placed: Seq<RenderElement>,
)
    requires
        used <= width,
    ensures
        layout(metrics, stream, width, tab, used, placed) matches Some(line) ==> {
            &&& stream_weight(line.rest) <= stream_weight(stream)
            &&& (used == 0 && line.end != LineEndType::EndOfText) ==> stream_weight(line.rest)
                < stream_weight(stream)
            &&& line.end != LineEndType::OutOfVerticalSpace
        },
    decreases stream.len(),
{
    if stream.len() > 0 {
        let rest = stream.drop_first();
        match stream[0] {
            TokenView::ChangeTextStyle(c) => {
                lemma_line_progress(
                    metrics,
                    rest,
                    width,
                    tab,
                    used,
                    placed.push(RenderElement::StyleChange(c)),
                );
            },
            TokenView::Break(_) => {},
            TokenView::Word(w) => {
                let word = word_width(metrics, w);
                if used + word <= width {
                    lemma_line_progress(
                        metrics,
                        rest,
                        width,
                        tab,
                        used + word,
                        placed + word_elements(metrics, w),
                    );
                } else if used == 0 {
                    let k = fitting_prefix(metrics, w, width as nat, 0);
                    lemma_fitting_prefix_bounds(metrics, w, width as nat, 0);
                    if k > 0 {
                        lemma_weight_push_front(TokenView::Word(w.skip(k)), rest);
                    }
                }
            },
            TokenView::Whitespace(n, run) => {
                let space = run_width(metrics, run, tab);
                match following_width(metrics, rest) {
                    None => {
                        lemma_line_progress(metrics, rest, width, tab, used, placed);
                    },
                    Some(word) => {
                        if used + space + word <= width {
                            lemma_line_progress(
                                metrics,
                                rest,
                                width,
                                tab,
                                used + space,
                                placed.push(RenderElement::Whitespace(run, n, space as u32)),
                            );
                        } else if used == 0 {
                            lemma_line_progress(metrics, rest, width, tab, used, placed);
                        } else {
                            let k = eaten(metrics, run, tab, (width - used) as nat);
                            lemma_fitting_spaces_bounds(metrics, run, tab, (width - used) as nat, 0);
                            if k < run.len() {
                                lemma_weight_push_front(carried(n, run, k), rest);
                            }
                        }
                    },
                }
            },
        }
    }
}

/// The first word is always placed: where a line starts with a word that
/// is wider than the line, the longest start of the word that fits is on
/// the line, which is at least one character, and the rest of the word is
/// the first token of the next line. There is no layout only if not even
/// the first character of the word fits.
pub proof fn lemma_first_word_is_placed<F: TextMetrics>(
    metrics: &F,
    word: Seq<char>,
    rest: Seq<TokenView>,
    width: u32,
    tab: u32,
)
    requires
        word_width(metrics, word) > width,
    ensures
        ({
            let k = fitting_prefix(metrics, word, width as nat, 0);
            match line_of(metrics, seq![TokenView::Word(word)] + rest, width, tab) {
                Some(line) => {
                    &&& 0 < k < word.len()
                    &&& line.end == LineEndType::LineBreak
                    &&& line.elements == word_elements(metrics, word.take(k))
                    &&& line.elements.len() > 0
                    &&& total_width(line.elements) <= width
                    &&& line.rest == seq![TokenView::Word(word.skip(k))] + rest
                },
                None => word.len() > 0 && word_width(metrics, word.take(1)) > width,
            }
        }),
{
    let stream = seq![TokenView::Word(word)] + rest;
    let k = fitting_prefix(metrics, word, width as nat, 0);
    assert(stream.drop_first() =~= rest);
    assert(word.len() > 0) by {
        if word.len() == 0 {
            assert(word.subrange(0, 0) =~= word);
        }
    }
    lemma_fitting_prefix_bounds(metrics, word, width as nat, 0);
    lemma_fitting_prefix_fits(metrics, word, width as nat, 0);
    if k == word.len() {
        assert(word.take(k) =~= word);
    }
    if k == 0 {
        if word_width(metrics, word.take(1)) <= width {
            lemma_fitting_prefix_bounds(metrics, word, width as nat, 1);
        }
    }
    if k > 0 {
        let head = word.take(k);
        lemma_word_is_shown(metrics, head, 0, 0);
        lemma_word_elements(metrics, head, 0, 0);
        assert(Seq::<RenderElement>::empty() + word_elements(metrics, head) =~= word_elements(
            metrics,
            head,
        ));
    }
}

/// A line is never wider than it may be: what is on the line, from where
/// the line started, fits into the line's width.
pub proof fn lemma_line_fits<F: TextMetrics>(
    metrics: &F,
    stream: Seq<TokenView>,
    width: u32,
    tab: u32,
    used: nat,
    placed: Seq<RenderElement>,
    first: nat,
)
    requires
        used <= width,
        used == first + total_width(placed),
    ensures
        layout(metrics, stream, width, tab, used, placed) matches Some(line) ==> first
            + total_width(line.elements) <= width,
    decreases stream.len(),
{
    if stream.len() > 0 {
        let rest = stream.drop_first();
        match stream[0] {
            TokenView::ChangeTextStyle(c) => {
                let next = placed.push(RenderElement::StyleChange(c));
                assert(next.drop_last() =~= placed);
                lemma_line_fits(metrics, rest, width, tab, used, next, first);
            },
            TokenView::Break(h) => {
                let shown = hyphen_elements(metrics, h, (width - used) as nat);
                let nothing = Seq::<RenderElement>::empty();
                assert(total_width(nothing) == 0);
                if shown.len() > 0 {
                    assert(shown.drop_last() =~= nothing);
                }
                lemma_concat(placed, shown);
            },
            TokenView::Word(w) => {
                let word = word_width(metrics, w);
                if used + word <= width {
                    lemma_word_elements(metrics, w, 0, 0);
                    lemma_concat(placed, word_elements(metrics, w));
                    lemma_line_fits(
                        metrics,
                        rest,
                        width,
                        tab,
                        used + word,
                        placed + word_elements(metrics, w),
                        first,
                    );
                } else if used == 0 {
                    let k = fitting_prefix(metrics, w, width as nat, 0);
                    lemma_fitting_prefix_bounds(metrics, w, width as nat, 0);
                    lemma_fitting_prefix_fits(metrics, w, width as nat, 0);
                    if k > 0 {
                        lemma_word_elements(metrics, w.take(k), 0, 0);
                        lemma_concat(placed, word_elements(metrics, w.take(k)));
                    }
                }
            },
            TokenView::Whitespace(n, run) => {
                let space = run_width(metrics, run, tab);
                match following_width(metrics, rest) {
                    None => {
                        lemma_line_fits(metrics, rest, width, tab, used, placed, first);
                    },
                    Some(word) => {
                        if used + space + word <= width {
                            let next = placed.push(
                                RenderElement::Whitespace(run, n, space as u32),
                            );
                            assert(next.drop_last() =~= placed);
                            lemma_line_fits(metrics, rest, width, tab, used + space, next, first);
                        } else if used == 0 {
                            lemma_line_fits(metrics, rest, width, tab, used, placed, first);
                        }
                    },
                }
            },
        }
    }
}

/// A line that is full is not empty: where a line ends because the next
/// word does not fit, something is on the line.
pub proof fn lemma_line_break_has_content<F: TextMetrics>(
    metrics: &F,
    stream: Seq<TokenView>,
    width: u32,
    tab: u32,
    used: nat,
    placed: Seq<RenderElement>,
)
    requires
        used > 0 ==> placed.len() > 0,
        used == total_width(placed),
    ensures
        layout(metrics, stream, width, tab, used, placed) matches Some(line) ==> (line.end
            == LineEndType::LineBreak ==> line.elements.len() > 0),
    decreases stream.len(),
{
    if stream.len() > 0 {
        let rest = stream.drop_first();
        match stream[0] {
            TokenView::ChangeTextStyle(c) => {
                let next = placed.push(RenderElement::StyleChange(c));
                assert(next.drop_last() =~= placed);
                lemma_line_break_has_content(metrics, rest, width, tab, used, next);
            },
            TokenView::Break(_) => {},
            TokenView::Word(w) => {
                let word = word_width(metrics, w);
                if used + word <= width {
                    lemma_word_elements(metrics, w, 0, 0);
                    lemma_concat(placed, word_elements(metrics, w));
                    let nothing = Seq::<RenderElement>::empty();
                    assert(total_width(nothing) == 0);
                    lemma_line_break_has_content(
                        metrics,
                        rest,
                        width,
                        tab,
                        used + word,
                        placed + word_elements(metrics, w),
                    );
                } else if used == 0 {
                    let k = fitting_prefix(metrics, w, width as nat, 0);
                    lemma_fitting_prefix_bounds(metrics, w, width as nat, 0);
                    if k > 0 {
                        lemma_word_is_shown(metrics, w.take(k), 0, 0);
                    }
                }
            },
            TokenView::Whitespace(n, run) => {
                let space = run_width(metrics, run, tab);
                match following_width(metrics, rest) {
                    None => {
                        lemma_line_break_has_content(metrics, rest, width, tab, used, placed);
                    },
                    Some(word) => {
                        if used + space + word <= width {
                            let next = placed.push(
                                RenderElement::Whitespace(run, n, space as u32),
                            );
                            assert(next.drop_last() =~= placed);
                            lemma_line_break_has_content(
                                metrics,
                                rest,
                                width,
                                tab,
                                used + space,
                                next,
                            );
                        } else if used == 0 {
                            lemma_line_break_has_content(metrics, rest, width, tab, used, placed);
                        }
                    },
                }
            },
        }
    }
}

/// Whether two elements differ at most in their width.
pub open spec fn same_but_width(a: RenderElement, b: RenderElement) -> bool {
    match (a, b) {
        (
            RenderElement::PrintedCharacters(s, _),
            RenderElement::PrintedCharacters(t, _),
        ) => s == t,
        (RenderElement::Whitespace(s, m, _), RenderElement::Whitespace(t, n, _)) => s == t && m
            == n,
        (RenderElement::StyleChange(c), RenderElement::StyleChange(d)) => c == d,
        _ => false,
    }
}

/// Widening changes widths of whitespace and nothing else: the elements
/// that are shown are those that were laid out, one for one, and all but
/// the whitespace runs are shown as they were laid out.
pub proof fn lemma_stretch_keeps_elements(elements: Seq<RenderElement>, spaces: SpaceConfig)
    ensures
        stretch(elements, spaces).0.len() == elements.len(),
        forall|i: int|
            0 <= i < elements.len() ==> same_but_width(
                #[trigger] stretch(elements, spaces).0[i],
                elements[i],
            ),
        forall|i: int|
            0 <= i < elements.len() && !(elements[i] is Whitespace) ==> #[trigger] stretch(
                elements,
                spaces,
            ).0[i] == elements[i],
    decreases elements.len(),
{
    if elements.len() > 0 {
        lemma_stretch_keeps_elements(elements.drop_last(), spaces);
    }
}

/// What is on a line stays on it: the elements of a laid out line start
/// with the elements that were on the line before.
pub proof fn lemma_layout_extends<F: TextMetrics>(
    metrics: &F,
    stream: Seq<TokenView>,
    width: u32,
    tab: u32,
    used: nat,
    placed: Seq<RenderElement>,
)
    ensures
        layout(metrics, stream, width, tab, used, placed) matches Some(line) ==> placed.len()
            <= line.elements.len() && line.elements.take(placed.len() as int) == placed,
    decreases stream.len(),
{
    let whole = layout(metrics, stream, width, tab, used, placed);
    if stream.len() == 0 {
        assert(placed.take(placed.len() as int) =~= placed);
    } else if whole is Some {
        let rest = stream.drop_first();
        let elements = whole->0.elements;
        match stream[0] {
            TokenView::ChangeTextStyle(c) => {
                let next = placed.push(RenderElement::StyleChange(c));
                lemma_layout_extends(metrics, rest, width, tab, used, next);
                assert(elements.take(placed.len() as int) =~= elements.take(next.len() as int).take(
                    placed.len() as int,
                ));
                assert(next.take(placed.len() as int) =~= placed);
            },
            TokenView::Break(h) => {
                assert(elements.take(placed.len() as int) =~= placed);
            },
            TokenView::Word(w) => {
                let word = word_width(metrics, w);
                if used + word <= width {
                    let next = placed + word_elements(metrics, w);
                    lemma_layout_extends(metrics, rest, width, tab, used + word, next);
                    assert(elements.take(placed.len() as int) =~= elements.take(
                        next.len() as int,
                    ).take(placed.len() as int));
                    assert(next.take(placed.len() as int) =~= placed);
                } else {
                    assert(elements.take(placed.len() as int) =~= placed);
                }
            },
            TokenView::Whitespace(n, run) => {
                let space = run_width(metrics, run, tab);
                match following_width(metrics, rest) {
                    None => {
                        lemma_layout_extends(metrics, rest, width, tab, used, placed);
                    },
                    Some(word) => {
                        if used + space + word <= width {
                            let next = placed.push(
                                RenderElement::Whitespace(run, n, space as u32),
                            );
                            lemma_layout_extends(metrics, rest, width, tab, used + space, next);
                            assert(elements.take(placed.len() as int) =~= elements.take(
                                next.len() as int,
                            ).take(placed.len() as int));
                            assert(next.take(placed.len() as int) =~= placed);
                        } else if used == 0 {
                            lemma_layout_extends(metrics, rest, width, tab, used, placed);
                        } else {
                            assert(elements.take(placed.len() as int) =~= placed);
                        }
                    },
                }
            },
        }
    }
}

/// A start of a line is shown as it is shown in the whole line: widening
/// the first `k` elements gives the first `k` of the widened elements.
pub proof fn lemma_stretch_take(elements: Seq<RenderElement>, spaces: SpaceConfig, k: int)
    requires
        0 <= k <= elements.len(),
    ensures
        stretch(elements.take(k), spaces).0 == stretch(elements, spaces).0.take(k),
    decreases elements.len(),
{
    lemma_stretch_keeps_elements(elements, spaces);
    if k == elements.len() {
        assert(elements.take(k) =~= elements);
        assert(stretch(elements, spaces).0.take(k) =~= stretch(elements, spaces).0);
    } else {
        let front = elements.drop_last();
        lemma_stretch_take(front, spaces, k);
        lemma_stretch_keeps_elements(front, spaces);
        assert(elements.take(k) =~= front.take(k));
        assert(stretch(elements, spaces).0.take(k) =~= stretch(front, spaces).0.take(k));
    }
}

/// A carried space: where two spaces stand behind what is on a line, a
/// word follows them, and only one of the two still fits, the line is
/// full. Nothing is shown of the run on this line; one space stays on it,
/// unseen, and one is left for the next line. If the word fits behind it
/// there, the next line starts with that one space, as wide as a space,
/// and the word behind it.
pub proof fn lemma_carried_space<F: TextMetrics>(
    metrics: &F,
    count: u32,
    run: Seq<char>,
    word: Seq<char>,
    rest: Seq<TokenView>,
    width: u32,
    tab: u32,
    used: nat,
    placed: Seq<RenderElement>,
)
    requires
        run.len() == 2,
        run[0] != '\t',
        run[1] != '\t',
        0 < used <= width,
        metrics.width_of(" "@) <= width - used < 2 * metrics.width_of(" "@),
    ensures
        ({
            let space = metrics.width_of(" "@);
            let left = carried(count, run, 1);
            let next = seq![left, TokenView::Word(word)] + rest;
            &&& layout(
                metrics,
                seq![TokenView::Whitespace(count, run), TokenView::Word(word)] + rest,
                width,
                tab,
                used,
                placed,
            ) == Some(LineLayout { elements: placed, end: LineEndType::LineBreak, rest: next })
            &&& left == TokenView::Whitespace(
                if count >= 1 {
                    (count - 1) as u32
                } else {
                    0
                },
                run.skip(1),
            )
            &&& space + word_width(metrics, word) <= width ==> line_of(metrics, next, width, tab)
                == layout(
                metrics,
                rest,
                width,
                tab,
                space as nat + word_width(metrics, word),
                seq![RenderElement::Whitespace(run.skip(1), left->Whitespace_0, space)]
                    + word_elements(metrics, word),
            )
        }),
{
    let space = metrics.width_of(" "@);
    let free = (width - used) as nat;
    let first = seq![TokenView::Whitespace(count, run), TokenView::Word(word)] + rest;
    let behind = seq![TokenView::Word(word)] + rest;
    assert(first.drop_first() =~= behind);
    assert(behind.drop_first() =~= rest);
    assert(next_solid(behind) == Lookahead::Word(word));
    // the run is two spaces wide, and one of them fits
    assert(spaces_width(metrics, run, tab, 0) == 0);
    assert(spaces_width(metrics, run, tab, 1) == space);
    assert(spaces_width(metrics, run, tab, 2) == 2 * space);
    assert(fitting_spaces(metrics, run, tab, free, 2) == 2);
    assert(fitting_spaces(metrics, run, tab, free, 1) == 1);
    assert(fitting_spaces(metrics, run, tab, free, 0) == 1);
    assert(eaten(metrics, run, tab, free) == 1);
    // the next line
    let left = carried(count, run, 1);
    let one = run.skip(1);
    let next = seq![left, TokenView::Word(word)] + rest;
    assert(next.drop_first() =~= behind);
    assert(seq![left] + behind =~= next);
    assert(following_width(metrics, behind) == Some(word_width(metrics, word)));
    assert(layout(metrics, first, width, tab, used, placed) == Some(
        LineLayout { elements: placed, end: LineEndType::LineBreak, rest: next },
    ));
    assert(spaces_width(metrics, one, tab, 0) == 0);
    assert(spaces_width(metrics, one, tab, 1) == space);
    assert(run_width(metrics, one, tab) == space);
    if space + word_width(metrics, word) <= width {
        let shown = Seq::<RenderElement>::empty().push(
            RenderElement::Whitespace(one, left->Whitespace_0, space),
        );
        assert(line_of(metrics, next, width, tab) == layout(
            metrics,
            behind,
            width,
            tab,
            space as nat,
            shown,
        ));
        assert(shown + word_elements(metrics, word) =~= seq![
            RenderElement::Whitespace(one, left->Whitespace_0, space),
        ] + word_elements(metrics, word));
        assert(layout(metrics, behind, width, tab, space as nat, shown) == layout(
            metrics,
            rest,
            width,
            tab,
            space as nat + word_width(metrics, word),
            shown + word_elements(metrics, word),
        ));
    }
}

} // verus!
