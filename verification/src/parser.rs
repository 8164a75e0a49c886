//! Splits text into words, whitespace runs, breaks and style changes.

use crate::color::DecorationColor;
use crate::color::Rgb;
use crate::parser::marker::lemma_marker_len;
use crate::parser::marker::read_marker;
use crate::parser::marker::spec_marker;
use vstd::prelude::*;
use vstd::string::*;

pub mod marker;

verus! {

/// Starts an inline style marker.
pub const ESCAPE: char = '\u{1b}';

/// Ends the line and shows a hyphen there.
pub const SOFT_HYPHEN: char = '\u{ad}';

/// A space that keeps the words around it together.
pub const NO_BREAK_SPACE: char = '\u{a0}';

/// Longest whitespace run that one token holds.
pub const MAX_RUN: usize = 0xffff_ffff;

/// A change of the text style, written inline in the text.
#[derive(Clone, Copy, Debug, PartialEq, Eq, Structural)]
pub enum ChangeTextStyle {
    /// Back to white text without background or decorations.
    Reset,
    /// Sets or clears the text color.
    TextColor(Option<Rgb>),
    /// Sets or clears the background color.
    BackgroundColor(Option<Rgb>),
    /// Sets the underline color.
    Underline(DecorationColor),
    /// Sets the strikethrough color.
    Strikethrough(DecorationColor),
}

/// The smallest unit of text that the parser hands out.
///
/// Tokens borrow their text from the parsed string.
#[derive(Clone, Copy, Debug, PartialEq, Eq)]
pub enum Token<'a> {
    /// Characters that are kept together on a line.
    Word(&'a str),
    /// A run of spaces and tabs: the number of characters and the run itself.
    Whitespace(u32, &'a str),
    /// The line ends here. The text, if any, is shown at the end of the line.
    Break(Option<&'a str>),
    /// The text style changes here.
    ChangeTextStyle(ChangeTextStyle),
}

/// What a [`Token`] holds, as mathematical values.
pub enum TokenView {
    Word(Seq<char>),
    Whitespace(u32, Seq<char>),
    Break(Option<Seq<char>>),
    ChangeTextStyle(ChangeTextStyle),
}

impl<'a> View for Token<'a> {
    type V = TokenView;

    open spec fn view(&self) -> TokenView {
        match *self {
            Token::Word(w) => TokenView::Word(w@),
            Token::Whitespace(n, s) => TokenView::Whitespace(n, s@),
            Token::Break(None) => TokenView::Break(None),
            Token::Break(Some(h)) => TokenView::Break(Some(h@)),
            Token::ChangeTextStyle(c) => TokenView::ChangeTextStyle(c),
        }
    }
}

/// The view of an optional token.
pub open spec fn token_view(token: Option<Token<'_>>) -> Option<TokenView> {
    match token {
        Some(t) => Some(t@),
        None => None,
    }
}

/// Spaces and tabs make up whitespace runs.
pub open spec fn is_space_char(c: char) -> bool {
    c == ' ' || c == '\t'
}

/// Everything that is neither whitespace, a break nor the start of a marker
/// belongs to a word. That includes the no-break space.
pub open spec fn is_word_char(c: char) -> bool {
    !is_space_char(c) && c != '\n' && c != SOFT_HYPHEN && c != ESCAPE
}

/// End of the whitespace run that covers `i`: the first index from `i` on
/// that holds no whitespace, or where the run reaches [`MAX_RUN`].
pub open spec fn space_run_end(text: Seq<char>, i: int) -> int
    decreases text.len() - i,
{
    if 0 <= i < text.len() && i < MAX_RUN && is_space_char(text[i]) {
        space_run_end(text, i + 1)
    } else {
        i
    }
}

/// End of the word that covers `i`: the first index from `i` on that holds
/// no word character.
pub open spec fn word_end(text: Seq<char>, i: int) -> int
    decreases text.len() - i,
{
    if 0 <= i < text.len() && is_word_char(text[i]) {
        word_end(text, i + 1)
    } else {
        i
    }
}

/// One step of the parser on valid input: the token at the start of `text`
/// and the text after it; or, where `text` starts with a malformed marker,
/// no token and the text after that marker.
pub open spec fn scan_step(text: Seq<char>) -> (Result<Option<TokenView>, MalformedStyleMarker>, Seq<char>) {
    if text.len() == 0 {
        (Ok(None), text)
    } else if text[0] == '\n' {
        (Ok(Some(TokenView::Break(None))), text.skip(1))
    } else if text[0] == SOFT_HYPHEN {
        (Ok(Some(TokenView::Break(Some("-"@)))), text.skip(1))
    } else if is_space_char(text[0]) {
        let n = space_run_end(text, 0);
        (Ok(Some(TokenView::Whitespace(n as u32, text.take(n)))), text.skip(n))
    } else if text[0] == ESCAPE {
        let m = spec_marker(text);
        match m.style {
            Some(c) => (Ok(Some(TokenView::ChangeTextStyle(c))), text.skip(m.len as int)),
            None => (Err(MalformedStyleMarker { len: m.len as usize }), text.skip(m.len as int)),
        }
    } else {
        let n = word_end(text, 0);
        (Ok(Some(TokenView::Word(text.take(n)))), text.skip(n))
    }
}

/// The next token of `text` and the text after it, malformed markers skipped.
pub open spec fn scan(text: Seq<char>) -> (Option<TokenView>, Seq<char>)
    decreases text.len(),
{
    let step = scan_step(text);
    match step.0 {
        Ok(t) => (t, step.1),
        Err(_) => if step.1.len() < text.len() {
            scan(step.1)
        } else {
            (None, step.1)
        },
    }
}

/// All tokens of `text`, in order.
pub open spec fn tokens_of(text: Seq<char>) -> Seq<TokenView>
    decreases text.len(),
{
    let s = scan(text);
    match s.0 {
        Some(t) => if s.1.len() < text.len() {
            seq![t] + tokens_of(s.1)
        } else {
            seq![t]
        },
        None => Seq::empty(),
    }
}

/// A style marker that the parser could not read. The parser has skipped
/// its `len` characters and goes on behind it.
#[derive(Clone, Copy, Debug, PartialEq, Eq, Structural)]
pub struct MalformedStyleMarker {
    pub len: usize,
}

/// A cursor into the text that hands out one token at a time.
///
/// Copying a parser copies the cursor, never the text, so that a line can
/// be measured on a copy while the parser itself stays where it is.
#[derive(Clone, Copy, Debug)]
pub struct Parser<'a> {
    text: &'a str,
}

impl<'a> View for Parser<'a> {
    type V = Seq<char>;

    /// The text that is still to be read.
    closed spec fn view(&self) -> Seq<char> {
        self.text@
    }
}

fn is_space(c: char) -> (b: bool)
    ensures
        b == is_space_char(c),
{
    c == ' ' || c == '\t'
}

fn is_word(c: char) -> (b: bool)
    ensures
        b == is_word_char(c),
{
    !is_space(c) && c != '\n' && c != SOFT_HYPHEN && c != ESCAPE
}

/// Number of characters in the whitespace run at the start of `text`.
fn space_run(text: &str, len: usize) -> (n: usize)
    requires
        len == text@.len(),
    ensures
        n == space_run_end(text@, 0),
        n <= len,
        n <= MAX_RUN,
{
    let mut i: usize = 0;
    while i < len && i < MAX_RUN && is_space(text.get_char(i))
        invariant
            i <= len,
            i <= MAX_RUN,
            len == text@.len(),
            space_run_end(text@, 0) == space_run_end(text@, i as int),
        decreases len - i,
    {
        i = i + 1;
    }
    i
}

/// Number of characters in the word at the start of `text`.
fn word_run(text: &str, len: usize) -> (n: usize)
    requires
        len == text@.len(),
    ensures
        n == word_end(text@, 0),
        n <= len,
{
    let mut i: usize = 0;
    while i < len && is_word(text.get_char(i))
        invariant
            i <= len,
            len == text@.len(),
            word_end(text@, 0) == word_end(text@, i as int),
        decreases len - i,
    {
        i = i + 1;
    }
    i
}

impl<'a> Parser<'a> {
    /// A parser at the start of `text`.
    pub fn parse(text: &'a str) -> (p: Self)
        ensures
            p@ == text@,
    {
        Parser { text }
    }

    /// The text that is still to be read.
    pub fn remaining(&self) -> (text: &'a str)
        ensures
            text@ == self@,
    {
        self.text
    }

    /// Whether all of the text has been read.
    pub fn is_empty(&self) -> (b: bool)
        ensures
            b == (self@.len() == 0),
    {
        self.text.unicode_len() == 0
    }

    /// Reads one token, or reports the malformed marker that stands in its
    /// place. Either way the parser moves behind what it has read, so that
    /// the next call goes on from there.
    pub fn try_next(&mut self) -> (r: Result<Option<Token<'a>>, MalformedStyleMarker>)
        ensures
            final(self)@ == scan_step(old(self)@).1,
            match r {
                Ok(t) => scan_step(old(self)@).0 == Ok::<_, MalformedStyleMarker>(token_view(t)),
                Err(e) => scan_step(old(self)@).0 == Err::<Option<TokenView>, _>(e),
            },
    {
        let text = self.text;
        let len = text.unicode_len();
        if len == 0 {
            return Ok(None);
        }
        let first = text.get_char(0);
        if first == '\n' {
            self.text = text.substring_char(1, len);
            Ok(Some(Token::Break(None)))
        } else if first == SOFT_HYPHEN {
            self.text = text.substring_char(1, len);
            Ok(Some(Token::Break(Some("-"))))
        } else if is_space(first) {
            let n = space_run(text, len);
            self.text = text.substring_char(n, len);
            Ok(Some(Token::Whitespace(n as u32, text.substring_char(0, n))))
        } else if first == ESCAPE {
            let (n, style) = read_marker(text, len);
            self.text = text.substring_char(n, len);
            match style {
                Some(c) => Ok(Some(Token::ChangeTextStyle(c))),
                None => Err(MalformedStyleMarker { len: n }),
            }
        } else {
            let n = word_run(text, len);
            self.text = text.substring_char(n, len);
            Ok(Some(Token::Word(text.substring_char(0, n))))
        }
    }

    /// Reads the next token. Malformed markers are skipped.
    pub fn next(&mut self) -> (r: Option<Token<'a>>)
        ensures
            token_view(r) == scan(old(self)@).0,
            final(self)@ == scan(old(self)@).1,
    {
        loop
            invariant
                scan(self@) == scan(old(self)@),
            decreases self@.len(),
        {
            let ghost before = self@;
            match self.try_next() {
                Ok(t) => {
                    return t;
                },
                Err(_) => {
                    proof {
                        lemma_step_progress(before);
                    }
                },
            }
        }
    }
}

/// A step that reads a token or skips a marker shortens the text.
pub proof fn lemma_step_progress(text: Seq<char>)
    requires
        text.len() > 0,
    ensures
        scan_step(text).1.len() < text.len(),
        scan_step(text).0 is Ok ==> scan_step(text).0->Ok_0 is Some,
{
    if text[0] == ESCAPE {
        lemma_marker_len(text);
    } else if is_space_char(text[0]) {
        assert(space_run_end(text, 0) == space_run_end(text, 1));
        lemma_space_run_bounds(text, 1);
    } else if text[0] != '\n' && text[0] != SOFT_HYPHEN {
        assert(word_end(text, 0) == word_end(text, 1));
        lemma_word_end_bounds(text, 1);
    }
}

/// A whitespace run ends behind its start and within the text.
pub proof fn lemma_space_run_bounds(text: Seq<char>, i: int)
    requires
        0 <= i <= text.len(),
    ensures
        i <= space_run_end(text, i) <= text.len(),
        space_run_end(text, i) <= MAX_RUN || space_run_end(text, i) == i,
    decreases text.len() - i,
{
    if i < text.len() && i < MAX_RUN && is_space_char(text[i]) {
        lemma_space_run_bounds(text, i + 1);
    }
}

/// A word ends behind its start and within the text.
pub proof fn lemma_word_end_bounds(text: Seq<char>, i: int)
    requires
        0 <= i <= text.len(),
    ensures
        i <= word_end(text, i) <= text.len(),
    decreases text.len() - i,
{
    if i < text.len() && is_word_char(text[i]) {
        lemma_word_end_bounds(text, i + 1);
    }
}

} // verus!
