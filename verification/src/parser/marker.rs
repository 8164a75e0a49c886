//! Inline style markers.
//!
//! A marker is the escape character, `[`, a list of decimal parameters
//! separated by `;`, and a final character from `@` to `~`. Only the
//! final character `m` makes a style marker, and the parameters select
//! the change:
//!
//! | parameters      | change                              |
//! |-----------------|-------------------------------------|
//! | `0`             | reset                               |
//! | `30` to `37`    | text color from the palette         |
//! | `38;2;r;g;b`    | text color                          |
//! | `39`            | no text color                       |
//! | `40` to `47`    | background color from the palette   |
//! | `48;2;r;g;b`    | background color                    |
//! | `49`            | no background color                 |
//! | `4`, `24`       | underline in the text color, off    |
//! | `58;2;r;g;b`    | underline color                     |
//! | `9`, `29`       | strikethrough in the text color, off|
//!
//! Anything else that starts with the escape character is malformed.

use crate::color::DecorationColor;
use crate::color::Rgb;
use crate::parser::ChangeTextStyle;
use vstd::prelude::*;
use vstd::string::*;

verus! {

/// What stands at the start of a text that begins with the escape
/// character: how many characters the marker takes, and the style change
/// that it asks for. A malformed marker asks for none.
pub struct Marker {
    pub len: nat,
    pub style: Option<ChangeTextStyle>,
}

/// Parameters above this value select nothing.
pub const PARAM_LIMIT: u32 = 256;

/// Digits and `;` make up the parameter list.
pub open spec fn is_param_char(c: char) -> bool {
    c == ';' || ('0' as u32 <= c as u32 && c as u32 <= '9' as u32)
}

/// The first index from `i` on that holds no parameter character.
pub open spec fn param_end(text: Seq<char>, i: int) -> int
    decreases text.len() - i,
{
    if 0 <= i < text.len() && is_param_char(text[i]) {
        param_end(text, i + 1)
    } else {
        i
    }
}

/// The parameter list as it stands after the characters `text[2..i]`: the
/// parameters that a `;` has closed, and the value of the one being read.
pub open spec fn param_state(text: Seq<char>, i: int) -> (Seq<nat>, nat)
    decreases i,
{
    if i <= 2 {
        (Seq::empty(), 0)
    } else {
        let before = param_state(text, i - 1);
        let c = text[i - 1];
        if c == ';' {
            (before.0.push(before.1), 0)
        } else {
            (before.0, before.1 * 10 + (c as u32 - '0' as u32) as nat)
        }
    }
}

/// The parameters written in `text[2..end]`. An empty parameter is zero.
pub open spec fn params(text: Seq<char>, end: int) -> Seq<nat> {
    let state = param_state(text, end);
    state.0.push(state.1)
}

/// One of the eight palette colors.
pub open spec fn spec_palette(index: nat) -> Rgb {
    Rgb {
        r: if index % 2 == 1 { 170 } else { 0 },
        g: if (index / 2) % 2 == 1 { if index == 3 { 85 } else { 170 } } else { 0 },
        b: if (index / 4) % 2 == 1 { 170 } else { 0 },
    }
}

/// The change that a single parameter selects.
pub open spec fn single_style(code: nat) -> Option<ChangeTextStyle> {
    if code == 0 {
        Some(ChangeTextStyle::Reset)
    } else if code == 4 {
        Some(ChangeTextStyle::Underline(DecorationColor::TextColor))
    } else if code == 9 {
        Some(ChangeTextStyle::Strikethrough(DecorationColor::TextColor))
    } else if code == 24 {
        Some(ChangeTextStyle::Underline(DecorationColor::Off))
    } else if code == 29 {
        Some(ChangeTextStyle::Strikethrough(DecorationColor::Off))
    } else if 30 <= code <= 37 {
        Some(ChangeTextStyle::TextColor(Some(spec_palette((code - 30) as nat))))
    } else if code == 39 {
        Some(ChangeTextStyle::TextColor(None))
    } else if 40 <= code <= 47 {
        Some(ChangeTextStyle::BackgroundColor(Some(spec_palette((code - 40) as nat))))
    } else if code == 49 {
        Some(ChangeTextStyle::BackgroundColor(None))
    } else {
        None
    }
}

/// The change that a parameter with a color behind it selects.
pub open spec fn color_style(code: nat, color: Rgb) -> Option<ChangeTextStyle> {
    if code == 38 {
        Some(ChangeTextStyle::TextColor(Some(color)))
    } else if code == 48 {
        Some(ChangeTextStyle::BackgroundColor(Some(color)))
    } else if code == 58 {
        Some(ChangeTextStyle::Underline(DecorationColor::Custom(color)))
    } else {
        None
    }
}

/// The change that a parameter list selects, if it selects one.
pub open spec fn sgr_style(p: Seq<nat>) -> Option<ChangeTextStyle> {
    if p.len() == 1 {
        single_style(p[0])
    } else if p.len() == 5 && p[1] == 2 && p[2] <= 255 && p[3] <= 255 && p[4] <= 255 {
        color_style(p[0], Rgb { r: p[2] as u8, g: p[3] as u8, b: p[4] as u8 })
    } else {
        None
    }
}

/// The characters from `@` to `~` end a marker.
pub open spec fn is_final_char(c: char) -> bool {
    '@' as u32 <= c as u32 && c as u32 <= '~' as u32
}

/// The marker at the start of `text`, which begins with the escape
/// character.
///
/// Without `[` behind it the escape character alone is skipped. Otherwise
/// the marker holds the parameter list and the final character behind it.
/// Where no final character stands behind the list, the marker ends with
/// the list.
pub open spec fn spec_marker(text: Seq<char>) -> Marker {
    if text.len() < 2 || text[1] != '[' {
        Marker { len: 1, style: None }
    } else {
        let end = param_end(text, 2);
        if end >= text.len() {
            Marker { len: text.len(), style: None }
        } else if !is_final_char(text[end]) {
            Marker { len: end as nat, style: None }
        } else if text[end] != 'm' {
            Marker { len: (end + 1) as nat, style: None }
        } else {
            Marker { len: (end + 1) as nat, style: sgr_style(params(text, end)) }
        }
    }
}

/// The parameter list ends behind its start and within the text.
pub proof fn lemma_param_end_bounds(text: Seq<char>, i: int)
    requires
        0 <= i <= text.len(),
    ensures
        i <= param_end(text, i) <= text.len(),
    decreases text.len() - i,
{
    if i < text.len() && is_param_char(text[i]) {
        lemma_param_end_bounds(text, i + 1);
    }
}

/// A marker takes at least the escape character and never more than the
/// text holds.
pub proof fn lemma_marker_len(text: Seq<char>)
    requires
        text.len() > 0,
    ensures
        1 <= spec_marker(text).len <= text.len(),
{
    if text.len() >= 2 {
        lemma_param_end_bounds(text, 2);
    }
}

/// The smaller of a parameter's value and [`PARAM_LIMIT`].
pub open spec fn capped(value: nat) -> u32 {
    if value < PARAM_LIMIT {
        value as u32
    } else {
        PARAM_LIMIT
    }
}

/// The parameter list while it is read: the first four closed parameters
/// and the open one, each capped, and the number of closed ones up to five.
struct ParamReader {
    closed: u8,
    first: u32,
    second: u32,
    third: u32,
    fourth: u32,
    open: u32,
}

impl ParamReader {
    /// Whether this reader holds `state` as far as a style depends on it.
    spec fn holds(&self, state: (Seq<nat>, nat)) -> bool {
        let done = state.0;
        &&& self.open == capped(state.1)
        &&& self.closed == if done.len() < 5 { done.len() as u8 } else { 5u8 }
        &&& done.len() >= 1 ==> self.first == capped(done[0])
        &&& done.len() >= 2 ==> self.second == capped(done[1])
        &&& done.len() >= 3 ==> self.third == capped(done[2])
        &&& done.len() >= 4 ==> self.fourth == capped(done[3])
    }

    fn new() -> (r: Self)
        ensures
            r.holds((Seq::empty(), 0)),
    {
        ParamReader { closed: 0, first: 0, second: 0, third: 0, fourth: 0, open: 0 }
    }

    /// Takes the character `c` of the parameter list into account.
    fn feed(&mut self, c: char, Ghost(state): Ghost<(Seq<nat>, nat)>)
        requires
            old(self).holds(state),
            is_param_char(c),
        ensures
            final(self).holds(
                if c == ';' {
                    (state.0.push(state.1), 0nat)
                } else {
                    (state.0, state.1 * 10 + (c as u32 - '0' as u32) as nat)
                },
            ),
    {
        if c == ';' {
            if self.closed == 0 {
                self.first = self.open;
            } else if self.closed == 1 {
                self.second = self.open;
            } else if self.closed == 2 {
                self.third = self.open;
            } else if self.closed == 3 {
                self.fourth = self.open;
            }
            if self.closed < 5 {
                self.closed = self.closed + 1;
            }
            self.open = 0;
        } else {
            let digit: u32 = c as u32 - '0' as u32;
            let value: u32 = self.open * 10 + digit;
            self.open = if value < PARAM_LIMIT {
                value
            } else {
                PARAM_LIMIT
            };
        }
    }

    /// The style change that the parameter list selects.
    fn style(&self, Ghost(state): Ghost<(Seq<nat>, nat)>) -> (r: Option<ChangeTextStyle>)
        requires
            self.holds(state),
        ensures
            r == sgr_style(state.0.push(state.1)),
    {
        if self.closed == 0 {
            single(self.open)
        } else if self.closed == 4 && self.second == 2 && self.third <= 255 && self.fourth <= 255
            && self.open <= 255 {
            let color = Rgb { r: self.third as u8, g: self.fourth as u8, b: self.open as u8 };
            colored(self.first, color)
        } else {
            None
        }
    }
}

/// One of the eight palette colors.
fn palette(index: u32) -> (c: Rgb)
    requires
        index < 8,
    ensures
        c == spec_palette(index as nat),
{
    let r: u8 = if index % 2 == 1 { 170 } else { 0 };
    let g: u8 = if (index / 2) % 2 == 1 { if index == 3 { 85 } else { 170 } } else { 0 };
    let b: u8 = if (index / 4) % 2 == 1 { 170 } else { 0 };
    Rgb { r, g, b }
}

fn single(code: u32) -> (r: Option<ChangeTextStyle>)
    requires
        code <= PARAM_LIMIT,
    ensures
        forall|value: nat| capped(value) == code ==> r == single_style(value),
{
    if code == 0 {
        Some(ChangeTextStyle::Reset)
    } else if code == 4 {
        Some(ChangeTextStyle::Underline(DecorationColor::TextColor))
    } else if code == 9 {
        Some(ChangeTextStyle::Strikethrough(DecorationColor::TextColor))
    } else if code == 24 {
        Some(ChangeTextStyle::Underline(DecorationColor::Off))
    } else if code == 29 {
        Some(ChangeTextStyle::Strikethrough(DecorationColor::Off))
    } else if 30 <= code && code <= 37 {
        Some(ChangeTextStyle::TextColor(Some(palette(code - 30))))
    } else if code == 39 {
        Some(ChangeTextStyle::TextColor(None))
    } else if 40 <= code && code <= 47 {
        Some(ChangeTextStyle::BackgroundColor(Some(palette(code - 40))))
    } else if code == 49 {
        Some(ChangeTextStyle::BackgroundColor(None))
    } else {
        None
    }
}

fn colored(code: u32, color: Rgb) -> (r: Option<ChangeTextStyle>)
    requires
        code <= PARAM_LIMIT,
    ensures
        forall|value: nat| capped(value) == code ==> r == color_style(value, color),
{
    if code == 38 {
        Some(ChangeTextStyle::TextColor(Some(color)))
    } else if code == 48 {
        Some(ChangeTextStyle::BackgroundColor(Some(color)))
    } else if code == 58 {
        Some(ChangeTextStyle::Underline(DecorationColor::Custom(color)))
    } else {
        None
    }
}

fn is_final(c: char) -> (b: bool)
    ensures
        b == is_final_char(c),
{
    '@' as u32 <= c as u32 && c as u32 <= '~' as u32
}

fn is_param(c: char) -> (b: bool)
    ensures
        b == is_param_char(c),
{
    c == ';' || ('0' as u32 <= c as u32 && c as u32 <= '9' as u32)
}

/// Reads the marker at the start of `text`, which holds `len` characters
/// and begins with the escape character: the number of characters that the
/// marker takes, and the style change that it asks for, if it is well
/// formed.
pub(crate) fn read_marker(text: &str, len: usize) -> (r: (usize, Option<ChangeTextStyle>))
    requires
        len == text@.len(),
        len > 0,
    ensures
        r.0 == spec_marker(text@).len,
        r.1 == spec_marker(text@).style,
        1 <= r.0 <= len,
{
    if len < 2 || text.get_char(1) != '[' {
        return (1, None);
    }
    let mut reader = ParamReader::new();
    let mut i: usize = 2;
    while i < len && is_param(text.get_char(i))
        invariant
            2 <= i <= len,
            len == text@.len(),
            param_end(text@, 2) == param_end(text@, i as int),
            reader.holds(param_state(text@, i as int)),
        decreases len - i,
    {
        reader.feed(text.get_char(i), Ghost(param_state(text@, i as int)));
        i = i + 1;
    }
    if i >= len {
        (len, None)
    } else if !is_final(text.get_char(i)) {
        (i, None)
    } else if text.get_char(i) != 'm' {
        (i + 1, None)
    } else {
        (i + 1, reader.style(Ghost(param_state(text@, i as int))))
    }
}

} // verus!
