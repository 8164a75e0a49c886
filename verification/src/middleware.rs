//! Middleware can change what a text box shows.
//!
//! A middleware stands between the parser and the layout: every token
//! passes through it, and it is told when a line starts and what has been
//! drawn where.

use crate::geometry::Point;
use crate::geometry::Rectangle;
use crate::parser::lemma_step_progress;
use crate::parser::scan;
use crate::parser::scan_step;
use crate::parser::token_view;
use crate::parser::tokens_of;
use crate::parser::Parser;
use crate::parser::Token;
use crate::parser::TokenView;
use vstd::prelude::*;

verus! {

/// The pass that a line is in.
#[derive(Clone, Copy, Debug, PartialEq, Eq, Hash, Structural)]
pub enum ProcessingState {
    /// The line is laid out to find its width. Nothing is drawn.
    Measure,
    /// The line is laid out again and drawn.
    Render,
}

/// Taking a token off the front of a token stream: `token` is the first of
/// `before`, and `after` is what follows it. From an empty stream nothing
/// comes, and it stays empty.
pub open spec fn pops(before: Seq<TokenView>, token: Option<TokenView>, after: Seq<TokenView>) -> bool {
    if before.len() == 0 {
        token is None && after.len() == 0
    } else {
        token == Some(before[0]) && after == before.drop_first()
    }
}

/// Something that a middleware is told.
pub enum Notification {
    /// A new line is started.
    NewLine,
    /// The line that is about to be drawn starts at this position.
    LineStart(Point),
    /// This text has been drawn in this area; or, without a text, the
    /// text has ended at the area's place.
    Rendered(Option<Seq<char>>, Rectangle),
}

/// The hooks through which a text box can be changed.
///
/// A line is laid out twice, once to measure it and once to render it, and
/// both passes have to see the same tokens. So a middleware says up front,
/// with `upcoming`, which tokens it will hand out for a given rest of the
/// text, and each of the two token hooks hands out the first of them. The
/// other hooks are notifications: they may change what the middleware
/// remembers, but not the tokens that are still to come.
///
/// A middleware keeps two records, which only its hooks extend: `heard`,
/// of what it was told, and `asked`, of the passes that it was asked a
/// token for. What the layout promises of the calls of the hooks, it
/// promises over these records.
///
/// The specification functions have bodies so that an implementor which
/// Verus does not check can leave them out. Those bodies say nothing true
/// of such an implementor: with them it could not meet the contracts of
/// the hooks, which add to the records. Nothing holds such an implementor
/// to the contracts, and what is proved of the layout is proved of
/// middleware that meets them.
pub trait Middleware<'a>: Sized {
    /// The tokens that this middleware hands out, in order, when the
    /// parser has `text` left to read: by default the tokens of `text`.
    open spec fn upcoming(&self, text: Seq<char>) -> Seq<TokenView> {
        tokens_of(text)
    }

    /// What this middleware was told so far, in order: one entry for
    /// each call of `new_line`, `post_line_start` and `post_render`.
    open spec fn heard(&self) -> Seq<Notification> {
        Seq::empty()
    }

    /// The passes that this middleware was asked a token for so far, in
    /// order: one entry for each call of `next_token_to_measure` and
    /// `next_token_to_render`.
    open spec fn asked(&self) -> Seq<ProcessingState> {
        Seq::empty()
    }

    /// A copy of this middleware, for laying out a line ahead of time
    /// while this one stays as it is.
    fn duplicate(&self) -> (copy: Self)
        ensures
            copy == *self,
    ;

    /// Called when a new line is started.
    fn new_line(&mut self)
        ensures
            final(self).heard() == old(self).heard().push(Notification::NewLine),
            final(self).asked() == old(self).asked(),
            forall|text: Seq<char>| #[trigger] final(self).upcoming(text) == old(self).upcoming(text),
    ;

    /// Hands out the next token of the measuring pass.
    fn next_token_to_measure(&mut self, parser: &mut Parser<'a>) -> (token: Option<Token<'a>>)
        ensures
            pops(
                old(self).upcoming(old(parser)@),
                token_view(token),
                final(self).upcoming(final(parser)@),
            ),
            final(self).asked() == old(self).asked().push(ProcessingState::Measure),
            final(self).heard() == old(self).heard(),
    ;

    /// Hands out the next token of the rendering pass.
    fn next_token_to_render(&mut self, parser: &mut Parser<'a>) -> (token: Option<Token<'a>>)
        ensures
            pops(
                old(self).upcoming(old(parser)@),
                token_view(token),
                final(self).upcoming(final(parser)@),
            ),
            final(self).asked() == old(self).asked().push(ProcessingState::Render),
            final(self).heard() == old(self).heard(),
    ;

    /// Called after a piece of text or whitespace has been placed, with
    /// the area that it takes; and once at the end of the text, without a
    /// text and with an area of no width.
    fn post_render(&mut self, text: Option<&str>, bounds: Rectangle)
        ensures
            final(self).heard() == old(self).heard().push(
                Notification::Rendered(
                    match text {
                        Some(t) => Some(t@),
                        None => None,
                    },
                    bounds,
                ),
            ),
            final(self).asked() == old(self).asked(),
            forall|t: Seq<char>| #[trigger] final(self).upcoming(t) == old(self).upcoming(t),
    ;

    /// Called when the position at which a line starts is known.
    fn post_line_start(&mut self, pos: Point)
        ensures
            final(self).heard() == old(self).heard().push(Notification::LineStart(pos)),
            final(self).asked() == old(self).asked(),
            forall|t: Seq<char>| #[trigger] final(self).upcoming(t) == old(self).upcoming(t),
    ;
}

/// A middleware that changes nothing. It hands out the tokens of the
/// text as they are, and keeps the two records.
#[derive(Clone, Copy)]
pub struct NoMiddleware {
    heard: Ghost<Seq<Notification>>,
    asked: Ghost<Seq<ProcessingState>>,
}

impl NoMiddleware {
    /// A middleware that was told nothing and asked nothing yet.
    pub fn new() -> (r: Self)
        ensures
            r.heard() == Seq::<Notification>::empty(),
            r.asked() == Seq::<ProcessingState>::empty(),
    {
        NoMiddleware { heard: Ghost(Seq::empty()), asked: Ghost(Seq::empty()) }
    }
}

impl Default for NoMiddleware {
    fn default() -> (r: Self)
        ensures
            r.heard() == Seq::<Notification>::empty(),
            r.asked() == Seq::<ProcessingState>::empty(),
    {
        NoMiddleware::new()
    }
}

/// Where a token comes out of `scan`, the text gets shorter; and where
/// none comes out, nothing is left of the text.
pub proof fn lemma_scan_progress(text: Seq<char>)
    ensures
        scan(text).0 is Some ==> scan(text).1.len() < text.len(),
        scan(text).0 is None ==> scan(text).1.len() == 0,
        scan(text).1.len() <= text.len(),
    decreases text.len(),
{
    if text.len() > 0 {
        lemma_step_progress(text);
        if scan_step(text).0 is Err {
            lemma_scan_progress(scan_step(text).1);
        }
    }
}

/// Reading one token takes the first of the text's tokens and leaves the
/// tokens of the rest.
pub proof fn lemma_scan_pops(text: Seq<char>)
    ensures
        pops(tokens_of(text), scan(text).0, tokens_of(scan(text).1)),
{
    lemma_scan_progress(text);
    let s = scan(text);
    if s.0 is Some {
        assert(tokens_of(text).drop_first() =~= tokens_of(s.1));
    } else {
        assert(tokens_of(s.1).len() == 0);
    }
}

impl<'a> Middleware<'a> for NoMiddleware {
    closed spec fn heard(&self) -> Seq<Notification> {
        self.heard@
    }

    closed spec fn asked(&self) -> Seq<ProcessingState> {
        self.asked@
    }

    fn duplicate(&self) -> (copy: Self) {
        NoMiddleware { heard: self.heard, asked: self.asked }
    }

    fn new_line(&mut self) {
        self.heard = Ghost(self.heard@.push(Notification::NewLine));
    }

    fn next_token_to_measure(&mut self, parser: &mut Parser<'a>) -> (token: Option<Token<'a>>) {
        proof {
            lemma_scan_pops(parser@);
        }
        self.asked = Ghost(self.asked@.push(ProcessingState::Measure));
        parser.next()
    }

    fn next_token_to_render(&mut self, parser: &mut Parser<'a>) -> (token: Option<Token<'a>>) {
        proof {
            lemma_scan_pops(parser@);
        }
        self.asked = Ghost(self.asked@.push(ProcessingState::Render));
        parser.next()
    }

    fn post_render(&mut self, text: Option<&str>, bounds: Rectangle) {
        self.heard = Ghost(
            self.heard@.push(
                Notification::Rendered(
                    match text {
                        Some(t) => Some(t@),
                        None => None,
                    },
                    bounds,
                ),
            ),
        );
    }

    fn post_line_start(&mut self, pos: Point) {
        self.heard = Ghost(self.heard@.push(Notification::LineStart(pos)));
    }
}

/// A middleware together with the look-ahead of the two passes.
///
/// Each pass looks one token ahead. The token that a pass has seen but not
/// yet taken waits in that pass's own slot, so that the passes do not
/// disturb each other.
pub struct MiddlewareWrapper<'a, M> {
    pub middleware: M,
    state: ProcessingState,
    measurement_token: Option<Token<'a>>,
    render_token: Option<Token<'a>>,
}

impl<'a, M: Middleware<'a>> MiddlewareWrapper<'a, M> {
    /// The pass that the wrapper is in.
    pub closed spec fn spec_state(&self) -> ProcessingState {
        self.state
    }

    /// The middleware in the wrapper.
    pub closed spec fn inner(&self) -> M {
        self.middleware
    }

    /// What the middleware was told so far, in order: its own record.
    pub open spec fn told(&self) -> Seq<Notification> {
        self.inner().heard()
    }

    /// The passes that the middleware was asked a token for so far, in
    /// order: its own record.
    pub open spec fn asked(&self) -> Seq<ProcessingState> {
        self.inner().asked()
    }

    /// The token that waits in the slot of the given pass.
    pub closed spec fn slot_of(&self, state: ProcessingState) -> Option<TokenView> {
        match state {
            ProcessingState::Measure => token_view(self.measurement_token),
            ProcessingState::Render => token_view(self.render_token),
        }
    }

    /// The token that waits in the slot of the current pass.
    pub open spec fn slot(&self) -> Option<TokenView> {
        self.slot_of(self.spec_state())
    }

    /// The tokens that the given pass gets, in order, when the parser has
    /// `text` left to read: first the one that waits in its slot, then
    /// those of the middleware.
    pub open spec fn upcoming_in(&self, state: ProcessingState, text: Seq<char>) -> Seq<TokenView> {
        match self.slot_of(state) {
            Some(t) => seq![t] + self.inner().upcoming(text),
            None => self.inner().upcoming(text),
        }
    }

    /// The tokens that the current pass gets when the parser has `text`
    /// left to read.
    pub open spec fn upcoming(&self, text: Seq<char>) -> Seq<TokenView> {
        self.upcoming_in(self.spec_state(), text)
    }

    /// Wraps a middleware. The wrapper starts in the measuring pass with
    /// both slots empty.
    pub fn new(middleware: M) -> (r: Self)
        ensures
            r.inner() == middleware,
            r.spec_state() == ProcessingState::Measure,
            r.slot_of(ProcessingState::Measure) is None,
            r.slot_of(ProcessingState::Render) is None,
    {
        MiddlewareWrapper {
            middleware,
            state: ProcessingState::Measure,
            measurement_token: None,
            render_token: None,
        }
    }

    /// Tells the middleware that a new line starts.
    pub fn new_line(&mut self)
        ensures
            final(self).asked() == old(self).asked(),
            final(self).told() == old(self).told().push(Notification::NewLine),
            final(self).spec_state() == old(self).spec_state(),
            forall|s: ProcessingState| final(self).slot_of(s) == old(self).slot_of(s),
            forall|text: Seq<char>| #[trigger]
                final(self).inner().upcoming(text) == old(self).inner().upcoming(text),
    {
        self.middleware.new_line();
    }

    /// Tells the middleware what has been drawn and where. Nothing is told
    /// of what was not drawn, which has no area.
    pub fn post_render(&mut self, text: Option<&str>, area: Option<Rectangle>)
        ensures
            final(self).asked() == old(self).asked(),
            final(self).told() == match area {
                Some(bounds) => old(self).told().push(
                    Notification::Rendered(
                        match text {
                            Some(t) => Some(t@),
                            None => None,
                        },
                        bounds,
                    ),
                ),
                None => old(self).told(),
            },
            final(self).spec_state() == old(self).spec_state(),
            forall|s: ProcessingState| final(self).slot_of(s) == old(self).slot_of(s),
            forall|text: Seq<char>| #[trigger]
                final(self).inner().upcoming(text) == old(self).inner().upcoming(text),
    {
        if let Some(bounds) = area {
            self.middleware.post_render(text, bounds);
        }
    }

    /// Tells the middleware where the line starts that is about to be
    /// drawn.
    pub fn post_line_start(&mut self, pos: Point)
        ensures
            final(self).asked() == old(self).asked(),
            final(self).told() == old(self).told().push(Notification::LineStart(pos)),
            final(self).spec_state() == old(self).spec_state(),
            forall|s: ProcessingState| final(self).slot_of(s) == old(self).slot_of(s),
            forall|text: Seq<char>| #[trigger]
                final(self).inner().upcoming(text) == old(self).inner().upcoming(text),
    {
        self.middleware.post_line_start(pos);
    }

    /// A copy of this wrapper: the same pass, the same waiting tokens and
    /// a copy of the middleware.
    pub fn duplicate(&self) -> (copy: Self)
        ensures
            copy == *self,
    {
        MiddlewareWrapper {
            middleware: self.middleware.duplicate(),
            state: self.state,
            measurement_token: self.measurement_token,
            render_token: self.render_token,
        }
    }

    /// A copy of this wrapper for measuring the line that the rendering
    /// pass lays out next: it is in the measuring pass, and the token
    /// that waits for the rendering pass waits for it as well, so that the
    /// copy hands out the tokens that the rendering pass will get.
    pub fn measure_copy(&self) -> (copy: Self)
        ensures
            copy.spec_state() == ProcessingState::Measure,
            copy.inner() == self.inner(),
            copy.slot() == self.slot_of(ProcessingState::Render),
            forall|text: Seq<char>| #[trigger]
                copy.upcoming(text) == self.upcoming_in(ProcessingState::Render, text),
    {
        MiddlewareWrapper {
            middleware: self.middleware.duplicate(),
            state: ProcessingState::Measure,
            measurement_token: self.render_token,
            render_token: self.render_token,
        }
    }

    /// Switches to the given pass.
    pub fn set_state(&mut self, state: ProcessingState)
        ensures
            final(self).asked() == old(self).asked(),
            final(self).told() == old(self).told(),
            final(self).spec_state() == state,
            final(self).inner() == old(self).inner(),
            forall|s: ProcessingState| final(self).slot_of(s) == old(self).slot_of(s),
    {
        self.state = state;
    }

    /// The pass that the wrapper is in.
    pub fn state(&self) -> (state: ProcessingState)
        ensures
            state == self.spec_state(),
    {
        self.state
    }

    /// The slot of the current pass.
    pub fn current_token_ref(&mut self) -> (slot: &mut Option<Token<'a>>)
        ensures
            final(self).asked() == old(self).asked(),
            final(self).told() == old(self).told(),
            token_view(*slot) == old(self).slot(),
            final(self).slot() == token_view(*final(slot)),
            final(self).spec_state() == old(self).spec_state(),
            final(self).inner() == old(self).inner(),
            forall|s: ProcessingState|
                s != old(self).spec_state() ==> final(self).slot_of(s) == old(self).slot_of(s),
    {
        match self.state {
            ProcessingState::Measure => &mut self.measurement_token,
            ProcessingState::Render => &mut self.render_token,
        }
    }

    /// Takes the next token of the current pass from the middleware, by
    /// the hook of that pass. The slots are left alone.
    pub fn next_token(&mut self, parser: &mut Parser<'a>) -> (token: Option<Token<'a>>)
        ensures
            final(self).asked() == old(self).asked().push(old(self).spec_state()),
            final(self).told() == old(self).told(),
            pops(
                old(self).inner().upcoming(old(parser)@),
                token_view(token),
                final(self).inner().upcoming(final(parser)@),
            ),
            final(self).spec_state() == old(self).spec_state(),
            forall|s: ProcessingState| final(self).slot_of(s) == old(self).slot_of(s),
    {
        match self.state {
            ProcessingState::Measure => self.middleware.next_token_to_measure(parser),
            ProcessingState::Render => self.middleware.next_token_to_render(parser),
        }
    }

    /// Shows the next token of the current pass without taking it: the
    /// token in the slot if there is one, else the next one from the
    /// middleware, asked for by the hook of the pass, which then waits in
    /// the slot.
    pub fn peek_token(&mut self, parser: &mut Parser<'a>) -> (token: Option<Token<'a>>)
        ensures
            final(self).asked() == if old(self).slot() is None {
                old(self).asked().push(old(self).spec_state())
            } else {
                old(self).asked()
            },
            final(self).told() == old(self).told(),
            final(self).upcoming(final(parser)@) == old(self).upcoming(old(parser)@),
            token_view(token) == if old(self).upcoming(old(parser)@).len() > 0 {
                Some(old(self).upcoming(old(parser)@)[0])
            } else {
                None
            },
            final(self).slot() == token_view(token),
            final(self).spec_state() == old(self).spec_state(),
            forall|s: ProcessingState|
                s != old(self).spec_state() ==> final(self).slot_of(s) == old(self).slot_of(s),
            old(self).slot() is Some ==> final(self).inner() == old(self).inner()
                && final(parser)@ == old(parser)@,
    {
        if self.current_token_ref().is_none() {
            let token = self.next_token(parser);
            *self.current_token_ref() = token;
            assert(self.upcoming(parser@) =~= old(self).upcoming(old(parser)@));
        }
        *self.current_token_ref()
    }

    /// Takes the token that waits in the slot of the current pass.
    pub fn consume_peeked_token(&mut self)
        ensures
            final(self).asked() == old(self).asked(),
            final(self).told() == old(self).told(),
            final(self).slot() is None,
            final(self).spec_state() == old(self).spec_state(),
            final(self).inner() == old(self).inner(),
            forall|s: ProcessingState|
                s != old(self).spec_state() ==> final(self).slot_of(s) == old(self).slot_of(s),
    {
        let _ = self.current_token_ref().take();
    }

    /// Puts `token` into the slot of the current pass, in place of what
    /// waits there.
    pub fn replace_peeked_token(&mut self, token: Token<'a>)
        ensures
            final(self).asked() == old(self).asked(),
            final(self).told() == old(self).told(),
            final(self).slot() == Some(token@),
            final(self).spec_state() == old(self).spec_state(),
            final(self).inner() == old(self).inner(),
            forall|s: ProcessingState|
                s != old(self).spec_state() ==> final(self).slot_of(s) == old(self).slot_of(s),
    {
        *self.current_token_ref() = Some(token);
    }
}

/// Whether a middleware was asked for tokens in one pass only between two
/// moments: its record has grown from `before` to `after`, and by entries
/// for `pass` alone.
pub open spec fn asked_in_pass(
    before: Seq<ProcessingState>,
    after: Seq<ProcessingState>,
    pass: ProcessingState,
) -> bool {
    &&& before.len() <= after.len()
    &&& after.take(before.len() as int) == before
    &&& forall|i: int| before.len() <= i < after.len() ==> after[i] == pass
}

/// A middleware that was not asked was asked in one pass only.
pub proof fn lemma_not_asked(asked: Seq<ProcessingState>, pass: ProcessingState)
    ensures
        asked_in_pass(asked, asked, pass),
{
    assert(asked.take(asked.len() as int) =~= asked);
}

/// A middleware that was asked in one pass only up to some moment, and
/// from then on, was asked in that pass only all along.
pub proof fn lemma_asked_on(
    before: Seq<ProcessingState>,
    between: Seq<ProcessingState>,
    after: Seq<ProcessingState>,
    pass: ProcessingState,
)
    requires
        asked_in_pass(before, between, pass),
        asked_in_pass(between, after, pass),
    ensures
        asked_in_pass(before, after, pass),
{
    assert(after.take(before.len() as int) =~= after.take(between.len() as int).take(
        before.len() as int,
    ));
    assert forall|i: int| before.len() <= i < after.len() implies after[i] == pass by {
        if i < between.len() {
            assert(after.take(between.len() as int)[i] == between[i]);
        }
    }
}

/// The tokens that come out of a stream when the first is taken again
/// and again until none is left.
pub open spec fn taken_one_by_one(stream: Seq<TokenView>) -> Seq<TokenView>
    decreases stream.len(),
{
    if stream.len() == 0 {
        Seq::empty()
    } else {
        seq![stream[0]] + taken_one_by_one(stream.drop_first())
    }
}

/// The look-ahead neither drops, repeats nor reorders tokens: a pass that
/// looks at the next token and takes it, again and again until none is
/// left, gets the upcoming tokens, each once and in order. That holds in
/// either pass, and a copy for measuring gets what the rendering pass
/// gets.
pub proof fn lemma_taken_one_by_one(stream: Seq<TokenView>)
    ensures
        taken_one_by_one(stream) == stream,
    decreases stream.len(),
{
    if stream.len() > 0 {
        lemma_taken_one_by_one(stream.drop_first());
        assert(seq![stream[0]] + stream.drop_first() =~= stream);
    } else {
        assert(stream =~= Seq::empty());
    }
}

} // verus!
