//! The backtracking parser-state engine.
//!
//! A [`ParserState`] wraps a fixed token stream and a cursor, and offers the
//! primitives a recursive-descent grammar needs: peek, eat, require-kind,
//! skip-while-kind, and the [`ParserState::parse`] combinator.  `parse` first
//! skips the configured trivia kinds, then runs a parsing unit against an
//! isolated copy of the state and commits the copy's cursor only if the unit
//! completes without failing; a failing unit leaves the outer cursor exactly
//! where it was.

use vstd::prelude::*;
use crate::ast::Node;
use crate::token::TokenData;

verus! {

broadcast use vstd::std_specs::vec::group_vec_axioms;

/// A required token's kind was outside the expected set.
#[derive(Debug, PartialEq, Eq)]
pub struct ParseError {
    /// The kinds that would have been accepted.
    pub expected: Vec<u32>,
    /// The kind that was found.
    pub found: u32,
}

impl Clone for ParseError {
    fn clone(&self) -> (r: Self)
        ensures
            r.expected@ == self.expected@,
            r.found == self.found,
    {
        let mut expected: Vec<u32> = Vec::new();
        let mut i: usize = 0;
        while i < self.expected.len()
            invariant
                i <= self.expected@.len(),
                expected@ =~= self.expected@.subrange(0, i as int),
            decreases self.expected@.len() - i,
        {
            expected.push(self.expected[i]);
            i = i + 1;
        }
        proof {
            assert(expected@ =~= self.expected@);
        }
        Self { expected, found: self.found }
    }
}

/// A parsing unit: anything that can be run against a parser state to
/// produce a node.  Units compose by invoking each other through
/// [`ParserState::parse`].  A unit leaves the token stream and the skip set
/// untouched and never moves the cursor backwards.
pub trait Parser {
    fn parse(&self, state: &mut ParserState) -> (r: Result<Node, ParseError>)
        requires
            old(state).wf(),
        ensures
            final(state).wf(),
            final(state).tokens_view() == old(state).tokens_view(),
            final(state).skips_view() == old(state).skips_view(),
            old(state).cursor() <= final(state).cursor(),
    ;
}

/// The cursor after skipping every leading token whose kind is in `kinds`,
/// starting from `i`.
pub open spec fn skip_target(tokens: Seq<TokenData>, kinds: Seq<u32>, i: int) -> int
    decreases tokens.len() - i,
{
    if 0 <= i < tokens.len() && kinds.contains(tokens[i].kind) {
        skip_target(tokens, kinds, i + 1)
    } else {
        i
    }
}

fn contains_kind(kinds: &Vec<u32>, k: u32) -> (r: bool)
    ensures
        r == kinds@.contains(k),
{
    let mut i: usize = 0;
    while i < kinds.len()
        invariant
            i <= kinds@.len(),
            forall|j: int| 0 <= j < i ==> kinds@[j] != k,
        decreases kinds@.len() - i,
    {
        if kinds[i] == k {
            return true;
        }
        i = i + 1;
    }
    false
}

/// A token stream, the trivia kinds to auto-skip before each `parse` call,
/// and a cursor.  The stream and the skip set are fixed for the state's
/// lifetime; only the cursor moves.
#[derive(Debug)]
pub struct ParserState {
    pub skip_kinds: Vec<u32>,
    pub tokens: Vec<TokenData>,
    index: usize,
}

impl Clone for ParserState {
    fn clone(&self) -> (r: Self)
        ensures
            r.tokens_view() == self.tokens_view(),
            r.skips_view() == self.skips_view(),
            r.cursor() == self.cursor(),
            r.wf() == self.wf(),
    {
        let mut tokens: Vec<TokenData> = Vec::new();
        let mut i: usize = 0;
        while i < self.tokens.len()
            invariant
                i <= self.tokens@.len(),
                tokens@ =~= self.tokens@.subrange(0, i as int),
            decreases self.tokens@.len() - i,
        {
            tokens.push(self.tokens[i].clone());
            i = i + 1;
        }
        let mut skip_kinds: Vec<u32> = Vec::new();
        let mut j: usize = 0;
        while j < self.skip_kinds.len()
            invariant
                j <= self.skip_kinds@.len(),
                skip_kinds@ =~= self.skip_kinds@.subrange(0, j as int),
            decreases self.skip_kinds@.len() - j,
        {
            skip_kinds.push(self.skip_kinds[j]);
            j = j + 1;
        }
        proof {
            assert(tokens@ =~= self.tokens@);
            assert(skip_kinds@ =~= self.skip_kinds@);
        }
        Self { skip_kinds, tokens, index: self.index }
    }
}

impl ParserState {
    /// The cursor into the token stream.
    pub closed spec fn cursor(self) -> usize {
        self.index
    }

    /// The token stream.
    pub closed spec fn tokens_view(self) -> Seq<TokenData> {
        self.tokens@
    }

    /// The trivia kinds that `parse` skips.
    pub closed spec fn skips_view(self) -> Seq<u32> {
        self.skip_kinds@
    }

    /// The cursor never leaves the stream: `0 <= cursor <= tokens.len()`.
    pub open spec fn wf(self) -> bool {
        self.cursor() <= self.tokens_view().len()
    }

    pub fn new(tokens: Vec<TokenData>, skip_kinds: Option<Vec<u32>>) -> (r: Self)
        ensures
            r.wf(),
            r.tokens_view() == tokens@,
            r.skips_view() == match skip_kinds {
                Some(k) => k@,
                None => Seq::<u32>::empty(),
            },
            r.cursor() == 0,
    {
        let skips = match skip_kinds {
            Some(k) => k,
            None => Vec::new(),
        };
        Self { skip_kinds: skips, tokens, index: 0 }
    }

    /// Runs `parser` against an isolated copy of this state, after skipping
    /// the configured trivia kinds.  If the unit succeeds, the returned node
    /// is the unit's node and the outer cursor is replaced by the copy's
    /// resulting cursor (the commit), so the outer state advances by exactly
    /// what the copy consumed; if the unit fails, the outer cursor is left
    /// exactly where it was and the failure propagates.
    pub fn parse<P: Parser>(&mut self, parser: P) -> (r: Result<Node, ParseError>)
        requires
            old(self).wf(),
        ensures
            final(self).wf(),
            final(self).tokens_view() == old(self).tokens_view(),
            final(self).skips_view() == old(self).skips_view(),
            r is Err ==> final(self).cursor() == old(self).cursor(),
            r is Ok ==> skip_target(
                old(self).tokens_view(),
                old(self).skips_view(),
                old(self).cursor() as int,
            ) <= final(self).cursor() <= old(self).tokens_view().len(),
            r matches Ok(node) ==> (exists|m: &mut ParserState|
                (*m).tokens_view() == old(self).tokens_view()
                    && (*m).skips_view() == old(self).skips_view()
                    && (*m).cursor() as int == skip_target(
                    old(self).tokens_view(),
                    old(self).skips_view(),
                    old(self).cursor() as int,
                ) && #[trigger] call_ensures(P::parse, (&parser, m), Ok::<Node, ParseError>(node))
                    && final(self).cursor() == final(m).cursor()),
            r matches Err(e) ==> (exists|m: &mut ParserState|
                (*m).tokens_view() == old(self).tokens_view()
                    && (*m).skips_view() == old(self).skips_view()
                    && (*m).cursor() as int == skip_target(
                    old(self).tokens_view(),
                    old(self).skips_view(),
                    old(self).cursor() as int,
                ) && #[trigger] call_ensures(P::parse, (&parser, m), Err::<Node, ParseError>(e))),
    {
        let entry = self.index;
        let kinds = self.skip_kinds.clone();
        proof {
            assert(kinds@ =~= self.skip_kinds@);
        }
        self.skip_until_found(kinds);
        let mut sandbox = self.clone();
        let result = parser.parse(&mut sandbox);
        match result {
            Ok(node) => {
                self.index = sandbox.index;
                Ok(node)
            }
            Err(e) => {
                self.index = entry;
                Err(e)
            }
        }
    }

    /// Returns the current token after advancing past it, or the parse error
    /// if its kind is not in `kinds`; the error names the expected kinds and
    /// the kind found, and leaves the cursor unmoved.
    pub fn require(&mut self, kinds: Vec<u32>) -> (r: Result<TokenData, ParseError>)
        requires
            old(self).wf(),
            old(self).cursor() < old(self).tokens_view().len(),
        ensures
            final(self).wf(),
            final(self).tokens_view() == old(self).tokens_view(),
            final(self).skips_view() == old(self).skips_view(),
            kinds@.contains(old(self).tokens_view()[old(self).cursor() as int].kind) ==> {
                &&& r matches Ok(t) && t == old(self).tokens_view()[old(self).cursor() as int]
                &&& final(self).cursor() == old(self).cursor() + 1
            },
            !kinds@.contains(old(self).tokens_view()[old(self).cursor() as int].kind) ==> {
                &&& r matches Err(e) && e.expected@ == kinds@
                    && e.found == old(self).tokens_view()[old(self).cursor() as int].kind
                &&& final(self).cursor() == old(self).cursor()
            },
    {
        let token_kind = self.tokens[self.index].kind;
        if !contains_kind(&kinds, token_kind) {
            return Err(ParseError { expected: kinds, found: token_kind });
        }
        Ok(self.eat())
    }

    /// Whether the current token's kind is in `kinds`; false at the end of
    /// the stream.
    pub fn is_kind(&self, kinds: Vec<u32>) -> (r: bool)
        requires
            self.wf(),
        ensures
            r == (self.cursor() < self.tokens_view().len()
                && kinds@.contains(self.tokens_view()[self.cursor() as int].kind)),
    {
        if self.index >= self.tokens.len() {
            return false;
        }
        contains_kind(&kinds, self.tokens[self.index].kind)
    }

    /// The current token, without advancing.
    pub fn peek(&self) -> (r: TokenData)
        requires
            self.wf(),
            self.cursor() < self.tokens_view().len(),
        ensures
            r == self.tokens_view()[self.cursor() as int],
    {
        self.tokens[self.index].clone()
    }

    /// The current token, advancing the cursor past it.
    pub fn eat(&mut self) -> (r: TokenData)
        requires
            old(self).wf(),
            old(self).cursor() < old(self).tokens_view().len(),
        ensures
            final(self).wf(),
            final(self).tokens_view() == old(self).tokens_view(),
            final(self).skips_view() == old(self).skips_view(),
            final(self).cursor() == old(self).cursor() + 1,
            r == old(self).tokens_view()[old(self).cursor() as int],
    {
        let _n: usize = self.tokens.len();
        self.index = self.index + 1;
        self.tokens[self.index - 1].clone()
    }

    /// Advances past the run of tokens whose kind is in `kinds`.
    pub fn skip_until_found(&mut self, kinds: Vec<u32>)
        requires
            old(self).wf(),
        ensures
            final(self).wf(),
            final(self).tokens_view() == old(self).tokens_view(),
            final(self).skips_view() == old(self).skips_view(),
            final(self).cursor() == skip_target(
                old(self).tokens_view(),
                kinds@,
                old(self).cursor() as int,
            ),
    {
        let mut stopped = false;
        while !stopped
            invariant
                self.wf(),
                self.tokens@ == old(self).tokens@,
                self.skip_kinds@ == old(self).skip_kinds@,
                skip_target(self.tokens@, kinds@, self.index as int) == skip_target(
                    old(self).tokens@,
                    kinds@,
                    old(self).cursor() as int,
                ),
                stopped ==> self.index == self.tokens@.len()
                    || !kinds@.contains(self.tokens@[self.index as int].kind),
            decreases self.tokens@.len() - self.index, if stopped { 0int } else { 1int },
        {
            if self.index < self.tokens.len() {
                let k = self.tokens[self.index].kind;
                if contains_kind(&kinds, k) {
                    self.index = self.index + 1;
                } else {
                    stopped = true;
                }
            } else {
                stopped = true;
            }
        }
    }

    /// Whether the cursor has consumed the whole stream.
    pub fn is_at_end(&self) -> (r: bool)
        requires
            self.wf(),
        ensures
            r == (self.cursor() == self.tokens_view().len()),
    {
        self.index >= self.tokens.len()
    }
}

} // verus!
