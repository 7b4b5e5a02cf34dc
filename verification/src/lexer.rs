//! The lexer driver.
//!
//! A [`Lexer`] holds an ordered list of [`Token`] patterns, an input buffer,
//! and a byte cursor.  [`Lexer::next`] tries the patterns in order at the
//! cursor and accepts the first one that matches, even if a later pattern
//! would match more: first match wins.  The produced [`TokenData`] carries
//! the matched text and its byte span; consecutive tokens tile the input
//! with no gaps and no overlaps.  If input remains and no pattern matches,
//! lexing fails with a [`LexError`] carrying the offending character and the
//! (best-effort) line and column counters.

use vstd::prelude::*;
use vstd::utf8::{
    encode_utf8, decode_utf8, is_char_boundary, encode_utf8_valid_utf8, encode_utf8_decode_utf8,
};
use crate::token::{Token, TokenData, check_spec};
use crate::text::{lemma_encode_utf8_len, lemma_char_boundary_compose};

verus! {

broadcast use vstd::slice::group_slice_axioms;

/// No pattern matched the remaining input.
#[derive(Debug, Clone, Copy, PartialEq, Eq, Structural)]
pub struct LexError {
    /// The first unmatched character.
    pub character: char,
    /// Line counter at the point of failure.
    pub line: usize,
    /// Column counter at the point of failure.
    pub column: usize,
}

/// The first pattern in `patterns` that matches a prefix of `text`, with its
/// answer: `Some((i, m))` means pattern `i` matched and `m` is the last
/// matched byte index; earlier patterns do not match.
pub open spec fn first_match(patterns: Seq<Token>, text: Seq<char>) -> Option<(int, usize)>
    decreases patterns.len(),
{
    if patterns.len() == 0 {
        None
    } else {
        match check_spec(patterns[0], text) {
            Some(m) => Some((0int, m)),
            None => match first_match(patterns.drop_first(), text) {
                Some(im) => Some((im.0 + 1, im.1)),
                None => None,
            },
        }
    }
}

/// First match wins: if pattern `i` matches and every earlier pattern does
/// not, pattern `i` is the one that classifies the token, even if a later
/// pattern would also match.
pub proof fn lemma_first_match_at(patterns: Seq<Token>, text: Seq<char>, i: int, m: usize)
    requires
        0 <= i < patterns.len(),
        forall|j: int| 0 <= j < i ==> check_spec(#[trigger] patterns[j], text) is None,
        check_spec(patterns[i], text) == Some(m),
    ensures
        first_match(patterns, text) == Some((i, m)),
    decreases i,
{
    if i == 0 {
    } else {
        assert(forall|j: int| 0 <= j < i - 1 ==> patterns.drop_first()[j] == patterns[j + 1]);
        lemma_first_match_at(patterns.drop_first(), text, i - 1, m);
    }
}

proof fn lemma_first_match_bounds(patterns: Seq<Token>, text: Seq<char>)
    ensures
        first_match(patterns, text) matches Some(im) ==> 0 <= im.0 < patterns.len()
            && check_spec(patterns[im.0], text) == Some(im.1),
    decreases patterns.len(),
{
    if patterns.len() > 0 && check_spec(patterns[0], text) is None {
        lemma_first_match_bounds(patterns.drop_first(), text);
    }
}

/// When no pattern matches, the pattern list produces nothing.
pub proof fn lemma_first_match_none(patterns: Seq<Token>, text: Seq<char>)
    requires
        forall|j: int| 0 <= j < patterns.len() ==> check_spec(#[trigger] patterns[j], text) is None,
    ensures
        first_match(patterns, text) is None,
    decreases patterns.len(),
{
    if patterns.len() > 0 {
        assert(forall|j: int| 0 <= j < patterns.len() - 1
            ==> patterns.drop_first()[j] == patterns[j + 1]);
        lemma_first_match_none(patterns.drop_first(), text);
    }
}

/// The diagnostic column for a byte cursor: one past the bytes consumed.
pub open spec fn column_after(cur: int) -> int {
    if cur < usize::MAX {
        cur + 1
    } else {
        cur
    }
}

fn col_of(cur: usize) -> (r: usize)
    ensures
        r == column_after(cur as int),
{
    if cur < usize::MAX {
        cur + 1
    } else {
        cur
    }
}

/// `tokens` covers `bytes[from..to]` without gaps or overlaps, and each
/// token's text is exactly the input slice at its span.
pub open spec fn tokens_tile(tokens: Seq<TokenData>, bytes: Seq<u8>, from: int, to: int) -> bool {
    &&& (tokens.len() == 0 ==> from == to)
    &&& (tokens.len() > 0 ==> tokens[0].span.0 == from && tokens[tokens.len() - 1].span.1 == to)
    &&& forall|i: int| 0 <= i < tokens.len() - 1
        ==> (#[trigger] tokens[i]).span.1 == tokens[i + 1].span.0
    &&& forall|i: int| 0 <= i < tokens.len() ==> {
        let t = #[trigger] tokens[i];
        &&& t.span.0 < t.span.1 <= bytes.len()
        &&& encode_utf8(t.value@) == bytes.subrange(t.span.0 as int, t.span.1 as int)
    }
}

/// `t` is what the first matching pattern produces at its span's start.
pub open spec fn token_at(t: TokenData, patterns: Seq<Token>, bytes: Seq<u8>) -> bool {
    match first_match(patterns, decode_utf8(bytes.subrange(t.span.0 as int, bytes.len() as int))) {
        Some(im) => {
            &&& 0 <= im.0 < patterns.len()
            &&& t.span.1 == t.span.0 + im.1 + 1
            &&& t.kind == patterns[im.0].id
            &&& t.label@ == patterns[im.0].label@
        },
        None => false,
    }
}

/// Whether the greedy first-match run over `bytes`, starting at `p`,
/// reaches the end of the input: at each position the first matching
/// pattern decides, and its match length moves the position forward.
pub open spec fn lexes_from(patterns: Seq<Token>, bytes: Seq<u8>, p: int) -> bool
    decreases bytes.len() - p,
{
    if p >= bytes.len() {
        true
    } else {
        match first_match(patterns, decode_utf8(bytes.subrange(p, bytes.len() as int))) {
            Some(im) => {
                if im.1 + 1 <= bytes.len() - p {
                    lexes_from(patterns, bytes, p + im.1 + 1)
                } else {
                    false
                }
            },
            None => false,
        }
    }
}

/// Where the greedy first-match run over `bytes`, starting at `p`, stops:
/// the end of the input when every position matches, else the first
/// position where no pattern matches.
pub open spec fn run_stops_at(patterns: Seq<Token>, bytes: Seq<u8>, p: int) -> int
    decreases bytes.len() - p,
{
    if p >= bytes.len() {
        p
    } else {
        match first_match(patterns, decode_utf8(bytes.subrange(p, bytes.len() as int))) {
            Some(im) => {
                if im.1 + 1 <= bytes.len() - p {
                    run_stops_at(patterns, bytes, p + im.1 + 1)
                } else {
                    p
                }
            },
            None => p,
        }
    }
}

/// `tokens` is the full lex of `input` under `patterns`.
pub open spec fn lexes_to(input: Seq<char>, patterns: Seq<Token>, tokens: Seq<TokenData>) -> bool {
    let bytes = encode_utf8(input);
    &&& tokens_tile(tokens, bytes, 0, bytes.len() as int)
    &&& forall|i: int| 0 <= i < tokens.len() ==> token_at(#[trigger] tokens[i], patterns, bytes)
}

/// The pattern-driven tokenizer.
#[derive(Debug)]
pub struct Lexer {
    input: String,
    patterns: Vec<Token>,

    /// Position of the token being produced.
    start: usize,
    /// Current byte position of the cursor.
    current: usize,

    line: usize,
    column: usize,
}

impl Clone for Lexer {
    fn clone(&self) -> (r: Self)
        ensures
            r.input_chars() == self.input_chars(),
            r.pattern_list() == self.pattern_list(),
            r.cursor() == self.cursor(),
            r.start_pos() == self.start_pos(),
            r.line_no() == self.line_no(),
            r.col_no() == self.col_no(),
            r.wf() == self.wf(),
    {
        let mut patterns: Vec<Token> = Vec::new();
        let mut i: usize = 0;
        while i < self.patterns.len()
            invariant
                i <= self.patterns@.len(),
                patterns@ =~= self.patterns@.subrange(0, i as int),
            decreases self.patterns@.len() - i,
        {
            patterns.push(self.patterns[i].clone());
            i = i + 1;
        }
        proof {
            assert(patterns@ =~= self.patterns@);
        }
        let r = Self {
            input: self.input.clone(),
            patterns,
            start: self.start,
            current: self.current,
            line: self.line,
            column: self.column,
        };
        r
    }
}

impl Lexer {
    /// The input buffer as characters.
    pub closed spec fn input_chars(self) -> Seq<char> {
        self.input@
    }

    /// The input buffer as UTF-8 bytes.
    pub open spec fn bytes(self) -> Seq<u8> {
        encode_utf8(self.input_chars())
    }

    /// The ordered pattern list.
    pub closed spec fn pattern_list(self) -> Seq<Token> {
        self.patterns@
    }

    /// The byte cursor.
    pub closed spec fn cursor(self) -> usize {
        self.current
    }

    /// Position of the token being produced.
    pub closed spec fn start_pos(self) -> usize {
        self.start
    }

    /// The line counter (a best-effort diagnostic).
    pub closed spec fn line_no(self) -> usize {
        self.line
    }

    /// The column counter (a best-effort diagnostic).
    pub closed spec fn col_no(self) -> usize {
        self.column
    }

    /// The cursor sits on a character boundary within the input, and the
    /// column counter tracks it.
    pub closed spec fn wf(self) -> bool {
        &&& self.bytes().len() <= usize::MAX
        &&& self.current <= self.bytes().len()
        &&& is_char_boundary(self.bytes(), self.current as int)
        &&& self.column == column_after(self.current as int)
        &&& self.start <= self.current
    }

    /// Whether the cursor has reached the end of the input.
    pub open spec fn at_end(self) -> bool {
        self.cursor() == self.bytes().len()
    }

    /// The input that remains at the cursor.
    pub open spec fn rem(self) -> Seq<char> {
        decode_utf8(self.bytes().subrange(self.cursor() as int, self.bytes().len() as int))
    }

    pub fn new(patterns: Vec<Token>) -> (r: Self)
        ensures
            r.wf(),
            r.input_chars() == Seq::<char>::empty(),
            r.pattern_list() == patterns@,
            r.cursor() == 0,
            r.line_no() == 1,
            r.col_no() == 1,
    {
        let r = Self { input: String::new(), patterns, start: 0, current: 0, line: 1, column: 1 };
        proof {
            assert(encode_utf8(r.input@) =~= Seq::<u8>::empty());
        }
        r
    }

    /// Resets the cursor and counters and stores `input`, discarding any
    /// prior stream.
    pub fn begin(&mut self, input: &str)
        ensures
            final(self).wf(),
            final(self).input_chars() == input@,
            final(self).pattern_list() == old(self).pattern_list(),
            final(self).cursor() == 0,
            final(self).start_pos() == 0,
            final(self).line_no() == 1,
            final(self).col_no() == 1,
    {
        let b: &[u8] = input.as_bytes();
        let n = b.len();
        proof {
            assert(encode_utf8(input@).len() == n);
            encode_utf8_valid_utf8(input@);
        }
        self.input = input.to_owned();
        self.start = 0;
        self.current = 0;
        self.line = 1;
        self.column = 1;
    }

    /// Produces the next token, `None` at the end of the input, or the lex
    /// error if input remains and no pattern matches at the cursor.
    pub fn next(&mut self) -> (r: Result<Option<TokenData>, LexError>)
        requires
            old(self).wf(),
        ensures
            final(self).wf(),
            final(self).input_chars() == old(self).input_chars(),
            final(self).pattern_list() == old(self).pattern_list(),
            final(self).line_no() == old(self).line_no(),
            old(self).at_end() ==> (r matches Ok(o) && o is None)
                && final(self).cursor() == old(self).cursor(),
            !old(self).at_end() ==> match first_match(old(self).pattern_list(), old(self).rem()) {
                Some(im) => (r matches Ok(o) && o matches Some(td) && {
                    &&& td.kind == old(self).pattern_list()[im.0].id
                    &&& td.label@ == old(self).pattern_list()[im.0].label@
                    &&& td.span.0 == old(self).cursor()
                    &&& td.span.1 == old(self).cursor() + im.1 + 1
                    &&& encode_utf8(td.value@) == final(self).bytes().subrange(
                        td.span.0 as int,
                        td.span.1 as int,
                    )
                    &&& td.location == (final(self).line_no(), final(self).col_no())
                    &&& final(self).cursor() == old(self).cursor() + im.1 + 1
                }),
                None => (r matches Err(e) && {
                    &&& e.character == old(self).rem()[0]
                    &&& e.line == old(self).line_no()
                    &&& e.column == old(self).col_no()
                }) && final(self).cursor() == old(self).cursor(),
            },
    {
        self.start = self.current;
        self.tokenize()
    }

    fn tokenize(&mut self) -> (r: Result<Option<TokenData>, LexError>)
        requires
            old(self).wf(),
            old(self).start_pos() == old(self).cursor(),
        ensures
            final(self).wf(),
            final(self).input_chars() == old(self).input_chars(),
            final(self).pattern_list() == old(self).pattern_list(),
            final(self).line_no() == old(self).line_no(),
            old(self).at_end() ==> (r matches Ok(o) && o is None)
                && final(self).cursor() == old(self).cursor(),
            !old(self).at_end() ==> match first_match(old(self).pattern_list(), old(self).rem()) {
                Some(im) => (r matches Ok(o) && o matches Some(td) && {
                    &&& td.kind == old(self).pattern_list()[im.0].id
                    &&& td.label@ == old(self).pattern_list()[im.0].label@
                    &&& td.span.0 == old(self).cursor()
                    &&& td.span.1 == old(self).cursor() + im.1 + 1
                    &&& encode_utf8(td.value@) == final(self).bytes().subrange(
                        td.span.0 as int,
                        td.span.1 as int,
                    )
                    &&& td.location == (final(self).line_no(), final(self).col_no())
                    &&& final(self).cursor() == old(self).cursor() + im.1 + 1
                }),
                None => (r matches Err(e) && {
                    &&& e.character == old(self).rem()[0]
                    &&& e.line == old(self).line_no()
                    &&& e.column == old(self).col_no()
                }) && final(self).cursor() == old(self).cursor(),
            },
    {
        let len = self.input.as_str().len();
        if self.current >= len {
            return Ok(None);
        }
        let pair = self.input.as_str().split_at(self.current);
        let rest = pair.1;
        proof {
            encode_utf8_valid_utf8(self.input@);
            encode_utf8_decode_utf8(rest@);
            assert(encode_utf8(rest@) =~= self.bytes().subrange(
                self.current as int,
                self.bytes().len() as int,
            ));
            assert(self.rem() == rest@);
            lemma_encode_utf8_len(rest@);
        }
        let mut i: usize = 0;
        while i < self.patterns.len()
            invariant
                *self == *old(self),
                old(self).wf(),
                old(self).start_pos() == old(self).cursor(),
                !old(self).at_end(),
                rest@ == old(self).rem(),
                encode_utf8(rest@) == old(self).bytes().subrange(
                    old(self).cursor() as int,
                    old(self).bytes().len() as int,
                ),
                i <= old(self).pattern_list().len(),
                forall|j: int| 0 <= j < i
                    ==> check_spec(#[trigger] old(self).pattern_list()[j], rest@) is None,
            decreases self.patterns.len() - i,
        {
            let pat = &self.patterns[i];
            if let Some(m) = pat.check(rest) {
                proof {
                    lemma_first_match_at(old(self).pattern_list(), rest@, i as int, m);
                    encode_utf8_valid_utf8(old(self).input_chars());
                    lemma_char_boundary_compose(
                        old(self).bytes(),
                        old(self).cursor() as int,
                        m + 1,
                    );
                }
                let mlen = m + 1;
                let mpair = rest.split_at(mlen);
                let value = mpair.0.to_owned();
                let label = pat.label.clone();
                let kind = pat.id;
                self.current = self.current + mlen;
                self.column = col_of(self.current);
                let td = TokenData::new(
                    kind,
                    value,
                    label,
                    (self.line, self.column),
                    (self.start, self.current),
                );
                proof {
                    assert(encode_utf8(td.value@) =~= old(self).bytes().subrange(
                        old(self).cursor() as int,
                        old(self).cursor() + mlen as int,
                    ));
                }
                return Ok(Some(td));
            }
            i = i + 1;
        }
        proof {
            lemma_first_match_none(old(self).pattern_list(), rest@);
        }
        let c = rest.get_char(0);
        Err(LexError { character: c, line: self.line, column: self.column })
    }

    /// Drains [`Lexer::next`] until the end of the input, or fails with the
    /// first lex error.
    pub fn all(&mut self) -> (r: Result<Vec<TokenData>, LexError>)
        requires
            old(self).wf(),
        ensures
            final(self).wf(),
            final(self).input_chars() == old(self).input_chars(),
            final(self).pattern_list() == old(self).pattern_list(),
            final(self).line_no() == old(self).line_no(),
            r is Ok <==> lexes_from(
                old(self).pattern_list(),
                old(self).bytes(),
                old(self).cursor() as int,
            ),
            final(self).cursor() == run_stops_at(
                old(self).pattern_list(),
                old(self).bytes(),
                old(self).cursor() as int,
            ),
            r matches Ok(tokens) ==> {
                &&& final(self).at_end()
                &&& tokens_tile(
                    tokens@,
                    final(self).bytes(),
                    old(self).cursor() as int,
                    final(self).bytes().len() as int,
                )
                &&& forall|i: int| 0 <= i < tokens@.len()
                    ==> token_at(#[trigger] tokens@[i], final(self).pattern_list(), final(self).bytes())
                &&& forall|i: int| 0 <= i < tokens@.len() ==> (#[trigger] tokens@[i]).location
                    == (old(self).line_no(), column_after(tokens@[i].span.1 as int) as usize)
            },
            r matches Err(e) ==> {
                &&& !final(self).at_end()
                &&& first_match(final(self).pattern_list(), final(self).rem()) is None
                &&& e.character == final(self).rem()[0]
                &&& e.line == old(self).line_no()
                &&& e.column == final(self).col_no()
            },
    {
        let mut tokens: Vec<TokenData> = Vec::new();
        loop
            invariant
                self.wf(),
                self.input_chars() == old(self).input_chars(),
                self.pattern_list() == old(self).pattern_list(),
                self.line_no() == old(self).line_no(),
                old(self).cursor() <= self.cursor(),
                lexes_from(self.pattern_list(), self.bytes(), self.cursor() as int)
                    == lexes_from(old(self).pattern_list(), old(self).bytes(), old(self).cursor() as int),
                run_stops_at(self.pattern_list(), self.bytes(), self.cursor() as int)
                    == run_stops_at(old(self).pattern_list(), old(self).bytes(), old(self).cursor() as int),
                tokens_tile(tokens@, self.bytes(), old(self).cursor() as int, self.cursor() as int),
                forall|i: int| 0 <= i < tokens@.len()
                    ==> token_at(#[trigger] tokens@[i], self.pattern_list(), self.bytes()),
                forall|i: int| 0 <= i < tokens@.len() ==> (#[trigger] tokens@[i]).location
                    == (old(self).line_no(), column_after(tokens@[i].span.1 as int) as usize),
            decreases self.bytes().len() - self.cursor(),
        {
            let ghost pre = *self;
            let ghost pre_tokens = tokens@;
            match self.next() {
                Ok(Some(token)) => {
                    let ghost tok = token;
                    tokens.push(token);
                    proof {
                        let ts = tokens@;
                        let n = pre_tokens.len() as int;
                        assert(ts == pre_tokens.push(tok));
                        assert(forall|i: int| 0 <= i < n ==> ts[i] == pre_tokens[i]);
                        assert(ts[n] == tok);
                        assert(self.bytes() == pre.bytes());
                        assert(tok.span.0 == pre.cursor());
                        assert(tok.span.1 == self.cursor());
                        if n > 0 {
                            assert(pre_tokens[n - 1].span.1 == pre.cursor());
                        }
                        lemma_first_match_bounds(pre.pattern_list(), pre.rem());
                        assert(pre.rem() == decode_utf8(self.bytes().subrange(
                            tok.span.0 as int,
                            self.bytes().len() as int,
                        )));
                        assert(token_at(tok, self.pattern_list(), self.bytes()));
                        assert forall|i: int| 0 <= i < ts.len() implies
                            token_at(#[trigger] ts[i], self.pattern_list(), self.bytes()) by {
                            if i < n {
                                assert(ts[i] == pre_tokens[i]);
                                assert(token_at(pre_tokens[i], pre.pattern_list(), pre.bytes()));
                            }
                        }
                        assert(tokens_tile(
                            ts,
                            self.bytes(),
                            old(self).cursor() as int,
                            self.cursor() as int,
                        ));
                    }
                }
                Ok(None) => {
                    return Ok(tokens);
                }
                Err(e) => {
                    return Err(e);
                }
            }
        }
    }
}

/// Tokenizing plain text in one call, with a fresh lexer.
pub trait LexerExt {
    spec fn as_input(&self) -> Seq<char>;

    fn tokenize_all(&self, patterns: &Vec<Token>) -> (r: Result<Vec<TokenData>, LexError>)
        ensures
            r is Ok <==> lexes_from(patterns@, encode_utf8(self.as_input()), 0),
            r matches Ok(tokens) ==> lexes_to(self.as_input(), patterns@, tokens@),
            r matches Err(e) ==> {
                let bytes = encode_utf8(self.as_input());
                let stop = run_stops_at(patterns@, bytes, 0);
                &&& e.character == decode_utf8(bytes.subrange(stop, bytes.len() as int))[0]
                &&& e.line == 1
                &&& e.column == column_after(stop)
            },
    ;
}

impl LexerExt for &'static str {
    open spec fn as_input(&self) -> Seq<char> {
        self@
    }

    fn tokenize_all(&self, patterns: &Vec<Token>) -> (r: Result<Vec<TokenData>, LexError>) {
        let mut lexer = Lexer::new(patterns.clone());
        lexer.begin(self);
        lexer.all()
    }
}

impl LexerExt for String {
    open spec fn as_input(&self) -> Seq<char> {
        self@
    }

    fn tokenize_all(&self, patterns: &Vec<Token>) -> (r: Result<Vec<TokenData>, LexError>) {
        let mut lexer = Lexer::new(patterns.clone());
        lexer.begin(self.as_str());
        lexer.all()
    }
}

} // verus!
