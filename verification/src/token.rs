//! Token patterns and the anchored matcher.
//!
//! A [`Token`] is a named, numerically kinded matcher: a literal string, an
//! inclusive character range, a text regex, or a byte regex.  [`Token::check`]
//! decides whether the pattern matches a prefix of the given text and, on
//! success, returns the byte index of the last matched byte (one less than
//! the matched byte length).  Matching is anchored: a match that does not
//! begin at the very start of the text is rejected.
//!
//! Regex patterns are matched by the `regex` crate.  The library stores the
//! pattern source and models the crate's answers with the uninterpreted
//! functions below; everything around those answers is verified.

use vstd::prelude::*;
use vstd::utf8::{encode_utf8, encode_scalar, is_char_boundary, encode_utf8_valid_utf8, char_is_scalar};
use crate::text::{
    lemma_encode_utf8_concat, lemma_encode_utf8_len, lemma_valid_prefix_is_char_boundary,
    lemma_char_prefix_to_byte_prefix, lemma_byte_prefix_to_char_prefix,
};

verus! {

/// Whether `regex::Regex::new` accepts the pattern.
pub uninterp spec fn regex_valid(pattern: Seq<char>) -> bool;

/// The byte offsets of the leftmost match that `regex::Regex::find` reports
/// for the pattern on the haystack, if any.
pub uninterp spec fn regex_find(pattern: Seq<char>, text: Seq<char>) -> Option<(usize, usize)>;

/// Whether `regex::bytes::Regex::new` accepts the pattern.
pub uninterp spec fn byte_regex_valid(pattern: Seq<char>) -> bool;

/// The byte offsets of the leftmost match that `regex::bytes::Regex::find`
/// reports for the pattern on the haystack, if any.
pub uninterp spec fn byte_regex_find(pattern: Seq<char>, haystack: Seq<u8>) -> Option<(usize, usize)>;

/// Relies on `regex::Regex::new`: whether a pattern compiles depends on the
/// pattern alone.
#[verifier::external_body]
fn text_pattern_compiles(pattern: &str) -> (r: bool)
    ensures
        r == regex_valid(pattern@),
{
    regex::Regex::new(pattern).is_ok()
}

/// Relies on `regex::bytes::Regex::new`: whether a pattern compiles depends
/// on the pattern alone.
#[verifier::external_body]
fn byte_pattern_compiles(pattern: &str) -> (r: bool)
    ensures
        r == byte_regex_valid(pattern@),
{
    regex::bytes::Regex::new(pattern).is_ok()
}

/// Relies on `regex::Regex::new` and `regex::Regex::find`: the leftmost
/// match's byte offsets depend only on the pattern and the haystack, satisfy
/// `start <= end <= haystack.len()`, and fall on UTF-8 character boundaries
/// of the haystack.
#[verifier::external_body]
fn find_text_match(pattern: &str, text: &str) -> (r: Option<(usize, usize)>)
    ensures
        regex_valid(pattern@) ==> r == regex_find(pattern@, text@),
        !regex_valid(pattern@) ==> r is None,
        r matches Some(m) ==> m.0 <= m.1 <= encode_utf8(text@).len()
            && is_char_boundary(encode_utf8(text@), m.0 as int)
            && is_char_boundary(encode_utf8(text@), m.1 as int),
{
    match regex::Regex::new(pattern) {
        Ok(re) => re.find(text).map(|m| (m.start(), m.end())),
        Err(_) => None,
    }
}

/// Relies on `regex::bytes::Regex::new` and `regex::bytes::Regex::find`: the
/// leftmost match's byte offsets depend only on the pattern and the haystack
/// and satisfy `start <= end <= haystack.len()`.  Unlike text regex matches,
/// the offsets need not fall on character boundaries.
#[verifier::external_body]
fn find_byte_match(pattern: &str, text: &str) -> (r: Option<(usize, usize)>)
    ensures
        byte_regex_valid(pattern@) ==> r == byte_regex_find(pattern@, encode_utf8(text@)),
        !byte_regex_valid(pattern@) ==> r is None,
        r matches Some(m) ==> m.0 <= m.1 <= encode_utf8(text@).len(),
{
    match regex::bytes::Regex::new(pattern) {
        Ok(re) => re.find(text.as_bytes()).map(|m| (m.start(), m.end())),
        Err(_) => None,
    }
}

/// Relies on `regex::Regex::as_str`: it returns the original pattern string
/// of the regex.  Nothing is claimed of that string: a regex built through
/// `regex::RegexBuilder` with non-default options can carry a pattern that
/// the default `regex::Regex::new` would reject.
#[verifier::external_body]
fn text_pattern_of(re: &regex::Regex) -> String {
    re.as_str().to_owned()
}

/// Relies on `regex::bytes::Regex::as_str`: it returns the original pattern
/// string of the regex.  Nothing is claimed of that string: a regex built
/// through `regex::bytes::RegexBuilder` with non-default options can carry a
/// pattern that the default `regex::bytes::Regex::new` would reject.
#[verifier::external_body]
fn byte_pattern_of(re: &regex::bytes::Regex) -> String {
    re.as_str().to_owned()
}

#[verifier::external_type_specification]
#[verifier::external_body]
pub struct ExRegex(regex::Regex);

#[verifier::external_type_specification]
#[verifier::external_body]
pub struct ExBytesRegex(regex::bytes::Regex);

/// The matcher of a pattern.  Regex matchers keep the pattern source; it is
/// handed to the `regex` crate on every match and compiled with default
/// options there.
#[derive(Debug)]
pub enum TokenValue {
    Lit(String),
    Range(char, char),
    Regex(String),
    URegex(String),
}

impl Clone for TokenValue {
    fn clone(&self) -> (r: Self)
        ensures
            r == *self,
    {
        match self {
            TokenValue::Lit(s) => TokenValue::Lit(s.clone()),
            TokenValue::Range(a, b) => TokenValue::Range(*a, *b),
            TokenValue::Regex(s) => TokenValue::Regex(s.clone()),
            TokenValue::URegex(s) => TokenValue::URegex(s.clone()),
        }
    }
}

/// A named, numerically kinded token pattern.
#[derive(Debug)]
pub struct Token {
    pub label: String,
    pub id: u32,
    pub token: TokenValue,
}

impl Clone for Token {
    fn clone(&self) -> (r: Self)
        ensures
            r == *self,
    {
        Self { label: self.label.clone(), id: self.id, token: self.token.clone() }
    }
}

/// Whether `c` lies in the inclusive code-point range `lo..=hi`.
pub open spec fn char_in_range(c: char, lo: char, hi: char) -> bool {
    lo as u32 <= c as u32 && c as u32 <= hi as u32
}

/// The number of leading characters of `text` that lie in `lo..=hi`.
pub open spec fn range_match_count(text: Seq<char>, lo: char, hi: char) -> nat
    decreases text.len(),
{
    if text.len() == 0 || !char_in_range(text[0], lo, hi) {
        0
    } else {
        1 + range_match_count(text.drop_first(), lo, hi)
    }
}

/// What a literal matcher answers: the last byte index of the literal if it
/// is a non-empty prefix of the text.
pub open spec fn lit_check_spec(lit: Seq<char>, text: Seq<char>) -> Option<usize> {
    if lit.len() > 0 && lit.is_prefix_of(text) {
        Some((encode_utf8(lit).len() - 1) as usize)
    } else {
        None
    }
}

/// What a range matcher answers: the last byte index of the longest non-empty
/// run of leading in-range characters.
pub open spec fn range_check_spec(lo: char, hi: char, text: Seq<char>) -> Option<usize> {
    let k = range_match_count(text, lo, hi);
    if k > 0 {
        Some((encode_utf8(text.take(k as int)).len() - 1) as usize)
    } else {
        None
    }
}

/// What a text-regex matcher answers: the last byte index of a non-empty
/// leftmost match anchored at offset zero.
pub open spec fn regex_check_spec(pat: Seq<char>, text: Seq<char>) -> Option<usize> {
    if !regex_valid(pat) {
        None
    } else {
        match regex_find(pat, text) {
            Some(m) => if m.0 == 0 && m.1 >= 1 {
                Some((m.1 - 1) as usize)
            } else {
                None
            },
            None => None,
        }
    }
}

/// What a byte-regex matcher answers: the last byte index of a non-empty
/// leftmost match anchored at offset zero.  A match that ends inside a
/// character's encoding cannot be sliced out of the text and is treated as
/// no match.
pub open spec fn byte_regex_check_spec(pat: Seq<char>, text: Seq<char>) -> Option<usize> {
    if !byte_regex_valid(pat) {
        None
    } else {
        match byte_regex_find(pat, encode_utf8(text)) {
            Some(m) => if m.0 == 0 && m.1 >= 1 && is_char_boundary(encode_utf8(text), m.1 as int) {
                Some((m.1 - 1) as usize)
            } else {
                None
            },
            None => None,
        }
    }
}

/// What [`Token::check`] answers on the given text.
pub open spec fn check_spec(t: Token, text: Seq<char>) -> Option<usize> {
    if text.len() == 0 {
        None
    } else {
        match t.token {
            TokenValue::Lit(lit) => lit_check_spec(lit@, text),
            TokenValue::Range(lo, hi) => range_check_spec(lo, hi, text),
            TokenValue::Regex(pat) => regex_check_spec(pat@, text),
            TokenValue::URegex(pat) => byte_regex_check_spec(pat@, text),
        }
    }
}

/// Anchoring: a regex match that does not start at the very beginning of
/// the remaining input never produces a token, whatever its length.
pub proof fn lemma_regex_match_anchored(pat: Seq<char>, text: Seq<char>)
    ensures
        regex_find(pat, text) matches Some(m) && m.0 != 0 ==> regex_check_spec(pat, text) is None,
        byte_regex_find(pat, encode_utf8(text)) matches Some(m) && m.0 != 0
            ==> byte_regex_check_spec(pat, text) is None,
{
}

/// The byte length of a character's UTF-8 encoding.
fn char_utf8_len(c: char) -> (r: usize)
    ensures
        r == encode_scalar(c as u32).len(),
        1 <= r <= 4,
{
    proof {
        char_is_scalar(c);
    }
    let u = c as u32;
    if u <= 0x7F {
        1
    } else if u <= 0x7FF {
        2
    } else if u <= 0xFFFF {
        3
    } else {
        4
    }
}

proof fn lemma_range_match_count_is(text: Seq<char>, lo: char, hi: char, k: int)
    requires
        0 <= k <= text.len(),
        forall|j: int| 0 <= j < k ==> char_in_range(#[trigger] text[j], lo, hi),
        k == text.len() || !char_in_range(text[k], lo, hi),
    ensures
        range_match_count(text, lo, hi) == k,
    decreases k,
{
    if k == 0 {
    } else {
        assert(char_in_range(text[0], lo, hi));
        assert(forall|j: int| 0 <= j < k - 1 ==> char_in_range(#[trigger] text.drop_first()[j], lo, hi));
        if k < text.len() {
            assert(text.drop_first()[k - 1] == text[k]);
        }
        lemma_range_match_count_is(text.drop_first(), lo, hi, k - 1);
    }
}

impl Token {
    pub fn new(label: &str, id: u32, token: TokenValue) -> (r: Self)
        ensures
            r.label@ == label@,
            r.id == id,
            r.token == token,
    {
        Self { label: label.to_owned(), id, token }
    }

    pub fn new_lit(label: &str, id: u32, lit: &str) -> (r: Self)
        ensures
            r.label@ == label@,
            r.id == id,
            r.token matches TokenValue::Lit(l) && l@ == lit@,
    {
        Self::new(label, id, TokenValue::Lit(lit.to_owned()))
    }

    pub fn new_lit_from_str(label: &str, id: u32, lit: String) -> (r: Self)
        ensures
            r.label@ == label@,
            r.id == id,
            r.token matches TokenValue::Lit(l) && l@ == lit@,
    {
        Self::new(label, id, TokenValue::Lit(lit))
    }

    pub fn new_range(label: &str, id: u32, start: char, end: char) -> (r: Self)
        ensures
            r.label@ == label@,
            r.id == id,
            r.token == TokenValue::Range(start, end),
    {
        Self::new(label, id, TokenValue::Range(start, end))
    }

    /// Builds a text-regex pattern from a compiled regex.  Only the pattern
    /// source is kept: every match re-compiles it with default options, so a
    /// regex built with non-default builder options may match differently
    /// here, or not at all if its pattern needs those options to compile.
    pub fn new_regex(label: &str, id: u32, regex: regex::Regex) -> (r: Self)
        ensures
            r.label@ == label@,
            r.id == id,
            r.token is Regex,
    {
        let pattern = text_pattern_of(&regex);
        Self::new(label, id, TokenValue::Regex(pattern))
    }

    /// Builds a text-regex pattern, or `None` if the pattern does not compile.
    pub fn new_regex_from_str(label: &str, id: u32, regex: &str) -> (r: Option<Self>)
        ensures
            r is Some <==> regex_valid(regex@),
            r matches Some(t) ==> t.label@ == label@ && t.id == id
                && (t.token matches TokenValue::Regex(p) && p@ == regex@),
    {
        if text_pattern_compiles(regex) {
            Some(Self::new(label, id, TokenValue::Regex(regex.to_owned())))
        } else {
            None
        }
    }

    /// Builds a byte-regex pattern from a compiled regex.  Only the pattern
    /// source is kept: every match re-compiles it with default options, so a
    /// regex built with non-default builder options may match differently
    /// here, or not at all if its pattern needs those options to compile.
    pub fn new_uregex(label: &str, id: u32, regex: regex::bytes::Regex) -> (r: Self)
        ensures
            r.label@ == label@,
            r.id == id,
            r.token is URegex,
    {
        let pattern = byte_pattern_of(&regex);
        Self::new(label, id, TokenValue::URegex(pattern))
    }

    /// Builds a byte-regex pattern, or `None` if the pattern does not compile.
    pub fn new_uregex_from_str(label: &str, id: u32, regex: &str) -> (r: Option<Self>)
        ensures
            r is Some <==> byte_regex_valid(regex@),
            r matches Some(t) ==> t.label@ == label@ && t.id == id
                && (t.token matches TokenValue::URegex(p) && p@ == regex@),
    {
        if byte_pattern_compiles(regex) {
            Some(Self::new(label, id, TokenValue::URegex(regex.to_owned())))
        } else {
            None
        }
    }

    /// Anchored matching: the byte index of the last matched byte of the
    /// prefix of `text` that this pattern matches, if any.  On success the
    /// matched length `r + 1` ends on a character boundary of `text`.
    pub fn check(&self, text: &str) -> (r: Option<usize>)
        ensures
            r == check_spec(*self, text@),
            r matches Some(m) ==> m < encode_utf8(text@).len()
                && is_char_boundary(encode_utf8(text@), m + 1),
    {
        proof {
            lemma_encode_utf8_len(text@);
            encode_utf8_valid_utf8(text@);
        }
        let tb: &[u8] = text.as_bytes();
        if tb.len() == 0 {
            return None;
        }
        match &self.token {
            TokenValue::Lit(lit) => self.check_lit(lit, text),
            TokenValue::Range(start, end) => self.check_range(*start, *end, text),
            TokenValue::Regex(pat) => {
                match find_text_match(pat.as_str(), text) {
                    Some((s, e)) => {
                        if s == 0 && e >= 1 {
                            Some(e - 1)
                        } else {
                            None
                        }
                    }
                    None => None,
                }
            }
            TokenValue::URegex(pat) => {
                match find_byte_match(pat.as_str(), text) {
                    Some((s, e)) => {
                        if s == 0 && e >= 1 && text.is_char_boundary(e) {
                            proof {
                                encode_utf8_valid_utf8(text@);
                            }
                            Some(e - 1)
                        } else {
                            None
                        }
                    }
                    None => None,
                }
            }
        }
    }

    fn check_lit(&self, lit: &String, text: &str) -> (r: Option<usize>)
        requires
            text@.len() > 0,
        ensures
            r == lit_check_spec(lit@, text@),
            r matches Some(m) ==> m < encode_utf8(text@).len()
                && is_char_boundary(encode_utf8(text@), m + 1),
    {
        let lb: &[u8] = lit.as_str().as_bytes();
        let tb: &[u8] = text.as_bytes();
        proof {
            lemma_encode_utf8_len(lit@);
        }
        if lb.len() == 0 {
            return None;
        }
        if lb.len() > tb.len() {
            proof {
                if lit@.is_prefix_of(text@) {
                    lemma_char_prefix_to_byte_prefix(lit@, text@);
                }
            }
            return None;
        }
        let mut i: usize = 0;
        while i < lb.len()
            invariant
                i <= lb.len() <= tb.len(),
                lb@ == encode_utf8(lit@),
                tb@ == encode_utf8(text@),
                forall|j: int| 0 <= j < i ==> lb@[j] == tb@[j],
            decreases lb.len() - i,
        {
            if lb[i] != tb[i] {
                proof {
                    if lit@.is_prefix_of(text@) {
                        lemma_char_prefix_to_byte_prefix(lit@, text@);
                    }
                }
                return None;
            }
            i = i + 1;
        }
        proof {
            assert(encode_utf8(lit@) =~= encode_utf8(text@).subrange(0, lb@.len() as int));
            lemma_byte_prefix_to_char_prefix(lit@, text@);
            encode_utf8_valid_utf8(text@);
            encode_utf8_valid_utf8(lit@);
            lemma_valid_prefix_is_char_boundary(encode_utf8(text@), lb@.len() as int);
        }
        Some(lb.len() - 1)
    }

    fn check_range(&self, start: char, end: char, text: &str) -> (r: Option<usize>)
        requires
            text@.len() > 0,
        ensures
            r == range_check_spec(start, end, text@),
            r matches Some(m) ==> m < encode_utf8(text@).len()
                && is_char_boundary(encode_utf8(text@), m + 1),
    {
        let total = text.as_bytes().len();
        let n = text.unicode_len();
        let mut k: usize = 0;
        let mut blen: usize = 0;
        let mut stopped = false;
        proof {
            assert(text@.take(0) =~= Seq::<char>::empty());
        }
        while k < n && !stopped
            invariant
                k <= n == text@.len(),
                blen == encode_utf8(text@.take(k as int)).len(),
                blen <= encode_utf8(text@).len() <= usize::MAX,
                forall|j: int| 0 <= j < k ==> char_in_range(#[trigger] text@[j], start, end),
                stopped ==> k < n && !char_in_range(text@[k as int], start, end),
            decreases n - k, if stopped { 0int } else { 1int },
        {
            let c = text.get_char(k);
            if (start as u32) <= (c as u32) && (c as u32) <= (end as u32) {
                proof {
                    let single = seq![text@[k as int]];
                    assert(text@.take(k + 1) =~= text@.take(k as int) + single);
                    lemma_encode_utf8_concat(text@.take(k as int), single);
                    assert(single.drop_first() =~= Seq::<char>::empty());
                    assert(encode_utf8(single.drop_first()) == encode_utf8(Seq::<char>::empty()));
                    assert(encode_utf8(single) == encode_scalar(single[0] as u32) + encode_utf8(single.drop_first()));
                    assert(encode_utf8(single) =~= encode_scalar(text@[k as int] as u32));
                    lemma_char_prefix_to_byte_prefix(text@.take(k + 1), text@);
                }
                let step = char_utf8_len(c);
                blen = blen + step;
                k = k + 1;
            } else {
                stopped = true;
            }
        }
        proof {
            lemma_range_match_count_is(text@, start, end, k as int);
        }
        if k == 0 {
            None
        } else {
            proof {
                lemma_encode_utf8_len(text@.take(k as int));
                lemma_char_prefix_to_byte_prefix(text@.take(k as int), text@);
                encode_utf8_valid_utf8(text@);
                encode_utf8_valid_utf8(text@.take(k as int));
                assert(encode_utf8(text@.take(k as int)) =~= encode_utf8(text@).subrange(0, blen as int));
                lemma_valid_prefix_is_char_boundary(encode_utf8(text@), blen as int);
            }
            Some(blen - 1)
        }
    }
}

/// One token produced by the lexer: its kind, matched text, pattern label,
/// source position, and byte span.
#[derive(Debug, PartialEq, Eq)]
pub struct TokenData {
    pub kind: u32,
    pub value: String,
    pub label: String,

    /// (line, column)
    pub location: (usize, usize),

    /// (start byte, end byte)
    pub span: (usize, usize),
}

impl Clone for TokenData {
    fn clone(&self) -> (r: Self)
        ensures
            r == *self,
    {
        Self {
            kind: self.kind,
            value: self.value.clone(),
            label: self.label.clone(),
            location: self.location,
            span: self.span,
        }
    }
}

impl TokenData {
    pub fn new(kind: u32, value: String, label: String, location: (usize, usize), span: (usize, usize)) -> (r: Self)
        ensures
            r.kind == kind,
            r.value == value,
            r.label == label,
            r.location == location,
            r.span == span,
    {
        Self { kind, label, value, location, span }
    }

    /// A standalone token whose value and label are both `text`, spanning the
    /// whole of `text`.
    pub fn from_str(text: &str, kind: u32) -> (r: Self)
        ensures
            r.kind == kind,
            r.value@ == text@,
            r.label@ == text@,
            r.location == (0usize, encode_utf8(text@).len() as usize),
            r.span == (0usize, encode_utf8(text@).len() as usize),
    {
        let n = text.len();
        Self::new(kind, text.to_owned(), text.to_owned(), (0, n), (0, n))
    }
}

/// Conversion of plain text into a standalone token.
pub trait TokenExt {
    spec fn as_text(&self) -> Seq<char>;

    fn to_token(&self, kind: u32) -> (r: TokenData)
        ensures
            r.kind == kind,
            r.value@ == self.as_text(),
            r.label@ == self.as_text(),
            r.location == (0usize, encode_utf8(self.as_text()).len() as usize),
            r.span == (0usize, encode_utf8(self.as_text()).len() as usize),
    ;
}

impl TokenExt for &'static str {
    open spec fn as_text(&self) -> Seq<char> {
        self@
    }

    fn to_token(&self, kind: u32) -> (r: TokenData) {
        TokenData::from_str(self, kind)
    }
}

impl TokenExt for String {
    open spec fn as_text(&self) -> Seq<char> {
        self@
    }

    fn to_token(&self, kind: u32) -> (r: TokenData) {
        TokenData::from_str(self.as_str(), kind)
    }
}

} // verus!
