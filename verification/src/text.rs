//! Byte-level facts about UTF-8 encoded text.
//!
//! The lexer measures its progress in bytes, the way Rust strings do, while
//! the mathematical model of a string is its character sequence.  The lemmas
//! here connect the two: concatenation distributes over encoding, encoded
//! lengths bound character counts, and a valid encoded prefix always ends on
//! a character boundary.

use vstd::prelude::*;
use vstd::utf8::*;

verus! {

/// The decimal rendering of a number, most significant digit first.
pub open spec fn u64_dec(n: nat) -> Seq<char>
    decreases n,
{
    if n < 10 {
        seq![dec_digit(n)]
    } else {
        u64_dec(n / 10).push(dec_digit(n % 10))
    }
}

/// The character for one decimal digit.
pub open spec fn dec_digit(d: nat) -> char
    recommends
        d < 10,
{
    if d == 0 {
        '0'
    } else if d == 1 {
        '1'
    } else if d == 2 {
        '2'
    } else if d == 3 {
        '3'
    } else if d == 4 {
        '4'
    } else if d == 5 {
        '5'
    } else if d == 6 {
        '6'
    } else if d == 7 {
        '7'
    } else if d == 8 {
        '8'
    } else {
        '9'
    }
}

/// The text of one decimal digit.
fn digit_str(d: u64) -> (r: &'static str)
    requires
        d < 10,
    ensures
        r@ == seq![dec_digit(d as nat)],
{
    proof {
        reveal_strlit("0");
        reveal_strlit("1");
        reveal_strlit("2");
        reveal_strlit("3");
        reveal_strlit("4");
        reveal_strlit("5");
        reveal_strlit("6");
        reveal_strlit("7");
        reveal_strlit("8");
        reveal_strlit("9");
    }
    let r: &'static str = if d == 0 {
        "0"
    } else if d == 1 {
        "1"
    } else if d == 2 {
        "2"
    } else if d == 3 {
        "3"
    } else if d == 4 {
        "4"
    } else if d == 5 {
        "5"
    } else if d == 6 {
        "6"
    } else if d == 7 {
        "7"
    } else if d == 8 {
        "8"
    } else {
        "9"
    };
    proof {
        assert(r@ =~= seq![dec_digit(d as nat)]);
    }
    r
}

/// Renders a number in decimal, most significant digit first, with no
/// leading zeros.
pub(crate) fn u64_to_string(n: u64) -> (r: String)
    ensures
        r@ == u64_dec(n as nat),
    decreases n,
{
    let d: u64 = n % 10;
    if n < 10 {
        let mut out = String::new();
        out.append(digit_str(d));
        proof {
            assert(out@ =~= u64_dec(n as nat));
        }
        out
    } else {
        let mut out = u64_to_string(n / 10);
        out.append(digit_str(d));
        proof {
            assert(out@ =~= u64_dec(n as nat));
        }
        out
    }
}

/// A run of `n` spaces.
pub open spec fn spaces(n: int) -> Seq<char> {
    Seq::new(if n < 0 { 0 } else { n as nat }, |i: int| ' ')
}

/// Builds a run of `n` spaces.
pub(crate) fn make_spaces(n: usize) -> (r: String)
    ensures
        r@ == spaces(n as int),
{
    let mut out = String::new();
    proof {
        reveal_strlit(" ");
        assert(out@ =~= spaces(0));
    }
    let mut i: usize = 0;
    while i < n
        invariant
            i <= n,
            out@ == spaces(i as int),
        decreases n - i,
    {
        out.append(" ");
        proof {
            reveal_strlit(" ");
            assert(" "@ =~= seq![' ']);
            assert(spaces(i as int) + seq![' '] =~= spaces(i + 1));
        }
        i = i + 1;
    }
    out
}

/// Encoding a concatenation yields the concatenation of the encodings.
pub proof fn lemma_encode_utf8_concat(s1: Seq<char>, s2: Seq<char>)
    ensures
        encode_utf8(s1 + s2) == encode_utf8(s1) + encode_utf8(s2),
    decreases s1.len(),
{
    if s1.len() == 0 {
        assert(s1 + s2 =~= s2);
        assert(encode_utf8(s1) + encode_utf8(s2) =~= encode_utf8(s2));
    } else {
        assert((s1 + s2).drop_first() =~= s1.drop_first() + s2);
        lemma_encode_utf8_concat(s1.drop_first(), s2);
        assert(encode_utf8(s1 + s2) =~= encode_utf8(s1) + encode_utf8(s2));
    }
}

/// Every character occupies between one and four bytes in the encoding.
pub proof fn lemma_encode_utf8_len(s: Seq<char>)
    ensures
        s.len() <= encode_utf8(s).len() <= 4 * s.len(),
    decreases s.len(),
{
    if s.len() == 0 {
    } else {
        lemma_encode_utf8_len(s.drop_first());
    }
}

/// A byte index that closes a valid encoded prefix is a character boundary.
pub proof fn lemma_valid_prefix_is_char_boundary(bytes: Seq<u8>, i: int)
    requires
        valid_utf8(bytes),
        0 <= i <= bytes.len(),
        valid_utf8(bytes.subrange(0, i)),
    ensures
        is_char_boundary(bytes, i),
    decreases i,
{
    if i > 0 {
        let pre = bytes.subrange(0, i);
        let k = length_of_first_scalar(bytes);
        assert(valid_first_scalar(pre));
        assert(pre[0] == bytes[0]);
        assert(length_of_first_scalar(pre) == k);
        assert(k <= i);
        assert(pop_first_scalar(pre) =~= pop_first_scalar(bytes).subrange(0, i - k));
        lemma_valid_prefix_is_char_boundary(pop_first_scalar(bytes), i - k);
    }
}

/// Character boundaries compose: a boundary of the tail that hangs off a
/// boundary of the whole is a boundary of the whole.
pub proof fn lemma_char_boundary_compose(bytes: Seq<u8>, i: int, j: int)
    requires
        valid_utf8(bytes),
        0 <= i <= bytes.len(),
        is_char_boundary(bytes, i),
        0 <= j <= bytes.len() - i,
        is_char_boundary(bytes.subrange(i, bytes.len() as int), j),
    ensures
        is_char_boundary(bytes, i + j),
{
    valid_utf8_split(bytes, i);
    let rest = bytes.subrange(i, bytes.len() as int);
    if i + j == bytes.len() {
        is_char_boundary_start_end_of_seq(bytes);
    } else {
        is_char_boundary_iff_not_is_continuation_byte(rest, j);
        is_char_boundary_iff_not_is_continuation_byte(bytes, i + j);
        assert(rest[j] == bytes[i + j]);
    }
}

/// A character prefix encodes to a byte prefix.
pub proof fn lemma_char_prefix_to_byte_prefix(p: Seq<char>, s: Seq<char>)
    requires
        p.is_prefix_of(s),
    ensures
        encode_utf8(p).is_prefix_of(encode_utf8(s)),
        encode_utf8(s).subrange(0, encode_utf8(p).len() as int) == encode_utf8(p),
{
    assert(s =~= p + s.skip(p.len() as int));
    lemma_encode_utf8_concat(p, s.skip(p.len() as int));
    assert(encode_utf8(s).subrange(0, encode_utf8(p).len() as int) =~= encode_utf8(p));
}

/// A byte prefix that is itself a full encoding comes from a character prefix.
pub proof fn lemma_byte_prefix_to_char_prefix(p: Seq<char>, s: Seq<char>)
    requires
        encode_utf8(p).is_prefix_of(encode_utf8(s)),
    ensures
        p.is_prefix_of(s),
{
    let pb = encode_utf8(p);
    let sb = encode_utf8(s);
    encode_utf8_valid_utf8(p);
    encode_utf8_valid_utf8(s);
    assert(sb.subrange(0, pb.len() as int) =~= pb);
    lemma_valid_prefix_is_char_boundary(sb, pb.len() as int);
    decode_utf8_split(sb, pb.len() as int);
    encode_utf8_decode_utf8(p);
    encode_utf8_decode_utf8(s);
    assert(p.is_prefix_of(s));
}

} // verus!
