//! The four seed words, given as hexadecimal text, read into a generator state.

use vstd::prelude::*;
use vstd::string::*;
use crate::xorshift::XorShift;

verus! {

pub open spec fn is_hex_digit(c: char) -> bool {
    ('0' <= c && c <= '9') || ('a' <= c && c <= 'f') || ('A' <= c && c <= 'F')
}

pub open spec fn hex_digit_value(c: char) -> nat {
    if '0' <= c && c <= '9' {
        (c as u32 - '0' as u32) as nat
    } else if 'a' <= c && c <= 'f' {
        (c as u32 - 'a' as u32 + 10) as nat
    } else {
        (c as u32 - 'A' as u32 + 10) as nat
    }
}

/// The number that the hexadecimal digits `s` spell, most significant first.
pub open spec fn hex_value(s: Seq<char>) -> nat
    decreases s.len(),
{
    if s.len() == 0 {
        0
    } else {
        16 * hex_value(s.drop_last()) + hex_digit_value(s.last())
    }
}

/// The digits of a word: the text after an optional leading `+`.
pub open spec fn word_digits(s: Seq<char>) -> Seq<char> {
    if s.len() > 0 && s[0] == '+' {
        s.drop_first()
    } else {
        s
    }
}

/// The value of a seed word: an optional `+`, then one or more hexadecimal
/// digits of either case whose value fits in 32 bits; no other character,
/// whitespace included.
pub open spec fn parse_hex_word(s: Seq<char>) -> Option<u32> {
    let d = word_digits(s);
    if d.len() > 0 && (forall|i: int| 0 <= i < d.len() ==> is_hex_digit(#[trigger] d[i]))
        && hex_value(d) <= u32::MAX {
        Some(hex_value(d) as u32)
    } else {
        None
    }
}

/// Which of the four seed words could not be read.
#[derive(Clone, Copy, Debug, PartialEq, Eq, Structural)]
pub enum SeedError {
    S0,
    S1,
    S2,
    S3,
}

impl SeedError {
    /// The message shown for the error.
    pub fn message(&self) -> (r: &'static str)
        ensures
            r@ == (match *self {
                SeedError::S0 => "Failed to parse s0"@,
                SeedError::S1 => "Failed to parse s1"@,
                SeedError::S2 => "Failed to parse s2"@,
                SeedError::S3 => "Failed to parse s3"@,
            }),
    {
        match self {
            SeedError::S0 => "Failed to parse s0",
            SeedError::S1 => "Failed to parse s1",
            SeedError::S2 => "Failed to parse s2",
            SeedError::S3 => "Failed to parse s3",
        }
    }
}

proof fn lemma_hex_value_prefix(s: Seq<char>, k: int)
    requires
        0 <= k <= s.len(),
    ensures
        hex_value(s.subrange(0, k)) <= hex_value(s),
    decreases s.len() - k,
{
    if k < s.len() {
        lemma_hex_value_prefix(s.drop_last(), k);
        assert(s.drop_last().subrange(0, k) =~= s.subrange(0, k));
    } else {
        assert(s.subrange(0, k) =~= s);
    }
}

/// Reads one seed word.
pub fn parse_seed_word(s: &str) -> (r: Option<u32>)
    ensures
        r == parse_hex_word(s@),
{
    let n = s.unicode_len();
    let mut start: usize = 0;
    if n > 0 && s.get_char(0) == '+' {
        start = 1;
    }
    let ghost d = word_digits(s@);
    assert(d =~= s@.subrange(start as int, n as int));
    if start == n {
        return None;
    }
    let mut acc: u64 = 0;
    let mut i: usize = start;
    while i < n
        invariant
            start <= i <= n,
            n == s@.len(),
            d == s@.subrange(start as int, n as int),
            d == word_digits(s@),
            forall|t: int| 0 <= t < i - start ==> is_hex_digit(#[trigger] d[t]),
            acc == hex_value(d.subrange(0, i - start)),
            acc <= u32::MAX,
        decreases n - i,
    {
        let c = s.get_char(i);
        assert(c == d[i - start]);
        let v: u64;
        if '0' <= c && c <= '9' {
            v = (c as u32 - '0' as u32) as u64;
        } else if 'a' <= c && c <= 'f' {
            v = (c as u32 - 'a' as u32 + 10) as u64;
        } else if 'A' <= c && c <= 'F' {
            v = (c as u32 - 'A' as u32 + 10) as u64;
        } else {
            assert(!is_hex_digit(d[i - start]));
            return None;
        }
        assert(v == hex_digit_value(c));
        assert(d.subrange(0, i - start + 1).drop_last() =~= d.subrange(0, i - start));
        assert(d.subrange(0, i - start + 1).last() == c);
        acc = acc * 16 + v;
        if acc > u32::MAX as u64 {
            proof {
                lemma_hex_value_prefix(d, i - start + 1);
                assert(hex_value(d.subrange(0, i - start + 1)) == acc);
            }
            return None;
        }
        i = i + 1;
    }
    assert(d.subrange(0, n - start) =~= d);
    Some(acc as u32)
}

/// Reads the four seed words into a generator state; reports the first word
/// that cannot be read, before any state exists.
pub fn parse_seed(s0: &str, s1: &str, s2: &str, s3: &str) -> (r: Result<XorShift, SeedError>)
    ensures
        parse_hex_word(s0@) is None ==> r == Err::<XorShift, SeedError>(SeedError::S0),
        parse_hex_word(s0@) is Some && parse_hex_word(s1@) is None ==> r == Err::<
            XorShift,
            SeedError,
        >(SeedError::S1),
        parse_hex_word(s0@) is Some && parse_hex_word(s1@) is Some && parse_hex_word(s2@) is None
            ==> r == Err::<XorShift, SeedError>(SeedError::S2),
        parse_hex_word(s0@) is Some && parse_hex_word(s1@) is Some && parse_hex_word(s2@) is Some
            && parse_hex_word(s3@) is None ==> r == Err::<XorShift, SeedError>(SeedError::S3),
        r is Ok <==> (parse_hex_word(s0@) is Some && parse_hex_word(s1@) is Some && parse_hex_word(
            s2@,
        ) is Some && parse_hex_word(s3@) is Some),
        r is Ok ==> r->Ok_0.words() == seq![
            parse_hex_word(s0@)->Some_0,
            parse_hex_word(s1@)->Some_0,
            parse_hex_word(s2@)->Some_0,
            parse_hex_word(s3@)->Some_0,
        ],
{
    let w0 = match parse_seed_word(s0) {
        Some(v) => v,
        None => return Err(SeedError::S0),
    };
    let w1 = match parse_seed_word(s1) {
        Some(v) => v,
        None => return Err(SeedError::S1),
    };
    let w2 = match parse_seed_word(s2) {
        Some(v) => v,
        None => return Err(SeedError::S2),
    };
    let w3 = match parse_seed_word(s3) {
        Some(v) => v,
        None => return Err(SeedError::S3),
    };
    let r = XorShift::from_state([w0, w1, w2, w3]);
    assert([w0, w1, w2, w3]@ =~= seq![w0, w1, w2, w3]);
    Ok(r)
}

} // verus!
