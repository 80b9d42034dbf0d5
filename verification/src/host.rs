//! The name under which a node answers for its own addresses.

use vstd::prelude::*;
use rand::distr::Alphanumeric;
use rand::{rng, Rng};
use crate::text::{chars_of, slice_chars, string_of};

verus! {

/// Whether `b` is an ASCII letter or digit.
pub open spec fn is_alphanumeric_byte(b: u8) -> bool {
    (0x30 <= b <= 0x39) || (0x41 <= b <= 0x5a) || (0x61 <= b <= 0x7a)
}

/// Whether `c` is an ASCII letter or digit.
pub open spec fn is_alphanumeric(c: char) -> bool {
    ('0' <= c && c <= '9') || ('A' <= c && c <= 'Z') || ('a' <= c && c <= 'z')
}

/// The lower-case form of an ASCII letter; any other character as it is.
pub open spec fn lower(c: char) -> char {
    if 'A' <= c && c <= 'Z' {
        ((c as u8 + 32) as u8) as char
    } else {
        c
    }
}

/// Random ASCII letters and digits.
///
/// Samples `len` bytes from `rand::distr::Alphanumeric`, whose values are
/// the bytes of `a-z`, `A-Z` and `0-9`.
#[verifier::external_body]
fn sample_alphanumeric(len: usize) -> (r: Vec<u8>)
    ensures
        r@.len() == len,
        forall|i: int| 0 <= i < r@.len() ==> is_alphanumeric_byte(#[trigger] r@[i]),
{
    rng().sample_iter(&Alphanumeric).take(len).collect()
}

/// A random string of `len` ASCII letters and digits.
pub fn random_alphanumeric_string(len: usize) -> (r: String)
    ensures
        r@.len() == len,
        forall|i: int| 0 <= i < r@.len() ==> is_alphanumeric(#[trigger] r@[i]),
{
    let bytes = sample_alphanumeric(len);
    let mut chars: Vec<char> = Vec::new();
    let mut i: usize = 0;
    while i < bytes.len()
        invariant
            i <= bytes.len(),
            chars@.len() == i,
            forall|j: int| 0 <= j < bytes@.len() ==> is_alphanumeric_byte(#[trigger] bytes@[j]),
            forall|j: int| 0 <= j < i ==> is_alphanumeric(#[trigger] chars@[j]),
        decreases bytes.len() - i,
    {
        let b = bytes[i];
        assert(is_alphanumeric_byte(b));
        chars.push(b as char);
        i += 1;
    }
    string_of(&chars)
}

/// The text with each ASCII letter in lower case and each run of other
/// characters than ASCII letters and digits replaced by one hyphen.
pub open spec fn collapsed(s: Seq<char>) -> Seq<char>
    decreases s.len(),
{
    if s.len() == 0 {
        Seq::empty()
    } else {
        let before = collapsed(s.drop_last());
        let c = s.last();
        if is_alphanumeric(c) {
            before.push(lower(c))
        } else if before.len() > 0 && before.last() == '-' {
            before
        } else {
            before.push('-')
        }
    }
}

/// The text without a hyphen at its start and without one at its end.
pub open spec fn trimmed(s: Seq<char>) -> Seq<char> {
    let t = if s.len() > 0 && s[0] == '-' {
        s.skip(1)
    } else {
        s
    };
    if t.len() > 0 && t.last() == '-' {
        t.drop_last()
    } else {
        t
    }
}

/// The host label made of an operating-system host name.
pub open spec fn sanitized(raw: Seq<char>) -> Seq<char> {
    trimmed(collapsed(raw))
}

/// In a collapsed text every character is a lower-case letter, a digit or
/// a hyphen, and no hyphen follows another.
pub proof fn lemma_collapsed_shape(s: Seq<char>)
    ensures
        forall|i: int|
            0 <= i < collapsed(s).len() ==> {
                let c = #[trigger] collapsed(s)[i];
                ('a' <= c && c <= 'z') || ('0' <= c && c <= '9') || c == '-'
            },
        forall|i: int|
            0 <= i < collapsed(s).len() - 1 ==> !(#[trigger] collapsed(s)[i] == '-' && collapsed(
                s,
            )[i + 1] == '-'),
    decreases s.len(),
{
    if s.len() > 0 {
        lemma_collapsed_shape(s.drop_last());
        let before = collapsed(s.drop_last());
        let c = s.last();
        if is_alphanumeric(c) {
            let l = lower(c);
            assert(('a' <= l && l <= 'z') || ('0' <= l && l <= '9')) by {
                if 'A' <= c && c <= 'Z' {
                    assert('a' <= ((c as u8 + 32) as u8) as char <= 'z');
                }
            }
        }
    }
}

/// Makes a host label of an operating-system host name: ASCII letters go to
/// lower case, each run of other characters than letters and digits becomes
/// one hyphen, and a hyphen at the start or the end is dropped.
pub fn sanitize_hostname(raw: &str) -> (r: String)
    ensures
        r@ == sanitized(raw@),
        forall|i: int|
            0 <= i < r@.len() ==> {
                let c = #[trigger] r@[i];
                ('a' <= c && c <= 'z') || ('0' <= c && c <= '9') || c == '-'
            },
        r@.len() > 0 ==> r@[0] != '-' && r@.last() != '-',
{
    let chars = chars_of(raw);
    let mut out: Vec<char> = Vec::new();
    let mut prev_hyphen = false;
    let mut i: usize = 0;
    assert(chars@.take(0) =~= Seq::empty());
    while i < chars.len()
        invariant
            i <= chars.len(),
            out@ == collapsed(chars@.take(i as int)),
            prev_hyphen == (out@.len() > 0 && out@.last() == '-'),
        decreases chars.len() - i,
    {
        let c = chars[i];
        proof {
            let next = chars@.take(i as int + 1);
            assert(next.drop_last() =~= chars@.take(i as int));
            assert(next.last() == c);
        }
        if (c >= '0' && c <= '9') || (c >= 'a' && c <= 'z') {
            out.push(c);
            prev_hyphen = false;
        } else if c >= 'A' && c <= 'Z' {
            let l = ((c as u8) + 32) as char;
            out.push(l);
            prev_hyphen = false;
        } else if !prev_hyphen {
            out.push('-');
            prev_hyphen = true;
        }
        i += 1;
    }
    assert(chars@.take(chars.len() as int) =~= chars@);
    proof {
        lemma_collapsed_shape(chars@);
    }
    let from: usize = if out.len() > 0 && out[0] == '-' {
        1
    } else {
        0
    };
    let to: usize = if out.len() > from && out[out.len() - 1] == '-' {
        out.len() - 1
    } else {
        out.len()
    };
    let kept = slice_chars(&out, from, to);
    proof {
        let t = if out@.len() > 0 && out@[0] == '-' {
            out@.skip(1)
        } else {
            out@
        };
        assert(t =~= out@.subrange(from as int, out@.len() as int));
        assert(kept@ =~= trimmed(out@));
        assert forall|k: int| 0 <= k < kept@.len() implies kept@[k] == out@[from + k] by {}
        if kept@.len() > 0 {
            if from == 1 {
                assert(out@[0] == '-');
                assert(!(collapsed(chars@)[0] == '-' && collapsed(chars@)[1] == '-'));
            }
            if to < out.len() {
                assert(!(collapsed(chars@)[to as int - 1] == '-' && collapsed(chars@)[to as int]
                    == '-'));
            }
        }
    }
    string_of(&kept)
}

/// The text `.local`.
pub open spec fn dot_local() -> Seq<char> {
    seq!['.', 'l', 'o', 'c', 'a', 'l']
}

/// The name under which a node answers for its addresses: the sanitized host
/// name, or eight random letters and digits where that is empty, followed
/// by `.local`.
pub fn mdns_hostname(raw: &str) -> (r: String)
    ensures
        sanitized(raw@).len() > 0 ==> r@ == sanitized(raw@) + dot_local(),
        sanitized(raw@).len() == 0 ==> {
            &&& r@.len() == 8 + 6
            &&& r@.skip(8) == dot_local()
            &&& forall|i: int| 0 <= i < 8 ==> is_alphanumeric(#[trigger] r@[i])
        },
{
    let label = sanitize_hostname(raw);
    let mut chars = chars_of(label.as_str());
    if chars.len() == 0 {
        let random = random_alphanumeric_string(8);
        chars = chars_of(random.as_str());
    }
    let ghost head = chars@;
    chars.push('.');
    chars.push('l');
    chars.push('o');
    chars.push('c');
    chars.push('a');
    chars.push('l');
    assert(chars@ =~= head + dot_local());
    assert(chars@.skip(head.len() as int) =~= dot_local());
    string_of(&chars)
}

} // verus!
