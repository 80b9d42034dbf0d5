//! Text helpers: strings as sequences of characters.

use vstd::prelude::*;
use vstd::std_specs::iter::IteratorSpec;
use vstd::utf8::{decode_utf8, valid_utf8};

verus! {

broadcast use vstd::string::group_string_axioms;

/// Appends one character to a string.
///
/// Specifies `String::push`: the string afterwards holds the characters it
/// held before, followed by `c`.
pub assume_specification[ String::push ](s: &mut String, c: char)
    ensures
        final(s)@ == old(s)@.push(c),
;

/// The characters of a string, in order.
pub fn chars_of(s: &str) -> (r: Vec<char>)
    ensures
        r@ == s@,
{
    let mut out: Vec<char> = Vec::new();
    let mut it = s.chars();
    loop
        invariant_except_break
            out@ + it.remaining() == s@,
            it.decrease() is Some,
        ensures
            out@ == s@,
        decreases it.decrease()->0,
    {
        let ghost before = it;
        match it.next() {
            Some(c) => {
                out.push(c);
                assert(out@ + it.remaining() =~= (out@.drop_last() + before.remaining()));
            },
            None => {
                assert(out@ + it.remaining() =~= out@);
                break ;
            },
        }
    }
    out
}

/// The string that holds the given characters, in order.
pub fn string_of(chars: &Vec<char>) -> (r: String)
    ensures
        r@ == chars@,
{
    let mut out = String::new();
    let mut i: usize = 0;
    while i < chars.len()
        invariant
            i <= chars.len(),
            out@ == chars@.take(i as int),
        decreases chars.len() - i,
    {
        out.push(chars[i]);
        assert(chars@.take(i as int + 1) =~= chars@.take(i as int).push(chars@[i as int]));
        i += 1;
    }
    assert(chars@.take(chars.len() as int) =~= chars@);
    out
}

/// Decodes bytes as UTF-8 text.
///
/// Calls `core::str::from_utf8`, which checks that the bytes are valid UTF-8
/// and, if they are, hands them back as text without changing them.
#[verifier::external_body]
pub(crate) fn utf8_text(bytes: &[u8]) -> (r: Option<String>)
    ensures
        r is Some <==> valid_utf8(bytes@),
        r matches Some(s) ==> s@ == decode_utf8(bytes@),
{
    core::str::from_utf8(bytes).ok().map(|s| s.to_owned())
}

/// Whether two byte strings are equal.
pub fn same_bytes(a: &Vec<u8>, b: &Vec<u8>) -> (r: bool)
    ensures
        r == (a@ == b@),
{
    if a.len() != b.len() {
        return false;
    }
    let mut i: usize = 0;
    while i < a.len()
        invariant
            i <= a.len(),
            a.len() == b.len(),
            forall|j: int| 0 <= j < i ==> a[j] == b[j],
        decreases a.len() - i,
    {
        if a[i] != b[i] {
            return false;
        }
        i += 1;
    }
    assert(a@ =~= b@);
    true
}

/// The index of the first `x` in `s`, or the length of `s` where it holds none.
pub open spec fn first_of<T>(s: Seq<T>, x: T) -> int
    decreases s.len(),
{
    if s.len() == 0 {
        0
    } else if s[0] == x {
        0
    } else {
        1 + first_of(s.skip(1), x)
    }
}

/// The first `x` stands at `k` where no `x` stands before `k` and either
/// `s` ends at `k` or holds `x` there.
pub proof fn lemma_first_of<T>(s: Seq<T>, x: T, k: int)
    requires
        0 <= k <= s.len(),
        forall|j: int| 0 <= j < k ==> s[j] != x,
        k == s.len() || s[k] == x,
    ensures
        first_of(s, x) == k,
    decreases s.len(),
{
    if s.len() == 0 {
    } else if k == 0 {
    } else {
        assert(s[0] != x);
        let t = s.skip(1);
        assert forall|j: int| 0 <= j < k - 1 implies t[j] != x by {
            assert(t[j] == s[j + 1]);
        }
        lemma_first_of(t, x, k - 1);
    }
}

/// The index `first_of` gives lies within `s` or at its end, no `x` stands
/// before it, and `x` stands at it unless it is the end.
pub proof fn lemma_first_of_bounds<T>(s: Seq<T>, x: T)
    ensures
        0 <= first_of(s, x) <= s.len(),
        forall|j: int| 0 <= j < first_of(s, x) ==> s[j] != x,
        first_of(s, x) < s.len() ==> s[first_of(s, x)] == x,
    decreases s.len(),
{
    if s.len() == 0 {
    } else if s[0] == x {
    } else {
        let t = s.skip(1);
        lemma_first_of_bounds(t, x);
        assert forall|j: int| 0 <= j < first_of(s, x) implies s[j] != x by {
            if j > 0 {
                assert(t[j - 1] == s[j]);
            }
        }
        assert(first_of(s, x) < s.len() ==> s[first_of(s, x)] == t[first_of(t, x)]);
    }
}

/// The pieces of `s` between occurrences of `sep`, in order. A text without
/// `sep` is one piece; two neighbouring separators enclose an empty piece.
pub open spec fn split_at_each(s: Seq<char>, sep: char) -> Seq<Seq<char>>
    decreases s.len(),
{
    let i = first_of(s, sep);
    if 0 <= i < s.len() {
        seq![s.take(i)] + split_at_each(s.skip(i + 1), sep)
    } else {
        seq![s]
    }
}

/// A text with a separator is its first piece, the separator and the rest,
/// and its pieces are that first piece followed by the pieces of the rest.
pub proof fn lemma_split_unfold(s: Seq<char>, sep: char)
    ensures
        first_of(s, sep) < s.len() ==> {
            &&& s == s.take(first_of(s, sep)) + seq![sep] + s.skip(first_of(s, sep) + 1)
            &&& split_at_each(s, sep) == seq![s.take(first_of(s, sep))] + split_at_each(
                s.skip(first_of(s, sep) + 1),
                sep,
            )
        },
        first_of(s, sep) >= s.len() ==> split_at_each(s, sep) == seq![s],
        split_at_each(s, sep).len() >= 1,
{
    lemma_first_of_bounds(s, sep);
    let i = first_of(s, sep);
    if i < s.len() {
        assert(s =~= s.take(i) + seq![sep] + s.skip(i + 1));
    }
}

/// The pieces of a text that begins with a piece without separator,
/// followed by a separator: that piece, then the pieces of what follows.
pub proof fn lemma_split_joined(a: Seq<char>, b: Seq<char>, sep: char)
    requires
        !a.contains(sep),
    ensures
        split_at_each(a + seq![sep] + b, sep) == seq![a] + split_at_each(b, sep),
        first_of(a + seq![sep] + b, sep) == a.len(),
{
    let s = a + seq![sep] + b;
    assert forall|j: int| 0 <= j < a.len() implies s[j] != sep by {
        assert(s[j] == a[j]);
        assert(a.contains(a[j]));
    }
    assert(s[a.len() as int] == sep);
    lemma_first_of(s, sep, a.len() as int);
    assert(s.take(a.len() as int) =~= a);
    assert(s.skip(a.len() as int + 1) =~= b);
}

/// A text without separator is one piece.
pub proof fn lemma_split_single(a: Seq<char>, sep: char)
    requires
        !a.contains(sep),
    ensures
        split_at_each(a, sep) == seq![a],
{
    assert forall|j: int| 0 <= j < a.len() implies a[j] != sep by {
        assert(a.contains(a[j]));
    }
    lemma_first_of(a, sep, a.len() as int);
}

/// No piece of a text holds the separator.
pub proof fn lemma_pieces_hold_no_separator(s: Seq<char>, sep: char, i: int)
    requires
        0 <= i < split_at_each(s, sep).len(),
    ensures
        !split_at_each(s, sep)[i].contains(sep),
    decreases s.len(),
{
    lemma_first_of_bounds(s, sep);
    let k = first_of(s, sep);
    if k < s.len() {
        if i == 0 {
            let piece = s.take(k);
            if piece.contains(sep) {
                let j = choose|j: int| 0 <= j < piece.len() && piece[j] == sep;
                assert(s[j] == sep);
            }
        } else {
            lemma_pieces_hold_no_separator(s.skip(k + 1), sep, i - 1);
        }
    } else {
        if s.contains(sep) {
            let j = choose|j: int| 0 <= j < s.len() && s[j] == sep;
        }
    }
}

/// The texts of a list of character vectors.
pub open spec fn pieces_view(pieces: Seq<Vec<char>>) -> Seq<Seq<char>> {
    Seq::new(pieces.len(), |i: int| pieces[i]@)
}

/// The characters of `s` from `from` up to `to`.
pub fn slice_chars(s: &Vec<char>, from: usize, to: usize) -> (r: Vec<char>)
    requires
        from <= to <= s.len(),
    ensures
        r@ == s@.subrange(from as int, to as int),
{
    let mut out: Vec<char> = Vec::new();
    let mut i: usize = from;
    while i < to
        invariant
            from <= i <= to,
            to <= s.len(),
            out@ == s@.subrange(from as int, i as int),
        decreases to - i,
    {
        out.push(s[i]);
        assert(s@.subrange(from as int, i as int + 1) =~= s@.subrange(from as int, i as int).push(
            s@[i as int],
        ));
        i += 1;
    }
    out
}

/// Splits a text at each occurrence of `sep`.
pub fn split_chars(s: &Vec<char>, sep: char) -> (r: Vec<Vec<char>>)
    ensures
        pieces_view(r@) == split_at_each(s@, sep),
        r@.len() >= 1,
{
    let mut out: Vec<Vec<char>> = Vec::new();
    let mut start: usize = 0;
    let mut i: usize = 0;
    assert(s@.skip(0) =~= s@);
    assert(pieces_view(out@) =~= Seq::<Seq<char>>::empty());
    while i < s.len()
        invariant
            start <= i <= s.len(),
            forall|j: int| start <= j < i ==> s@[j] != sep,
            split_at_each(s@, sep) == pieces_view(out@) + split_at_each(s@.skip(start as int), sep),
        decreases s.len() - i,
    {
        if s[i] == sep {
            let piece = slice_chars(s, start, i);
            proof {
                let rest = s@.skip(start as int);
                assert forall|j: int| 0 <= j < i - start implies rest[j] != sep by {
                    assert(rest[j] == s@[start + j]);
                }
                lemma_first_of(rest, sep, i - start);
                assert(rest.take(i - start) =~= piece@);
                assert(rest.skip(i - start + 1) =~= s@.skip(i as int + 1));
                assert(pieces_view(out@.push(piece)) =~= pieces_view(out@) + seq![piece@]);
            }
            out.push(piece);
            start = i + 1;
        }
        i += 1;
    }
    let piece = slice_chars(s, start, s.len());
    proof {
        let rest = s@.skip(start as int);
        assert forall|j: int| 0 <= j < rest.len() implies rest[j] != sep by {
            assert(rest[j] == s@[start + j]);
        }
        lemma_first_of(rest, sep, rest.len() as int);
        assert(rest =~= piece@);
        assert(pieces_view(out@.push(piece)) =~= pieces_view(out@) + seq![piece@]);
    }
    out.push(piece);
    out
}

/// Whether `c` is a lower-case ASCII letter, an ASCII digit or a hyphen.
pub open spec fn is_label_char(c: char) -> bool {
    ('a' <= c && c <= 'z') || ('0' <= c && c <= '9') || c == '-'
}

/// Whether `c` is a lower-case ASCII letter, an ASCII digit or a hyphen.
#[verifier::when_used_as_spec(is_label_char)]
pub fn label_char(c: char) -> (r: bool)
    ensures
        r == is_label_char(c),
{
    (c >= 'a' && c <= 'z') || (c >= '0' && c <= '9') || c == '-'
}

} // verus!
