//! Texts as UTF-8 byte strings: searching, comparing and cutting `&str`
//! values at positions that are known to lie between characters.

use vstd::prelude::*;
use vstd::string::*;
use vstd::utf8::*;

verus! {

/// The position of the first `b` in `s`, or `s.len()` when `s` holds none.
pub open spec fn find(s: Seq<u8>, b: u8) -> int
    decreases s.len(),
{
    if s.len() == 0 || s[0] == b {
        0
    } else {
        1 + find(s.drop_first(), b)
    }
}

/// `find` lies within the text, points at a `b` unless it is the length, and
/// nothing before it is a `b`.
pub proof fn lemma_find(s: Seq<u8>, b: u8)
    ensures
        0 <= find(s, b) <= s.len(),
        find(s, b) < s.len() ==> s[find(s, b)] == b,
        forall|j: int| 0 <= j < find(s, b) ==> s[j] != b,
    decreases s.len(),
{
    if s.len() == 0 || s[0] == b {
    } else {
        let t = s.drop_first();
        lemma_find(t, b);
        assert forall|j: int| 0 <= j < find(s, b) implies s[j] != b by {
            if j > 0 {
                assert(s[j] == t[j - 1]);
            }
        }
    }
}

/// A position with the properties of `find` is `find`.
pub proof fn lemma_find_unique(s: Seq<u8>, b: u8, i: int)
    requires
        0 <= i <= s.len(),
        i < s.len() ==> s[i] == b,
        forall|j: int| 0 <= j < i ==> s[j] != b,
    ensures
        find(s, b) == i,
{
    lemma_find(s, b);
    let k = find(s, b);
    if k < i {
        assert(s[k] != b);
    }
}

/// In the text `prefix + tail`, where `prefix` holds no `b`, the first `b`
/// is the first one of `tail`.
pub proof fn lemma_find_concat(prefix: Seq<u8>, tail: Seq<u8>, b: u8)
    requires
        forall|j: int| 0 <= j < prefix.len() ==> prefix[j] != b,
    ensures
        find(prefix + tail, b) == prefix.len() + find(tail, b),
{
    lemma_find(tail, b);
    lemma_find_unique(prefix + tail, b, prefix.len() + find(tail, b));
}

/// The UTF-8 bytes of a `String`.
pub open spec fn string_bytes(s: String) -> Seq<u8> {
    encode_utf8(s@)
}

/// After a one-byte character at the start of valid UTF-8, the next
/// character begins.
pub proof fn lemma_boundary_after_ascii(bytes: Seq<u8>)
    requires
        valid_utf8(bytes),
        bytes.len() > 0,
        bytes[0] < 0x80,
    ensures
        is_char_boundary(bytes, 1),
{
    reveal_with_fuel(is_char_boundary, 2);
    assert(length_of_first_scalar(bytes) == 1);
}

/// An ASCII byte inside valid UTF-8 stands at the start of a character.
pub proof fn lemma_boundary_at_ascii(bytes: Seq<u8>, i: int)
    requires
        valid_utf8(bytes),
        0 <= i < bytes.len(),
        bytes[i] < 0x80,
    ensures
        is_char_boundary(bytes, i),
{
    is_char_boundary_iff_not_is_continuation_byte(bytes, i);
}

/// The first byte of a text, if it has one.
pub(crate) fn first_byte(s: &str) -> (r: Option<u8>)
    ensures
        r == (if s.spec_bytes().len() == 0 {
            None
        } else {
            Some(s.spec_bytes()[0])
        }),
{
    let bytes = s.as_bytes();
    if bytes.len() == 0 {
        None
    } else {
        Some(bytes[0])
    }
}

/// Whether a text begins with the byte `b`.
pub(crate) fn starts_with_byte(s: &str, b: u8) -> (r: bool)
    ensures
        r == (s.spec_bytes().len() > 0 && s.spec_bytes()[0] == b),
{
    match first_byte(s) {
        Some(x) => x == b,
        None => false,
    }
}

/// Drops the first byte of a text that begins with an ASCII character.
pub(crate) fn skip_ascii<'a>(s: &'a str) -> (r: &'a str)
    requires
        s.spec_bytes().len() > 0,
        s.spec_bytes()[0] < 0x80,
    ensures
        r.spec_bytes() == s.spec_bytes().skip(1),
{
    proof {
        encode_utf8_valid_utf8(s@);
        lemma_boundary_after_ascii(s.spec_bytes());
    }
    cut(s, 1).1
}

/// Cuts a text in two at byte `mid`, which must lie between characters.
pub(crate) fn cut<'a>(s: &'a str, mid: usize) -> (r: (&'a str, &'a str))
    requires
        mid <= s.spec_bytes().len(),
        is_char_boundary(s.spec_bytes(), mid as int),
    ensures
        r.0.spec_bytes() == s.spec_bytes().take(mid as int),
        r.1.spec_bytes() == s.spec_bytes().skip(mid as int),
{
    let r = s.split_at(mid);
    assert(r.0.spec_bytes() =~= s.spec_bytes().take(mid as int));
    assert(r.1.spec_bytes() =~= s.spec_bytes().skip(mid as int));
    r
}

/// Whether a text ends with the two bytes `a`, `b`.
pub open spec fn ends_with_pair(s: Seq<u8>, a: u8, b: u8) -> bool {
    s.len() >= 2 && s[s.len() - 2] == a && s[s.len() - 1] == b
}

/// A text without its last two bytes, where these are the ASCII bytes `a`, `b`.
pub(crate) fn strip_pair<'a>(s: &'a str, a: u8, b: u8) -> (r: Option<&'a str>)
    requires
        a < 0x80,
    ensures
        match r {
            Some(front) => ends_with_pair(s.spec_bytes(), a, b) && front.spec_bytes()
                == s.spec_bytes().take(s.spec_bytes().len() - 2),
            None => !ends_with_pair(s.spec_bytes(), a, b),
        },
{
    let bytes = s.as_bytes();
    let n = bytes.len();
    if n < 2 || bytes[n - 2] != a || bytes[n - 1] != b {
        return None;
    }
    proof {
        encode_utf8_valid_utf8(s@);
        lemma_boundary_at_ascii(s.spec_bytes(), n - 2);
    }
    Some(cut(s, n - 2).0)
}

/// The position of the first `b` in a text, if it holds one.
pub(crate) fn find_byte(s: &str, b: u8) -> (r: Option<usize>)
    ensures
        match r {
            Some(i) => i == find(s.spec_bytes(), b) && i < s.spec_bytes().len()
                && s.spec_bytes()[i as int] == b,
            None => find(s.spec_bytes(), b) == s.spec_bytes().len(),
        },
{
    let bytes = s.as_bytes();
    let mut i: usize = 0;
    while i < bytes.len() && bytes[i] != b
        invariant
            bytes@ == s.spec_bytes(),
            i <= bytes.len(),
            forall|j: int| 0 <= j < i ==> bytes@[j] != b,
        decreases bytes.len() - i,
    {
        i += 1;
    }
    proof {
        lemma_find_unique(s.spec_bytes(), b, i as int);
    }
    if i < bytes.len() {
        Some(i)
    } else {
        None
    }
}

/// Whether two texts hold the same bytes.
pub(crate) fn same_text(a: &str, b: &str) -> (r: bool)
    ensures
        r == (a.spec_bytes() == b.spec_bytes()),
{
    let x = a.as_bytes();
    let y = b.as_bytes();
    if x.len() != y.len() {
        return false;
    }
    let mut i: usize = 0;
    while i < x.len()
        invariant
            x@ == a.spec_bytes(),
            y@ == b.spec_bytes(),
            x.len() == y.len(),
            i <= x.len(),
            forall|j: int| 0 <= j < i ==> x@[j] == y@[j],
        decreases x.len() - i,
    {
        if x[i] != y[i] {
            return false;
        }
        i += 1;
    }
    assert(x@ =~= y@);
    true
}

} // verus!
