//! Cutting text at the first occurrence of a character.
use vstd::prelude::*;
use vstd::string::{StrSliceExecFns, StringSliceAdditionalSpecFns};
use vstd::utf8::encode_utf8_decode_utf8;

verus! {

/// The index of the first `c` in `s`, or the length of `s` where there is
/// none.
pub open spec fn first_index(s: Seq<char>, c: char) -> int
    decreases s.len(),
{
    if s.len() == 0 {
        0
    } else if s.first() == c {
        0
    } else {
        1 + first_index(s.drop_first(), c)
    }
}

/// `first_index` is the first index at which `c` stands.
pub proof fn lemma_first_index(s: Seq<char>, c: char)
    ensures
        0 <= first_index(s, c) <= s.len(),
        first_index(s, c) < s.len() ==> s[first_index(s, c)] == c,
        forall|i: int| 0 <= i < first_index(s, c) ==> s[i] != c,
    decreases s.len(),
{
    if s.len() > 0 && s.first() != c {
        let rest = s.drop_first();
        lemma_first_index(rest, c);
        assert forall|i: int| 0 <= i < first_index(s, c) implies s[i] != c by {
            if i > 0 {
                assert(s[i] == rest[i - 1]);
            }
        }
    }
}

/// An index at which `c` stands, with no `c` before it, is the first index.
pub proof fn lemma_first_index_is(s: Seq<char>, c: char, k: int)
    requires
        0 <= k <= s.len(),
        forall|i: int| 0 <= i < k ==> s[i] != c,
        k < s.len() ==> s[k] == c,
    ensures
        first_index(s, c) == k,
{
    lemma_first_index(s, c);
}

/// The part of `s` before the first `c`, and the part behind it if `s` holds
/// a `c`.
pub open spec fn cut(s: Seq<char>, c: char) -> (Seq<char>, Option<Seq<char>>) {
    let k = first_index(s, c);
    if k < s.len() {
        (s.take(k), Some(s.skip(k + 1)))
    } else {
        (s, None)
    }
}

/// Cuts `s` at the first `c`.
pub fn cut_at_first(s: &str, c: char) -> (parts: (&str, Option<&str>))
    ensures
        parts.0@ == cut(s@, c).0,
        match (parts.1, cut(s@, c).1) {
            (Some(tail), Some(rest)) => tail@ == rest,
            (None, None) => true,
            _ => false,
        },
{
    broadcast use vstd::string::group_string_axioms;

    let len = s.unicode_len();
    let mut found: Option<usize> = None;
    let mut n: usize = 0;
    for ch in it: s.chars()
        invariant
            it.seq() == s@,
            len == s@.len(),
            n == it.index(),
            match found {
                Some(k) => k < n && s@[k as int] == c && forall|i: int| 0 <= i < k ==> s@[i] != c,
                None => forall|i: int| 0 <= i < n ==> s@[i] != c,
            },
    {
        if found.is_none() && ch == c {
            found = Some(n);
        }
        n = n + 1;
    }
    match found {
        Some(k) => {
            proof {
                lemma_first_index_is(s@, c, k as int);
            }
            (s.substring_char(0, k), Some(s.substring_char(k + 1, n)))
        },
        None => {
            proof {
                lemma_first_index_is(s@, c, n as int);
            }
            (s, None)
        },
    }
}

/// Whether `a` and `b` are the same text.
pub fn same_text(a: &str, b: &str) -> (same: bool)
    ensures
        same == (a@ == b@),
{
    proof {
        encode_utf8_decode_utf8(a@);
        encode_utf8_decode_utf8(b@);
    }
    let x = a.as_bytes();
    let y = b.as_bytes();
    if x.len() != y.len() {
        return false;
    }
    let mut i: usize = 0;
    while i < x.len()
        invariant
            x@ == a.spec_bytes(),
            y@ == b.spec_bytes(),
            x@.len() == y@.len(),
            i <= x@.len(),
            forall|k: int| 0 <= k < i ==> x@[k] == y@[k],
        decreases x.len() - i,
    {
        if x[i] != y[i] {
            return false;
        }
        i += 1;
    }
    assert(x@ =~= y@);
    true
}

/// What `is_whitespace` of std's `char` says of `c`.
pub uninterp spec fn is_white_space(c: char) -> bool;

/// Whether `c` is white space among the characters of ASCII: the blank and
/// the five from the tab to the carriage return.
pub open spec fn is_ascii_white_space(c: char) -> bool {
    c == ' ' || '\t' <= c <= '\r'
}

/// Whether `c` is white space: among the characters of ASCII the blank and
/// the five from the tab to the carriage return, and beyond them what
/// `is_whitespace` of std's `char` says.
pub open spec fn is_blank(c: char) -> bool {
    if c <= '\x7f' {
        is_ascii_white_space(c)
    } else {
        is_white_space(c)
    }
}

/// Whether `c` is white space, from `is_whitespace` of std's `char`, which
/// goes by the property White_Space of Unicode. Of the characters of ASCII
/// that is the blank and the five from the tab to the carriage return.
#[verifier::external_body]
fn is_space(c: char) -> (space: bool)
    ensures
        space == is_white_space(c),
        space == is_blank(c),
{
    c.is_whitespace()
}

/// The number of characters of white space with which `s` starts.
pub open spec fn white_start(s: Seq<char>) -> int
    decreases s.len(),
{
    if s.len() == 0 || !is_blank(s.first()) {
        0
    } else {
        1 + white_start(s.drop_first())
    }
}

/// The index behind the last character of `s` that is not white space, and
/// 0 where `s` has none.
pub open spec fn text_end(s: Seq<char>) -> int
    decreases s.len(),
{
    if s.len() == 0 {
        0
    } else if !is_blank(s.last()) {
        s.len() as int
    } else {
        text_end(s.drop_last())
    }
}

/// `s` without the white space at its start and at its end.
pub open spec fn trimmed(s: Seq<char>) -> Seq<char> {
    if white_start(s) < text_end(s) {
        s.subrange(white_start(s), text_end(s))
    } else {
        Seq::empty()
    }
}

/// An index with nothing but white space before it, at which something else
/// stands or `s` ends, is where the white space at the start of `s` ends.
pub proof fn lemma_white_start_is(s: Seq<char>, k: int)
    requires
        0 <= k <= s.len(),
        forall|i: int| 0 <= i < k ==> is_blank(#[trigger] s[i]),
        k < s.len() ==> !is_blank(s[k]),
    ensures
        white_start(s) == k,
    decreases s.len(),
{
    if k > 0 {
        let rest = s.drop_first();
        assert(is_blank(s[0]));
        assert forall|i: int| 0 <= i < k - 1 implies is_blank(#[trigger] rest[i]) by {
            assert(rest[i] == s[i + 1]);
        }
        lemma_white_start_is(rest, k - 1);
    }
}

/// The text of `s` ends within `s`, and behind each of its characters that
/// is not white space.
pub proof fn lemma_text_end(s: Seq<char>, k: int)
    requires
        0 <= k < s.len(),
        !is_blank(s[k]),
    ensures
        k < text_end(s) <= s.len(),
    decreases s.len(),
{
    if is_blank(s.last()) {
        lemma_text_end(s.drop_last(), k);
    }
}

/// Takes the white space off both ends of `s`.
pub fn trim(s: &str) -> (inner: &str)
    ensures
        inner@ == trimmed(s@),
{
    broadcast use vstd::string::group_string_axioms;

    let len = s.unicode_len();
    let mut first: Option<usize> = None;
    let mut end: usize = 0;
    let mut n: usize = 0;
    assert(s@.take(0) =~= Seq::<char>::empty());
    for ch in it: s.chars()
        invariant
            it.seq() == s@,
            len == s@.len(),
            n == it.index(),
            end <= n,
            end == text_end(s@.take(n as int)),
            match first {
                Some(k) => k < n && !is_blank(s@[k as int]) && forall|i: int|
                    0 <= i < k ==> is_blank(#[trigger] s@[i]),
                None => forall|i: int| 0 <= i < n ==> is_blank(#[trigger] s@[i]),
            },
    {
        assert(s@.take(n + 1).drop_last() =~= s@.take(n as int));
        assert(s@.take(n + 1).last() == ch);
        if !is_space(ch) {
            if first.is_none() {
                first = Some(n);
            }
            end = n + 1;
        }
        n = n + 1;
    }
    assert(s@.take(n as int) =~= s@);
    match first {
        Some(k) => {
            proof {
                lemma_white_start_is(s@, k as int);
                lemma_text_end(s@, k as int);
            }
            s.substring_char(k, end)
        },
        None => {
            proof {
                lemma_white_start_is(s@, n as int);
            }
            assert(text_end(s@) <= white_start(s@));
            let inner = s.substring_char(0, 0);
            assert(inner@ =~= Seq::<char>::empty());
            inner
        },
    }
}

} // verus!
