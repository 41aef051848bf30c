//! Finding separators in a byte stream: single bytes, line ends, and the
//! optional whitespace around a header value.

use vstd::prelude::*;
use vstd::slice::slice_subrange;

verus! {

pub const CR: u8 = 13;

pub const LF: u8 = 10;

pub const SPACE: u8 = 32;

pub const TAB: u8 = 9;

pub const COLON: u8 = 58;

/// The index of the first `b` in `s` at or after `from`, or the length of `s`
/// where there is none.
pub open spec fn first_byte_from(s: Seq<u8>, b: u8, from: int) -> int
    decreases s.len() - from,
{
    if from < 0 || from >= s.len() {
        s.len() as int
    } else if s[from] == b {
        from
    } else {
        first_byte_from(s, b, from + 1)
    }
}

/// The index of the first `b` in `s`, or the length of `s` where there is
/// none.
pub open spec fn first_byte(s: Seq<u8>, b: u8) -> int {
    first_byte_from(s, b, 0)
}

/// The index at which the first line break (a carriage return followed by a
/// line feed) at or after `from` begins, or the length of `s` where there is
/// none.
pub open spec fn line_end(s: Seq<u8>, from: int) -> int
    decreases s.len() - from,
{
    if from < 0 || from + 1 >= s.len() {
        s.len() as int
    } else if s[from] == CR && s[from + 1] == LF {
        from
    } else {
        line_end(s, from + 1)
    }
}

/// A space or a horizontal tab.
pub open spec fn is_blank(b: u8) -> bool {
    b == SPACE || b == TAB
}

/// `s` without the blanks at its start.
pub open spec fn trim_start(s: Seq<u8>) -> Seq<u8>
    decreases s.len(),
{
    if s.len() > 0 && is_blank(s[0]) {
        trim_start(s.drop_first())
    } else {
        s
    }
}

/// `s` without the blanks at its end.
pub open spec fn trim_end(s: Seq<u8>) -> Seq<u8>
    decreases s.len(),
{
    if s.len() > 0 && is_blank(s.last()) {
        trim_end(s.drop_last())
    } else {
        s
    }
}

/// `s` without the blanks at either end.
pub open spec fn trim_blanks(s: Seq<u8>) -> Seq<u8> {
    trim_end(trim_start(s))
}

/// Where the first `b` of `s` stands, and that nothing before it is `b`.
pub proof fn lemma_first_byte(s: Seq<u8>, b: u8, from: int)
    requires
        0 <= from <= s.len(),
    ensures
        from <= first_byte_from(s, b, from) <= s.len(),
        first_byte_from(s, b, from) < s.len() ==> s[first_byte_from(s, b, from)] == b,
        forall|j: int| from <= j < first_byte_from(s, b, from) ==> s[j] != b,
    decreases s.len() - from,
{
    if from < s.len() && s[from] != b {
        lemma_first_byte(s, b, from + 1);
    }
}

/// Where the first line break of `s` stands, and that none begins before it.
pub proof fn lemma_line_end(s: Seq<u8>, from: int)
    requires
        0 <= from <= s.len(),
    ensures
        from <= line_end(s, from) <= s.len(),
        line_end(s, from) < s.len() ==> line_end(s, from) + 1 < s.len() && s[line_end(s, from)]
            == CR && s[line_end(s, from) + 1] == LF,
        forall|j: int|
            #![trigger s[j]]
            from <= j < line_end(s, from) && j + 1 < s.len() ==> !(s[j] == CR && s[j + 1] == LF),
    decreases s.len() - from,
{
    if from + 1 < s.len() && !(s[from] == CR && s[from + 1] == LF) {
        lemma_line_end(s, from + 1);
    }
}

/// Finds the first `b` in `s`.
pub fn find_byte(s: &[u8], b: u8) -> (at: usize)
    ensures
        at == first_byte(s@, b),
        at <= s.len(),
{
    let mut i: usize = 0;
    while i < s.len()
        invariant
            i <= s.len(),
            first_byte(s@, b) == first_byte_from(s@, b, i as int),
        decreases s.len() - i,
    {
        if s[i] == b {
            return i;
        }
        i += 1;
    }
    i
}

/// Finds the first line break of `s` at or after `from`.
pub fn find_line_end(s: &[u8], from: usize) -> (at: usize)
    ensures
        at == line_end(s@, from as int),
        at <= s.len(),
        from <= s.len() ==> from <= at,
        at < s.len() ==> at + 1 < s.len(),
{
    let mut i: usize = from;
    while i < s.len() && s.len() - i >= 2
        invariant
            from <= i,
            line_end(s@, from as int) == line_end(s@, i as int),
        decreases s.len() - i,
    {
        if s[i] == CR && s[i + 1] == LF {
            return i;
        }
        i += 1;
    }
    s.len()
}

/// Cuts the blanks off both ends of `s`.
pub fn trim(s: &[u8]) -> (trimmed: &[u8])
    ensures
        trimmed@ == trim_blanks(s@),
{
    let mut lo: usize = 0;
    proof {
        assert(s@.subrange(0, s.len() as int) =~= s@);
    }
    while lo < s.len() && (s[lo] == SPACE || s[lo] == TAB)
        invariant
            lo <= s.len(),
            trim_start(s@) == trim_start(s@.subrange(lo as int, s.len() as int)),
        decreases s.len() - lo,
    {
        proof {
            let rest = s@.subrange(lo as int, s.len() as int);
            assert(rest.drop_first() =~= s@.subrange(lo + 1, s.len() as int));
        }
        lo += 1;
    }
    let mut hi: usize = s.len();
    proof {
        assert(s@.subrange(lo as int, s.len() as int).len() > 0 ==> s@.subrange(lo as int, s.len() as int)[0] == s[lo as int]);
        assert(trim_start(s@) == s@.subrange(lo as int, s.len() as int));
    }
    while hi > lo && (s[hi - 1] == SPACE || s[hi - 1] == TAB)
        invariant
            lo <= hi <= s.len(),
            trim_blanks(s@) == trim_end(s@.subrange(lo as int, hi as int)),
        decreases hi - lo,
    {
        proof {
            let rest = s@.subrange(lo as int, hi as int);
            assert(rest.drop_last() =~= s@.subrange(lo as int, hi - 1));
        }
        hi -= 1;
    }
    proof {
        let rest = s@.subrange(lo as int, hi as int);
        assert(rest.len() > 0 ==> rest.last() == s[hi - 1]);
    }
    slice_subrange(s, lo, hi)
}

} // verus!
