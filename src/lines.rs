//! Terminator-insensitive comparison of lines.
use vstd::prelude::*;

verus! {

/// A byte that ends a line: `\n` or `\r`.
pub open spec fn is_terminator(b: u8) -> bool {
    b == 10u8 || b == 13u8
}

/// The line with every trailing terminator byte removed.
pub open spec fn stripped(s: Seq<u8>) -> Seq<u8>
    decreases s.len(),
{
    if s.len() > 0 && is_terminator(s.last()) {
        stripped(s.drop_last())
    } else {
        s
    }
}

/// Two lines that are equal up to their trailing terminators.
pub open spec fn same_line(a: Seq<u8>, b: Seq<u8>) -> bool {
    stripped(a) == stripped(b)
}

/// A prefix of `s` that keeps every non-terminator byte strips to `stripped(s)`.
proof fn lemma_stripped_of_cut(s: Seq<u8>, n: int)
    requires
        0 <= n <= s.len(),
        n == 0 || !is_terminator(s[n - 1]),
        forall|i: int| n <= i < s.len() ==> is_terminator(#[trigger] s[i]),
    ensures
        stripped(s) == s.subrange(0, n),
    decreases s.len(),
{
    if s.len() > n {
        assert(is_terminator(s[s.len() - 1]));
        assert(s.drop_last() =~= s.drop_last().subrange(0, s.drop_last().len() as int));
        lemma_stripped_of_cut(s.drop_last(), n);
        assert(s.drop_last().subrange(0, n) =~= s.subrange(0, n));
    } else {
        assert(s =~= s.subrange(0, n));
    }
}

/// The length of a line once its trailing terminators are removed.
pub fn content_len(line: &Vec<u8>) -> (n: usize)
    ensures
        n <= line@.len(),
        n == stripped(line@).len(),
        stripped(line@) == line@.subrange(0, n as int),
{
    let mut n: usize = line.len();
    while n > 0 && (line[n - 1] == 10u8 || line[n - 1] == 13u8)
        invariant
            n <= line@.len(),
            forall|i: int| n <= i < line@.len() ==> is_terminator(#[trigger] line@[i]),
        decreases n,
    {
        n = n - 1;
    }
    proof {
        lemma_stripped_of_cut(line@, n as int);
    }
    n
}

/// Whether two lines are equal up to their trailing terminators.
pub fn lines_match(a: &Vec<u8>, b: &Vec<u8>) -> (r: bool)
    ensures
        r == same_line(a@, b@),
{
    let na = content_len(a);
    let nb = content_len(b);
    if na != nb {
        return false;
    }
    let mut i: usize = 0;
    while i < na
        invariant
            na == nb,
            na <= a@.len(),
            nb <= b@.len(),
            i <= na,
            stripped(a@) == a@.subrange(0, na as int),
            stripped(b@) == b@.subrange(0, nb as int),
            forall|j: int| 0 <= j < i ==> a@[j] == b@[j],
        decreases na - i,
    {
        if a[i] != b[i] {
            assert(stripped(a@)[i as int] != stripped(b@)[i as int]);
            return false;
        }
        i = i + 1;
    }
    assert(stripped(a@) =~= stripped(b@));
    true
}

} // verus!
