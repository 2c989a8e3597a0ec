//! Small byte-sequence helpers shared by the request splitter and the
//! server-side router.

use vstd::prelude::*;

verus! {

/// First index of `b` in `s`, or `s.len()` when `b` does not occur.
pub open spec fn find_byte(s: Seq<u8>, b: u8) -> int
    decreases s.len(),
{
    if s.len() == 0 {
        0
    } else if s[0] == b {
        0
    } else {
        1 + find_byte(s.drop_first(), b)
    }
}

/// Basic facts about `find_byte`: it lands on the first occurrence.
pub proof fn lemma_find_byte(s: Seq<u8>, b: u8)
    ensures
        0 <= find_byte(s, b) <= s.len(),
        find_byte(s, b) < s.len() ==> s[find_byte(s, b)] == b,
        forall|j: int| 0 <= j < find_byte(s, b) ==> s[j] != b,
    decreases s.len(),
{
    if s.len() > 0 && s[0] != b {
        lemma_find_byte(s.drop_first(), b);
        assert(forall|j: int|
            0 <= j < find_byte(s, b) ==> #[trigger] s[j] == if j == 0 {
                s[0]
            } else {
                s.drop_first()[j - 1]
            });
    }
}

/// `find_byte` is pinned by its witnesses: no occurrence before `k`, and an
/// occurrence at `k` (or none at all when `k` is the length).
pub proof fn lemma_find_byte_unique(s: Seq<u8>, b: u8, k: int)
    requires
        0 <= k <= s.len(),
        forall|j: int| 0 <= j < k ==> s[j] != b,
        k < s.len() ==> s[k] == b,
    ensures
        k < s.len() ==> find_byte(s, b) == k,
        k == s.len() ==> find_byte(s, b) == s.len(),
{
    lemma_find_byte(s, b);
}

/// Whether `pat` occurs in `input` starting at `from`.
pub fn bytes_match_at(input: &[u8], from: usize, pat: &Vec<u8>) -> (b: bool)
    requires
        from <= input@.len(),
    ensures
        b == (from + pat@.len() <= input@.len() && input@.subrange(
            from as int,
            from + pat@.len(),
        ) == pat@),
{
    if pat.len() > input.len() - from {
        return false;
    }
    let mut i: usize = 0;
    while i < pat.len()
        invariant
            0 <= i <= pat@.len(),
            from + pat@.len() <= input@.len(),
            input@.len() <= usize::MAX,
            forall|j: int| 0 <= j < i ==> input@[from + j] == pat@[j],
        decreases pat@.len() - i,
    {
        if input[from + i] != pat[i] {
            proof {
                assert(input@.subrange(from as int, from + pat@.len())[i as int] != pat@[
                i as int]);
            }
            return false;
        }
        i += 1;
    }
    proof {
        assert(input@.subrange(from as int, from + pat@.len()) =~= pat@);
    }
    true
}

/// First position of `b` in `input` within `[from, to)`, or `to` if none.
pub fn find_byte_range(input: &[u8], from: usize, to: usize, b: u8) -> (r: usize)
    requires
        from <= to <= input@.len(),
    ensures
        from <= r <= to,
        r < to ==> input@[r as int] == b,
        forall|j: int| from <= j < r ==> input@[j] != b,
{
    let mut i = from;
    while i < to
        invariant
            from <= i <= to <= input@.len(),
            forall|j: int| from <= j < i ==> input@[j] != b,
        decreases to - i,
    {
        if input[i] == b {
            return i;
        }
        i += 1;
    }
    to
}

} // verus!
