//! Character-level helpers over `str` and `Vec<char>`.
use vstd::prelude::*;

verus! {

/// `needle` occurs in `haystack` as a contiguous run of characters.
/// The empty needle occurs in every haystack.
pub open spec fn contains_seq(haystack: Seq<char>, needle: Seq<char>) -> bool {
    exists|i: int|
        0 <= i && i + needle.len() <= haystack.len() && #[trigger] haystack.subrange(
            i,
            i + needle.len(),
        ) == needle
}

/// The characters of `s`, in order.
pub fn chars_of(s: &str) -> (r: Vec<char>)
    ensures
        r@ == s@,
{
    let mut r: Vec<char> = Vec::new();
    for c in it: s.chars()
        invariant
            r@ == it.seq().take(it.index() as int),
    {
        r.push(c);
    }
    r
}

/// Whether `needle` sits in `haystack` starting at character `start`.
fn occurs_at(haystack: &Vec<char>, needle: &Vec<char>, start: usize) -> (r: bool)
    requires
        start + needle@.len() <= haystack@.len(),
    ensures
        r == (haystack@.subrange(start as int, start + needle@.len()) == needle@),
{
    let n: usize = needle.len();
    let mut k: usize = 0;
    while k < n
        invariant
            n == needle@.len(),
            k <= n,
            start + n <= haystack.len(),
            haystack.len() == haystack@.len(),
            forall|j: int| 0 <= j < k ==> haystack@[start + j] == needle@[j],
        decreases n - k,
    {
        if haystack[start + k] != needle[k] {
            assert(haystack@.subrange(start as int, start + n)[k as int] != needle@[k as int]);
            return false;
        }
        k = k + 1;
    }
    assert(haystack@.subrange(start as int, start + n) =~= needle@);
    true
}

/// Whether `needle` occurs anywhere in `haystack`.
pub fn contains_chars(haystack: &Vec<char>, needle: &Vec<char>) -> (r: bool)
    ensures
        r == contains_seq(haystack@, needle@),
{
    let n: usize = needle.len();
    let h: usize = haystack.len();
    if n > h {
        return false;
    }
    let last: usize = h - n;
    let mut i: usize = 0;
    loop
        invariant
            n == needle@.len(),
            h == haystack@.len(),
            n <= h,
            last == h - n,
            i <= last,
            forall|k: int|
                0 <= k < i ==> #[trigger] haystack@.subrange(k, k + n) != needle@,
        ensures
            forall|k: int|
                0 <= k <= last ==> #[trigger] haystack@.subrange(k, k + n) != needle@,
        decreases last - i,
    {
        if occurs_at(haystack, needle, i) {
            return true;
        }
        if i == last {
            break;
        }
        i = i + 1;
    }
    assert forall|k: int| 0 <= k && k + n <= h implies #[trigger] haystack@.subrange(k, k + n)
        != needle@ by {
        assert(k <= last);
    }
    false
}

} // verus!
