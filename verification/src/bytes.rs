//! Byte strings.
//!
//! Paths, arguments and the contents of cache entries are all handled as raw
//! bytes: a path on a POSIX system is any sequence of non-NUL bytes, and the
//! on-disk formats of this crate use the NUL byte as their only delimiter.

use vstd::prelude::*;

verus! {

/// The delimiter byte of reports and cache entries.
pub const NUL: u8 = 0;

/// The views of a sequence of owned byte strings.
pub open spec fn byte_strings(v: Seq<Vec<u8>>) -> Seq<Seq<u8>> {
    v.map_values(|s: Vec<u8>| s@)
}

/// The view of bytes that may be missing.
pub open spec fn bytes_view(value: Option<&[u8]>) -> Option<Seq<u8>> {
    match value {
        Some(bytes) => Some(bytes@),
        None => None,
    }
}

/// The view of owned bytes that may be missing.
pub open spec fn owned_view(value: Option<Vec<u8>>) -> Option<Seq<u8>> {
    match value {
        Some(bytes) => Some(bytes@),
        None => None,
    }
}

/// No byte of `s` is NUL.
pub open spec fn nul_free(s: Seq<u8>) -> bool {
    forall|i: int| 0 <= i < s.len() ==> s[i] != NUL
}

/// A byte string that can name a file: not empty, and without a NUL byte.
pub open spec fn is_path(s: Seq<u8>) -> bool {
    s.len() > 0 && nul_free(s)
}

/// The index of the first NUL byte of `s`, or `s.len()` if it has none.
pub open spec fn first_nul(s: Seq<u8>) -> nat
    decreases s.len(),
{
    if s.len() == 0 || s[0] == NUL {
        0
    } else {
        1 + first_nul(s.skip(1))
    }
}

/// `first_nul` is in range, no byte before it is NUL, and if it is inside
/// the string then the byte there is NUL.
pub proof fn lemma_first_nul(s: Seq<u8>)
    ensures
        first_nul(s) <= s.len(),
        nul_free(s.take(first_nul(s) as int)),
        first_nul(s) < s.len() ==> s[first_nul(s) as int] == NUL,
        first_nul(s) == s.len() <==> nul_free(s),
    decreases s.len(),
{
    if s.len() > 0 && s[0] != NUL {
        let t = s.skip(1);
        lemma_first_nul(t);
        let k = first_nul(s) as int;
        assert forall|i: int| 0 <= i < k implies s.take(k)[i] != NUL by {
            if i > 0 {
                assert(t.take(k - 1)[i - 1] == s[i]);
            }
        }
        if nul_free(t) {
            assert forall|i: int| 0 <= i < s.len() implies s[i] != NUL by {
                if i > 0 {
                    assert(t[i - 1] == s[i]);
                }
            }
        }
        if nul_free(s) {
            assert(nul_free(t));
        }
    }
}

/// The only index that is preceded by no NUL byte and is either the end of
/// the string or the place of a NUL byte is `first_nul`.
pub proof fn lemma_first_nul_unique(s: Seq<u8>, k: int)
    requires
        0 <= k <= s.len(),
        forall|i: int| 0 <= i < k ==> s[i] != NUL,
        k < s.len() ==> s[k] == NUL,
    ensures
        first_nul(s) == k,
    decreases s.len(),
{
    if s.len() > 0 && s[0] != NUL {
        lemma_first_nul_unique(s.skip(1), k - 1);
    }
}

/// Whether `s` begins with `prefix`.
pub fn starts_with(s: &[u8], prefix: &[u8]) -> (r: bool)
    ensures
        r == prefix@.is_prefix_of(s@),
{
    if prefix.len() > s.len() {
        return false;
    }
    let mut i: usize = 0;
    while i < prefix.len()
        invariant
            prefix.len() <= s.len(),
            i <= prefix.len(),
            forall|j: int| 0 <= j < i ==> s@[j] == prefix@[j],
        decreases prefix.len() - i,
    {
        if s[i] != prefix[i] {
            return false;
        }
        i = i + 1;
    }
    true
}

/// Whether `s` ends with `suffix`.
pub fn ends_with(s: &[u8], suffix: &[u8]) -> (r: bool)
    ensures
        r == suffix@.is_suffix_of(s@),
{
    if suffix.len() > s.len() {
        return false;
    }
    let off: usize = s.len() - suffix.len();
    let mut i: usize = 0;
    while i < suffix.len()
        invariant
            off + suffix.len() == s.len(),
            i <= suffix.len(),
            forall|j: int| 0 <= j < i ==> s@[off + j] == suffix@[j],
        decreases suffix.len() - i,
    {
        if s[off + i] != suffix[i] {
            return false;
        }
        i = i + 1;
    }
    true
}

/// Whether two byte strings are equal.
pub fn same_bytes(a: &[u8], b: &[u8]) -> (r: bool)
    ensures
        r == (a@ == b@),
{
    if a.len() != b.len() {
        return false;
    }
    let mut i: usize = 0;
    while i < a.len()
        invariant
            a.len() == b.len(),
            i <= a.len(),
            forall|j: int| 0 <= j < i ==> a@[j] == b@[j],
        decreases a.len() - i,
    {
        if a[i] != b[i] {
            return false;
        }
        i = i + 1;
    }
    assert(a@ =~= b@);
    true
}

/// The position of the first NUL byte of `s` at or after `from`, or
/// `s.len()` if there is none.
pub fn find_nul(s: &[u8], from: usize) -> (end: usize)
    requires
        from <= s.len(),
    ensures
        from <= end <= s.len(),
        end - from == first_nul(s@.skip(from as int)),
{
    let mut end: usize = from;
    while end < s.len() && s[end] != NUL
        invariant
            from <= end <= s.len(),
            forall|j: int| from <= j < end ==> s@[j] != NUL,
        decreases s.len() - end,
    {
        end = end + 1;
    }
    proof {
        lemma_first_nul_unique(s@.skip(from as int), end - from);
    }
    end
}

/// Whether `s` can name a file.
pub fn check_path(s: &[u8]) -> (r: bool)
    ensures
        r == is_path(s@),
{
    if s.len() == 0 {
        return false;
    }
    let end = find_nul(s, 0);
    proof {
        assert(s@.skip(0) =~= s@);
        lemma_first_nul(s@);
    }
    end == s.len()
}

/// An owned copy of the bytes of `s` from `start` up to `end`.
pub fn copy_range(s: &[u8], start: usize, end: usize) -> (r: Vec<u8>)
    requires
        start <= end <= s.len(),
    ensures
        r@ == s@.subrange(start as int, end as int),
{
    let mut r: Vec<u8> = Vec::new();
    let mut i: usize = start;
    while i < end
        invariant
            start <= i <= end <= s.len(),
            r@ == s@.subrange(start as int, i as int),
        decreases end - i,
    {
        r.push(s[i]);
        i = i + 1;
    }
    r
}

/// Appends the bytes of `src` to `dst`.
pub fn append(dst: &mut Vec<u8>, src: &[u8])
    ensures
        final(dst)@ == old(dst)@ + src@,
{
    let mut i: usize = 0;
    while i < src.len()
        invariant
            i <= src.len(),
            dst@ == old(dst)@ + src@.take(i as int),
        decreases src.len() - i,
    {
        dst.push(src[i]);
        i = i + 1;
    }
}

} // verus!
