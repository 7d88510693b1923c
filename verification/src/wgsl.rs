//! Shader-source screening: the checks a demo runs over a WGSL string
//! before handing it to the device — both entry points present, and the
//! attribute markers the pipelines expect.

use vstd::prelude::*;

verus! {

/// `needle` occurs in `hay` starting at position `k`.
pub open spec fn contains_at(hay: Seq<char>, needle: Seq<char>, k: int) -> bool {
    &&& 0 <= k
    &&& k + needle.len() <= hay.len()
    &&& hay.subrange(k, k + needle.len()) == needle
}

/// `needle` occurs somewhere in `hay`.
pub open spec fn contains_seq(hay: Seq<char>, needle: Seq<char>) -> bool {
    exists|k: int| contains_at(hay, needle, k)
}

/// The characters of a string, as a vector.
fn chars_of(s: &str) -> (v: Vec<char>)
    ensures
        v@ == s@,
{
    let n = s.unicode_len();
    let mut v: Vec<char> = Vec::new();
    let mut i: usize = 0;
    while i < n
        invariant
            n == s@.len(),
            i <= n,
            v@ == s@.subrange(0, i as int),
        decreases n - i,
    {
        v.push(s.get_char(i));
        proof {
            assert(v@ =~= s@.subrange(0, i + 1));
        }
        i = i + 1;
    }
    proof {
        assert(v@ =~= s@);
    }
    v
}

/// Whether `needle` occurs in `hay`, by characters.
pub fn str_contains(hay: &str, needle: &str) -> (r: bool)
    ensures
        r == contains_seq(hay@, needle@),
{
    let h = chars_of(hay);
    let nd = chars_of(needle);
    let n = h.len();
    let m = nd.len();
    if m > n {
        return false;
    }
    let mut k: usize = 0;
    while k <= n - m
        invariant
            m <= n,
            n == hay@.len(),
            m == needle@.len(),
            h@ == hay@,
            nd@ == needle@,
            k <= n - m + 1,
            forall|j: int| 0 <= j < k ==> !contains_at(hay@, needle@, j),
        decreases n - m + 1 - k,
    {
        let mut t: usize = 0;
        while t < m && h[k + t] == nd[t]
            invariant
                m <= n,
                k <= n - m,
                t <= m,
                n == hay@.len(),
                m == needle@.len(),
                h@ == hay@,
                nd@ == needle@,
                forall|u: int| 0 <= u < t ==> hay@[k + u] == needle@[u],
            decreases m - t,
        {
            t = t + 1;
        }
        if t == m {
            proof {
                assert(hay@.subrange(k as int, k + m) =~= needle@);
                assert(contains_at(hay@, needle@, k as int));
            }
            return true;
        }
        proof {
            assert(!contains_at(hay@, needle@, k as int)) by {
                assert(hay@[k + t] != needle@[t as int]);
                assert(contains_at(hay@, needle@, k as int) ==> hay@.subrange(
                    k as int,
                    k + m,
                )[t as int] == needle@[t as int]);
            }
        }
        k = k + 1;
    }
    proof {
        assert forall|j: int| !contains_at(hay@, needle@, j) by {
            if 0 <= j <= n - m {
                assert(j < k);
            }
        }
    }
    false
}

/// What a WGSL demo shader must carry to drive the pipelines: a vertex
/// and a fragment entry point, and the attribute markers.
pub open spec fn wgsl_well_formed(s: Seq<char>) -> bool {
    &&& contains_seq(s, "fn vs_main"@)
    &&& contains_seq(s, "fn fs_main"@)
    &&& contains_seq(s, "@vertex"@)
    &&& contains_seq(s, "@fragment"@)
    &&& contains_seq(s, "@location"@)
    &&& contains_seq(s, "@builtin"@)
}

/// Screens a WGSL source: entry points first, then the marker attributes,
/// accepting exactly the sources that carry them all.
pub fn validate_wgsl(source: &str) -> (r: bool)
    ensures
        r == wgsl_well_formed(source@),
{
    let has_vertex = str_contains(source, "fn vs_main");
    let has_fragment = str_contains(source, "fn fs_main");
    if !has_vertex || !has_fragment {
        return false;
    }
    str_contains(source, "@vertex") && str_contains(source, "@fragment") && str_contains(
        source,
        "@location",
    ) && str_contains(source, "@builtin")
}

} // verus!
