//! The classifier: decides whether a file path names a barrel file.
//!
//! A barrel file is recognized by its basename alone — the final `/`
//! separated path segment — which must equal, exactly and case-sensitively,
//! one of the four conventional index file names.

use vstd::prelude::*;
use vstd::string::StrSliceExecFns;

use crate::text::find_from;
use crate::text::find_from_exec;
use crate::text::lemma_find_from_bounds;

verus! {

/// The final path segment: everything after the last `'/'`, or the whole
/// path when it holds no `'/'`.
pub open spec fn basename(p: Seq<char>) -> Seq<char>
    decreases p.len(),
{
    let i = find_from(p, 0, '/');
    if 0 <= i && i < p.len() {
        basename(p.subrange(i + 1, p.len() as int))
    } else {
        p
    }
}

/// The path names a barrel file: its basename is exactly one of the four
/// recognized index file names.
pub open spec fn is_barrel_path(p: Seq<char>) -> bool {
    basename(p) == "index.ts"@ || basename(p) == "index.js"@ || basename(p) == "index.tsx"@
        || basename(p) == "index.jsx"@
}

/// When no `'/'` appears at or after `k`, and `k` sits just past a `'/'`
/// (or at the start), the basename is the suffix from `k`.
proof fn lemma_basename_suffix(p: Seq<char>, k: int)
    requires
        0 <= k <= p.len(),
        forall|j: int| k <= j < p.len() ==> p[j] != '/',
        k > 0 ==> p[k - 1] == '/',
    ensures
        basename(p) == p.subrange(k, p.len() as int),
    decreases p.len(),
{
    lemma_find_from_bounds(p, 0, '/');
    let i = find_from(p, 0, '/');
    if k == 0 {
        if i < p.len() {
            assert(p[i] == '/');
            assert(false);
        }
        assert(p.subrange(0, p.len() as int) =~= p);
    } else {
        assert(p[k - 1] == '/');
        assert(i <= k - 1);
        assert(i < p.len());
        let q = p.subrange(i + 1, p.len() as int);
        lemma_basename_suffix(q, k - i - 1);
        assert(q.subrange(k - i - 1, q.len() as int) =~= p.subrange(k, p.len() as int));
    }
}

/// Check whether a file path names a barrel file: its basename is exactly
/// `index.ts`, `index.js`, `index.tsx` or `index.jsx`.
pub fn is_barrel_file(file_path: &str) -> (r: bool)
    ensures
        r == is_barrel_path(file_path@),
{
    let n = file_path.unicode_len();
    let mut start: usize = 0;
    loop
        invariant
            0 <= start <= n,
            n == file_path@.len(),
            start > 0 ==> file_path@[start - 1] == '/',
        ensures
            0 <= start <= n,
            n == file_path@.len(),
            basename(file_path@) == file_path@.subrange(start as int, n as int),
        decreases n - start,
    {
        let i = find_from_exec(file_path, start, '/');
        proof {
            lemma_find_from_bounds(file_path@, start as int, '/');
        }
        if i == n {
            proof {
                lemma_basename_suffix(file_path@, start as int);
            }
            break;
        }
        start = i + 1;
    }
    let base = file_path.substring_char(start, n);
    crate::text::str_eq_exec(base, "index.ts") || crate::text::str_eq_exec(base, "index.js")
        || crate::text::str_eq_exec(base, "index.tsx") || crate::text::str_eq_exec(
        base,
        "index.jsx",
    )
}

} // verus!
