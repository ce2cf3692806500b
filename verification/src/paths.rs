//! Paths as lists of components: the longest prefix that a list of
//! directories shares, from which the common root of the inputs is built.
use vstd::prelude::*;
use crate::strings::str_eq;

verus! {

/// The components of a path.
pub open spec fn comps(v: Vec<String>) -> Seq<Seq<char>> {
    v@.map_values(|s: String| s@)
}

/// The component lists of several paths.
pub open spec fn paths_view(ps: Seq<Vec<String>>) -> Seq<Seq<Seq<char>>> {
    ps.map_values(|v: Vec<String>| comps(v))
}

/// `a` and `b` both have at least `n` components, and the first `n` are equal.
pub open spec fn agree_upto(a: Seq<Seq<char>>, b: Seq<Seq<char>>, n: int) -> bool {
    &&& 0 <= n <= a.len()
    &&& n <= b.len()
    &&& forall|k: int| 0 <= k < n ==> a[k] == b[k]
}

/// `n` is the number of leading components that all the paths share: all
/// agree with the first up to `n`, and not all up to `n + 1`.
pub open spec fn is_common_prefix_len(ps: Seq<Seq<Seq<char>>>, n: int) -> bool {
    &&& forall|i: int| 0 <= i < ps.len() ==> #[trigger] agree_upto(ps[0], ps[i], n)
    &&& (n == ps[0].len() || exists|i: int| 0 <= i < ps.len() && !#[trigger] agree_upto(ps[0], ps[i], n + 1))
}

/// The number of leading components that all the paths share (0 for no paths).
pub fn common_prefix_len(paths: &Vec<Vec<String>>) -> (r: usize)
    ensures
        paths@.len() == 0 ==> r == 0,
        paths@.len() > 0 ==> is_common_prefix_len(paths_view(paths@), r as int),
{
    if paths.len() == 0 {
        return 0;
    }
    let ghost pv = paths_view(paths@);
    let first = &paths[0];
    let ghost f = comps(*first);
    assert(pv[0] == f);
    let mut n: usize = first.len();
    let mut i: usize = 1;
    assert(agree_upto(f, pv[0], n as int));
    while i < paths.len()
        invariant
            pv == paths_view(paths@),
            f == pv[0],
            first == paths@[0],
            1 <= i <= paths@.len(),
            n <= f.len(),
            forall|j: int| 0 <= j < i ==> #[trigger] agree_upto(f, pv[j], n as int),
            n == f.len() || exists|j: int| 0 <= j < i && !#[trigger] agree_upto(f, pv[j], n + 1),
        decreases paths@.len() - i,
    {
        let p = &paths[i];
        let ghost q = comps(*p);
        assert(pv[i as int] == q);
        let mut k: usize = 0;
        while k < n && k < p.len() && str_eq(first[k].as_str(), p[k].as_str())
            invariant
                f == comps(*first),
                q == comps(*p),
                n <= f.len(),
                k <= n,
                k <= q.len(),
                forall|m: int| 0 <= m < k ==> f[m] == q[m],
            decreases n - k,
        {
            k = k + 1;
        }
        assert(agree_upto(f, q, k as int));
        if k < n {
            assert(!agree_upto(f, q, k + 1)) by {
                if k < p.len() {
                    assert(f[k as int] != q[k as int]);
                }
            }
            assert forall|j: int| 0 <= j < i implies #[trigger] agree_upto(f, pv[j], k as int) by {
                assert(agree_upto(f, pv[j], n as int));
            }
            n = k;
        }
        i = i + 1;
    }
    n
}

} // verus!
