//! Project-configuration pieces with chart logic of their own: bookmarks
//! and their ordering.

use vstd::prelude::*;

verus! {

/// A bookmark on the chart timeline: a tick and a free tag.
#[derive(Clone, Debug)]
pub struct CylheimBookmark {
    pub tick: u32,
    pub tag: String,
}

impl CylheimBookmark {
    /// Builds a bookmark.
    pub fn new(tick: u32, tag: String) -> (r: Self)
        ensures
            r.tick == tick,
            r.tag == tag,
    {
        CylheimBookmark { tick, tag }
    }
}

/// Leading count of bookmarks whose tick is at most `k`: the stable
/// insertion point.
pub open spec fn bookmark_sort_pos(d: Seq<CylheimBookmark>, k: u32) -> int
    decreases d.len(),
{
    if d.len() == 0 || d[0].tick > k {
        0
    } else {
        1 + bookmark_sort_pos(d.skip(1), k)
    }
}

/// Bookmarks sorted stably by tick, by repeated insertion.
pub open spec fn spec_sort_bookmarks(s: Seq<CylheimBookmark>) -> Seq<CylheimBookmark>
    decreases s.len(),
{
    if s.len() == 0 {
        Seq::empty()
    } else {
        let d = spec_sort_bookmarks(s.drop_last());
        d.insert(bookmark_sort_pos(d, s.last().tick), s.last())
    }
}

/// `bookmark_sort_pos` is the unique boundary.
proof fn lemma_bookmark_sort_pos(d: Seq<CylheimBookmark>, k: u32, p: int)
    requires
        0 <= p <= d.len(),
        forall|j: int| 0 <= j < p ==> (#[trigger] d[j]).tick <= k,
        p == d.len() || d[p].tick > k,
    ensures
        bookmark_sort_pos(d, k) == p,
    decreases d.len(),
{
    if d.len() == 0 || d[0].tick > k {
    } else {
        lemma_bookmark_sort_pos(d.skip(1), k, p - 1);
    }
}

/// Sorts a bookmark list stably by tick; bookmarks sharing a tick keep
/// their relative order.
pub fn sort_bookmarks_by_tick(v: Vec<CylheimBookmark>) -> (r: Vec<CylheimBookmark>)
    ensures
        r@ == spec_sort_bookmarks(v@),
{
    let mut rest = v;
    let mut out: Vec<CylheimBookmark> = Vec::new();
    let ghost all = rest@;
    let n0 = rest.len();
    proof {
        assert(all.len() == n0);
    }
    let mut i: usize = 0;
    proof {
        assert(all.take(0) =~= Seq::<CylheimBookmark>::empty());
    }
    while rest.len() > 0
        invariant
            all.len() <= usize::MAX,
            all == all.take(i as int) + rest@,
            i <= all.len(),
            i + rest@.len() == all.len(),
            out@ == spec_sort_bookmarks(all.take(i as int)),
        decreases rest.len(),
    {
        let x = rest.remove(0);
        proof {
            assert(x == all[i as int]);
            assert(all.take(i as int + 1).drop_last() =~= all.take(i as int));
            assert(all.take(i as int + 1).last() == x);
        }
        let ghost od = out@;
        let mut k: usize = 0;
        while k < out.len() && out[k].tick <= x.tick
            invariant
                out@ == od,
                k <= out@.len(),
                forall|j: int| 0 <= j < k ==> (#[trigger] out@[j]).tick <= x.tick,
            decreases out.len() - k,
        {
            k = k + 1;
        }
        proof {
            lemma_bookmark_sort_pos(od, x.tick, k as int);
        }
        out.insert(k, x);
        proof {
            assert(out@ =~= od.insert(k as int, x));
        }
        i = i + 1;
        proof {
            assert(all =~= all.take(i as int) + rest@);
        }
    }
    proof {
        assert(all.take(i as int) =~= all);
    }
    out
}

} // verus!
