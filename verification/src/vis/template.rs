//! Selection of charts into named views by their groups.

use vstd::prelude::*;

use crate::metrics::raw::path_view;
use crate::vis::chart::Chart;

verus! {

/// The view of a list of group paths.
pub open spec fn groups_view(g: Seq<Vec<String>>) -> Seq<Seq<Seq<char>>> {
    g.map_values(|v: Vec<String>| path_view(v@))
}

/// Whether some non-empty path of `sets` has every component occur in
/// `group`.
pub open spec fn set_includes(sets: Seq<Seq<Seq<char>>>, group: Seq<Seq<char>>) -> bool {
    exists|i: int|
        0 <= i < sets.len() && #[trigger] sets[i].len() > 0 && (forall|j: int|
            0 <= j < sets[i].len() ==> group.contains(sets[i][j]))
}

/// Whether a chart with the given groups belongs to a view: some include
/// path matches, and no exclude path does.
pub open spec fn view_selects(
    ingroup: Seq<Seq<Seq<char>>>,
    exgroup: Seq<Seq<Seq<char>>>,
    group: Seq<Seq<char>>,
) -> bool {
    set_includes(ingroup, group) && !set_includes(exgroup, group)
}

/// A named view over the charts: the group paths it includes and
/// excludes, and the file it renders to.
#[derive(Debug)]
pub struct ChartView {
    /// The display name of the view.
    pub name: String,
    /// Group paths of which one must fully occur in a chart's groups.
    pub ingroup: Vec<Vec<String>>,
    /// Group paths none of which may fully occur in a chart's groups.
    pub exgroup: Vec<Vec<String>>,
    /// The name of the file the view renders to.
    pub file_name: String,
}

/// Whether every component of `path` occurs in `group`.
#[verifier::loop_isolation(false)]
fn path_in_group(path: &Vec<String>, group: &Vec<String>) -> (r: bool)
    ensures
        r == (forall|j: int|
            0 <= j < path@.len() ==> path_view(group@).contains(#[trigger] path_view(path@)[j])),
{
    let n = path.len();
    let mut j: usize = 0;
    while j < n
        invariant
            0 <= j <= n,
            n == path@.len(),
            forall|q: int|
                0 <= q < j ==> path_view(group@).contains(#[trigger] path_view(path@)[q]),
        decreases n - j,
    {
        let m = group.len();
        let mut k: usize = 0;
        let mut found = false;
        while k < m
            invariant
                0 <= k <= m,
                m == group@.len(),
                found ==> path_view(group@).contains(path_view(path@)[j as int]),
                !found ==> forall|t: int|
                    0 <= t < k ==> #[trigger] path_view(group@)[t] != path_view(path@)[j as int],
            decreases m - k,
        {
            if group[k] == path[j] {
                found = true;
                proof {
                    assert(path_view(group@)[k as int] == path_view(path@)[j as int]);
                }
            }
            k = k + 1;
        }
        if !found {
            proof {
                assert(!path_view(group@).contains(path_view(path@)[j as int]));
            }
            return false;
        }
        j = j + 1;
    }
    true
}

/// Whether some non-empty path of `sets` fully occurs in `group`.
#[verifier::loop_isolation(false)]
fn sets_include(sets: &Vec<Vec<String>>, group: &Vec<String>) -> (r: bool)
    ensures
        r == set_includes(groups_view(sets@), path_view(group@)),
{
    let n = sets.len();
    let mut i: usize = 0;
    while i < n
        invariant
            0 <= i <= n,
            n == sets@.len(),
            forall|q: int|
                0 <= q < i ==> !(#[trigger] groups_view(sets@)[q].len() > 0 && (forall|j: int|
                    0 <= j < groups_view(sets@)[q].len() ==> path_view(group@).contains(
                        groups_view(sets@)[q][j],
                    ))),
        decreases n - i,
    {
        if sets[i].len() > 0 && path_in_group(&sets[i], group) {
            proof {
                assert(groups_view(sets@)[i as int] == path_view(sets@[i as int]@));
            }
            return true;
        }
        i = i + 1;
    }
    false
}

impl ChartView {
    /// The indices of the charts this view selects, in their order.
    #[verifier::loop_isolation(false)]
    pub fn select(&self, charts: &Vec<Chart>) -> (r: Vec<usize>)
        ensures
            r@.len() <= charts@.len(),
            forall|t1: int, t2: int| 0 <= t1 < t2 < r@.len() ==> #[trigger] r@[t1] < #[trigger] r@[t2],
            forall|t: int|
                0 <= t < r@.len() ==> (#[trigger] r@[t]) < charts@.len() && view_selects(
                    groups_view(self.ingroup@),
                    groups_view(self.exgroup@),
                    path_view(charts@[r@[t] as int].groups@),
                ),
            forall|i: int|
                0 <= i < charts@.len() && view_selects(
                    groups_view(self.ingroup@),
                    groups_view(self.exgroup@),
                    path_view((#[trigger] charts@[i]).groups@),
                ) ==> r@.contains(i as usize),
    {
        let n = charts.len();
        let mut out: Vec<usize> = Vec::new();
        let mut i: usize = 0;
        while i < n
            invariant
                0 <= i <= n,
                n == charts@.len(),
                out@.len() <= i,
                forall|t1: int, t2: int|
                    0 <= t1 < t2 < out@.len() ==> #[trigger] out@[t1] < #[trigger] out@[t2],
                forall|t: int|
                    0 <= t < out@.len() ==> (#[trigger] out@[t]) < i && view_selects(
                        groups_view(self.ingroup@),
                        groups_view(self.exgroup@),
                        path_view(charts@[out@[t] as int].groups@),
                    ),
                forall|q: int|
                    0 <= q < i && view_selects(
                        groups_view(self.ingroup@),
                        groups_view(self.exgroup@),
                        path_view((#[trigger] charts@[q]).groups@),
                    ) ==> out@.contains(q as usize),
            decreases n - i,
        {
            let inc = sets_include(&self.ingroup, &charts[i].groups);
            let exc = sets_include(&self.exgroup, &charts[i].groups);
            let ghost out_pre = out@;
            if inc && !exc {
                out.push(i);
            }
            proof {
                assert forall|q: int|
                    0 <= q < i + 1 && view_selects(
                        groups_view(self.ingroup@),
                        groups_view(self.exgroup@),
                        path_view((#[trigger] charts@[q]).groups@),
                    ) implies out@.contains(q as usize) by {
                    if q < i {
                        assert(out_pre.contains(q as usize));
                        let w = choose|w: int|
                            0 <= w < out_pre.len() && out_pre[w] == q as usize;
                        assert(out@[w] == q as usize);
                    } else {
                        assert(out@[out@.len() - 1] == i as usize);
                    }
                }
            }
            i = i + 1;
        }
        out
    }
}

} // verus!
