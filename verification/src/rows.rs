//! Rows of the tables, and the one filter that every query uses to select
//! them.
use vstd::prelude::*;
use crate::db::NodeTag;
use crate::models::{views, Edge, Node, StatusHistoryEntry, Tag};

verus! {

/// A row that can be copied with its view kept.
pub trait Row: View + Sized {
    fn duplicate(&self) -> (r: Self)
        ensures
            r@ == self@;
}

impl Row for Node {
    fn duplicate(&self) -> (r: Node) {
        self.copy()
    }
}

impl Row for Edge {
    fn duplicate(&self) -> (r: Edge) {
        self.copy()
    }
}

impl Row for Tag {
    fn duplicate(&self) -> (r: Tag) {
        self.copy()
    }
}

impl Row for NodeTag {
    fn duplicate(&self) -> (r: NodeTag) {
        NodeTag { node_id: self.node_id.clone(), tag_id: self.tag_id.clone() }
    }
}

impl Row for StatusHistoryEntry {
    fn duplicate(&self) -> (r: StatusHistoryEntry) {
        StatusHistoryEntry {
            id: self.id.clone(),
            node_id: self.node_id.clone(),
            old_status: self.old_status.clone(),
            new_status: self.new_status.clone(),
            changed_at: self.changed_at.clone(),
        }
    }
}

/// The rows of `v` that `keep` accepts, in their order; `keep` decides as
/// `pred` says.
pub(crate) fn filter_rows<T: Row, F: Fn(&T) -> bool>(
    v: &Vec<T>,
    keep: F,
    Ghost(pred): Ghost<spec_fn(T::V) -> bool>,
) -> (r: Vec<T>)
    requires
        forall|x: &T| #[trigger] keep.requires((x,)),
        forall|x: &T, b: bool| keep.ensures((x,), b) ==> b == pred(x@),
    ensures
        views(r@) == views(v@).filter(pred),
{
    let ghost s = views(v@);
    let mut out: Vec<T> = Vec::new();
    let mut i: usize = 0;
    while i < v.len()
        invariant
            s == views(v@),
            i <= v.len(),
            forall|x: &T| #[trigger] keep.requires((x,)),
            forall|x: &T, b: bool| keep.ensures((x,), b) ==> b == pred(x@),
            views(out@) == s.take(i as int).filter(pred),
        decreases v.len() - i,
    {
        let x = &v[i];
        let b = keep(x);
        let ghost before = views(out@);
        if b {
            out.push(x.duplicate());
            assert(views(out@) =~= before.push(x@));
        }
        proof {
            reveal(Seq::filter);
            let t = s.take(i + 1);
            assert(t.drop_last() =~= s.take(i as int));
            assert(t.last() == x@);
        }
        i = i + 1;
    }
    proof {
        assert(s.take(v.len() as int) =~= s);
    }
    out
}

/// Whether every row of `v` meets `ok`, which decides as `p` says.
pub(crate) fn all_rows<T: View, F: Fn(&T) -> bool>(
    v: &Vec<T>,
    ok: F,
    Ghost(p): Ghost<spec_fn(T::V) -> bool>,
) -> (r: bool)
    requires
        forall|x: &T| #[trigger] ok.requires((x,)),
        forall|x: &T, b: bool| ok.ensures((x,), b) ==> b == p(x@),
    ensures
        r == (forall|i: int| 0 <= i < v.len() ==> #[trigger] p(views(v@)[i])),
{
    let mut i: usize = 0;
    while i < v.len()
        invariant
            i <= v.len(),
            forall|x: &T| #[trigger] ok.requires((x,)),
            forall|x: &T, b: bool| ok.ensures((x,), b) ==> b == p(x@),
            forall|j: int| 0 <= j < i ==> #[trigger] p(views(v@)[j]),
        decreases v.len() - i,
    {
        let b = ok(&v[i]);
        assert(views(v@)[i as int] == v[i as int]@);
        if !b {
            return false;
        }
        i = i + 1;
    }
    true
}

/// Every two rows of `s`, in their order, are related by `p`.
pub open spec fn pairwise<A>(s: Seq<A>, p: spec_fn(A, A) -> bool) -> bool {
    forall|i: int, j: int| 0 <= i < j < s.len() ==> #[trigger] p(s[i], s[j])
}

/// Whether every two rows of `v`, in their order, meet `ok`, which decides as
/// `p` says.
pub(crate) fn all_pairs<T: View, F: Fn(&T, &T) -> bool>(
    v: &Vec<T>,
    ok: F,
    Ghost(p): Ghost<spec_fn(T::V, T::V) -> bool>,
) -> (r: bool)
    requires
        forall|x: &T, y: &T| #[trigger] ok.requires((x, y)),
        forall|x: &T, y: &T, b: bool| ok.ensures((x, y), b) ==> b == p(x@, y@),
    ensures
        r == pairwise(views(v@), p),
{
    let ghost s = views(v@);
    let mut i: usize = 0;
    while i < v.len()
        invariant
            s == views(v@),
            i <= v.len(),
            forall|x: &T, y: &T| #[trigger] ok.requires((x, y)),
            forall|x: &T, y: &T, b: bool| ok.ensures((x, y), b) ==> b == p(x@, y@),
            forall|a: int, b: int| 0 <= a < i && a < b < s.len() ==> #[trigger] p(s[a], s[b]),
        decreases v.len() - i,
    {
        let mut j: usize = i + 1;
        while j < v.len()
            invariant
                s == views(v@),
                i < v.len(),
                i + 1 <= j <= v.len(),
                forall|x: &T, y: &T| #[trigger] ok.requires((x, y)),
                forall|x: &T, y: &T, b: bool| ok.ensures((x, y), b) ==> b == p(x@, y@),
                forall|a: int, b: int| 0 <= a < i && a < b < s.len() ==> #[trigger] p(s[a], s[b]),
                forall|b: int| i < b < j ==> #[trigger] p(s[i as int], s[b]),
            decreases v.len() - j,
        {
            let b = ok(&v[i], &v[j]);
            assert(s[i as int] == v[i as int]@ && s[j as int] == v[j as int]@);
            if !b {
                assert(!p(s[i as int], s[j as int]));
                return false;
            }
            j = j + 1;
        }
        assert forall|a: int, b: int| 0 <= a < i + 1 && a < b < s.len() implies #[trigger] p(
            s[a],
            s[b],
        ) by {
            if a == i {
                assert(p(s[i as int], s[b]));
            }
        }
        i = i + 1;
    }
    true
}

} // verus!
