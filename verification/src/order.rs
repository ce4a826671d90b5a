//! The orders in which queries return rows (`ORDER BY`), and a stable
//! insertion sort that produces them.
use vstd::prelude::*;
use crate::db::views;
use crate::rows::Row;
use crate::models::{Node, NodeView, Tag, TagView};
use crate::text::{chars_lt, lemma_chars_lt_asym, lemma_chars_lt_trans, str_lt};

verus! {

/// Rows that a query returns in a fixed order.
pub trait Ranked: Row {
    /// `a` comes strictly before `b`.
    spec fn precedes(a: Self::V, b: Self::V) -> bool;

    proof fn lemma_precedes_asym(a: Self::V, b: Self::V)
        requires
            Self::precedes(a, b),
        ensures
            !Self::precedes(b, a),
    ;

    proof fn lemma_precedes_trans(a: Self::V, b: Self::V, c: Self::V)
        requires
            Self::precedes(a, b),
            Self::precedes(b, c),
        ensures
            Self::precedes(a, c),
    ;

    fn comes_before(&self, other: &Self) -> (r: bool)
        ensures
            r == Self::precedes(self@, other@);
}

/// Nodes are ordered by `sort_order`, then by `created_at`.
pub open spec fn node_precedes(a: NodeView, b: NodeView) -> bool {
    a.sort_order < b.sort_order || (a.sort_order == b.sort_order && chars_lt(
        a.created_at,
        b.created_at,
    ))
}

impl Ranked for Node {
    open spec fn precedes(a: NodeView, b: NodeView) -> bool {
        node_precedes(a, b)
    }

    proof fn lemma_precedes_asym(a: NodeView, b: NodeView) {
        if a.sort_order == b.sort_order {
            lemma_chars_lt_asym(a.created_at, b.created_at);
        }
    }

    proof fn lemma_precedes_trans(a: NodeView, b: NodeView, c: NodeView) {
        if a.sort_order == b.sort_order && b.sort_order == c.sort_order {
            lemma_chars_lt_trans(a.created_at, b.created_at, c.created_at);
        }
    }

    fn comes_before(&self, other: &Node) -> (r: bool) {
        if self.sort_order < other.sort_order {
            true
        } else if self.sort_order == other.sort_order {
            str_lt(self.created_at.as_str(), other.created_at.as_str())
        } else {
            false
        }
    }
}

/// Tags are ordered by name.
impl Ranked for Tag {
    open spec fn precedes(a: TagView, b: TagView) -> bool {
        chars_lt(a.name, b.name)
    }

    proof fn lemma_precedes_asym(a: TagView, b: TagView) {
        lemma_chars_lt_asym(a.name, b.name);
    }

    proof fn lemma_precedes_trans(a: TagView, b: TagView, c: TagView) {
        lemma_chars_lt_trans(a.name, b.name, c.name);
    }

    fn comes_before(&self, other: &Tag) -> (r: bool) {
        str_lt(self.name.as_str(), other.name.as_str())
    }
}

/// `x` placed in front of the first element that it strictly precedes.
pub open spec fn insert_ranked<T: Ranked>(s: Seq<T::V>, x: T::V) -> Seq<T::V>
    decreases s.len(),
{
    if s.len() == 0 {
        seq![x]
    } else if T::precedes(x, s[0]) {
        seq![x] + s
    } else {
        seq![s[0]] + insert_ranked::<T>(s.drop_first(), x)
    }
}

/// Stable insertion sort of `s`.
pub open spec fn ranked<T: Ranked>(s: Seq<T::V>) -> Seq<T::V>
    decreases s.len(),
{
    if s.len() == 0 {
        s
    } else {
        insert_ranked::<T>(ranked::<T>(s.drop_last()), s.last())
    }
}

/// Inserting in front of the first element that `x` precedes.
proof fn lemma_insert_ranked_at<T: Ranked>(s: Seq<T::V>, x: T::V, j: int)
    requires
        0 <= j <= s.len(),
        forall|k: int| 0 <= k < j ==> !T::precedes(x, #[trigger] s[k]),
        j < s.len() ==> T::precedes(x, s[j]),
    ensures
        insert_ranked::<T>(s, x) == s.insert(j, x),
    decreases s.len(),
{
    if s.len() == 0 {
        assert(s.insert(j, x) =~= seq![x]);
    } else if j == 0 {
        assert(s.insert(0, x) =~= seq![x] + s);
    } else {
        let t = s.drop_first();
        assert forall|k: int| 0 <= k < j - 1 implies !T::precedes(x, #[trigger] t[k]) by {
            assert(t[k] == s[k + 1]);
        }
        if j - 1 < t.len() {
            assert(t[j - 1] == s[j]);
        }
        lemma_insert_ranked_at::<T>(t, x, j - 1);
        assert(s.insert(j, x) =~= seq![s[0]] + t.insert(j - 1, x));
    }
}

/// `s` is in the order of `T`: no element strictly precedes an earlier one.
pub open spec fn is_ranked<T: Ranked>(s: Seq<T::V>) -> bool {
    forall|i: int, j: int| 0 <= i < j < s.len() ==> !T::precedes(#[trigger] s[j], #[trigger] s[i])
}

/// The place where `insert_ranked` puts `x`: before the first element that
/// `x` strictly precedes.
proof fn lemma_insert_ranked_place<T: Ranked>(s: Seq<T::V>, x: T::V) -> (j: int)
    ensures
        0 <= j <= s.len(),
        forall|k: int| 0 <= k < j ==> !T::precedes(x, #[trigger] s[k]),
        j < s.len() ==> T::precedes(x, s[j]),
        insert_ranked::<T>(s, x) == s.insert(j, x),
    decreases s.len(),
{
    if s.len() == 0 || T::precedes(x, s[0]) {
        lemma_insert_ranked_at::<T>(s, x, 0);
        0
    } else {
        let t = s.drop_first();
        let j0 = lemma_insert_ranked_place::<T>(t, x);
        assert forall|k: int| 0 <= k < j0 + 1 implies !T::precedes(x, #[trigger] s[k]) by {
            if k > 0 {
                assert(s[k] == t[k - 1]);
            }
        }
        if j0 < t.len() {
            assert(s[j0 + 1] == t[j0]);
        }
        lemma_insert_ranked_at::<T>(s, x, j0 + 1);
        j0 + 1
    }
}

/// Sorting keeps every row, as often as it occurs.
pub proof fn lemma_ranked_permutes<T: Ranked>(s: Seq<T::V>)
    ensures
        ranked::<T>(s).to_multiset() == s.to_multiset(),
        ranked::<T>(s).len() == s.len(),
    decreases s.len(),
{
    broadcast use vstd::seq_lib::group_to_multiset_ensures;

    if s.len() > 0 {
        let d = s.drop_last();
        lemma_ranked_permutes::<T>(d);
        let j = lemma_insert_ranked_place::<T>(ranked::<T>(d), s.last());
        assert(s =~= d.push(s.last()));
        assert(ranked::<T>(s).to_multiset() == ranked::<T>(d).insert(j, s.last()).to_multiset());
    }
}

/// Sorting puts the rows in the order of `T`.
pub proof fn lemma_ranked_is_ranked<T: Ranked>(s: Seq<T::V>)
    ensures
        is_ranked::<T>(ranked::<T>(s)),
    decreases s.len(),
{
    if s.len() > 0 {
        let d = s.drop_last();
        let x = s.last();
        lemma_ranked_is_ranked::<T>(d);
        let r = ranked::<T>(d);
        let j = lemma_insert_ranked_place::<T>(r, x);
        let out = r.insert(j, x);
        assert forall|a: int, b: int| 0 <= a < b < out.len() implies !T::precedes(
            #[trigger] out[b],
            #[trigger] out[a],
        ) by {
            if b < j {
                assert(out[a] == r[a] && out[b] == r[b]);
            } else if b == j {
                assert(out[a] == r[a]);
                assert(out[b] == x);
            } else if a == j {
                assert(out[a] == x);
                assert(out[b] == r[b - 1]);
                if T::precedes(r[b - 1], x) {
                    if b - 1 == j {
                        T::lemma_precedes_asym(x, r[j]);
                    } else {
                        T::lemma_precedes_trans(r[b - 1], x, r[j]);
                        assert(!T::precedes(r[b - 1], r[j]));
                    }
                }
            } else if a < j {
                assert(out[a] == r[a] && out[b] == r[b - 1]);
            } else {
                assert(out[a] == r[a - 1] && out[b] == r[b - 1]);
            }
        }
    }
}

/// The rows of `v` in the order of `T`; rows that neither precedes keep
/// their relative order.
pub fn sort_ranked<T: Ranked>(v: &Vec<T>) -> (r: Vec<T>)
    ensures
        views(r@) == ranked::<T>(views(v@)),
{
    let mut out: Vec<T> = Vec::new();
    let mut i: usize = 0;
    while i < v.len()
        invariant
            i <= v.len(),
            views(out@) == ranked::<T>(views(v@).take(i as int)),
        decreases v.len() - i,
    {
        let x = &v[i];
        let mut j: usize = 0;
        while j < out.len() && !x.comes_before(&out[j])
            invariant
                j <= out.len(),
                forall|k: int| 0 <= k < j ==> !T::precedes(x@, #[trigger] views(out@)[k]),
            decreases out.len() - j,
        {
            j = j + 1;
        }
        let ghost before = views(out@);
        proof {
            if j < out.len() {
                assert(views(out@)[j as int] == out@[j as int]@);
            }
            lemma_insert_ranked_at::<T>(before, x@, j as int);
        }
        out.insert(j, x.duplicate());
        proof {
            assert(views(out@) =~= before.insert(j as int, x@));
            let pre = views(v@).take(i + 1);
            assert(pre.drop_last() =~= views(v@).take(i as int));
            assert(pre.last() == x@);
        }
        i = i + 1;
    }
    proof {
        assert(views(v@).take(v.len() as int) =~= views(v@));
    }
    out
}

} // verus!
