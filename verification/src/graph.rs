//! Reachability along edges of one type: the mathematics of paths, and the
//! exec search that collects every node reachable from a start node.
use vstd::prelude::*;
use crate::db::views;
use crate::models::{Edge, EdgeType, EdgeView};

verus! {

/// The contents of a vector of strings.
pub open spec fn strs(v: Seq<String>) -> Seq<Seq<char>> {
    v.map_values(|s: String| s@)
}

/// There is an edge of type `et` from `a` to `b`.
pub open spec fn has_edge(es: Seq<EdgeView>, et: EdgeType, a: Seq<char>, b: Seq<char>) -> bool {
    exists|k: int|
        0 <= k < es.len() && #[trigger] es[k].edge_type == et && es[k].source_id == a
            && es[k].target_id == b
}

/// Step `i` of `p` follows an edge of type `et`.
pub open spec fn path_step(es: Seq<EdgeView>, et: EdgeType, p: Seq<Seq<char>>, i: int) -> bool {
    has_edge(es, et, p[i], p[i + 1])
}

/// `p` is a non-empty walk along edges of type `et`.
pub open spec fn is_path(es: Seq<EdgeView>, et: EdgeType, p: Seq<Seq<char>>) -> bool {
    &&& p.len() >= 1
    &&& forall|i: int| 0 <= i < p.len() - 1 ==> #[trigger] path_step(es, et, p, i)
}

/// `b` can be reached from `a` by following zero or more edges of type `et`.
pub open spec fn reachable(es: Seq<EdgeView>, et: EdgeType, a: Seq<char>, b: Seq<char>) -> bool {
    exists|p: Seq<Seq<char>>| #[trigger] is_path(es, et, p) && p[0] == a && p.last() == b
}

pub proof fn lemma_reachable_refl(es: Seq<EdgeView>, et: EdgeType, a: Seq<char>)
    ensures
        reachable(es, et, a, a),
{
    let p = seq![a];
    assert(is_path(es, et, p));
}

pub proof fn lemma_reachable_step(
    es: Seq<EdgeView>,
    et: EdgeType,
    a: Seq<char>,
    b: Seq<char>,
    c: Seq<char>,
)
    requires
        reachable(es, et, a, b),
        has_edge(es, et, b, c),
    ensures
        reachable(es, et, a, c),
{
    let p = choose|p: Seq<Seq<char>>| #[trigger] is_path(es, et, p) && p[0] == a && p.last() == b;
    let q = p.push(c);
    assert forall|i: int| 0 <= i < q.len() - 1 implies #[trigger] path_step(es, et, q, i) by {
        if i < p.len() - 1 {
            assert(path_step(es, et, p, i));
        }
    }
    assert(is_path(es, et, q));
}

/// A set of nodes that holds `a` and is closed under the edges holds every
/// node reachable from `a`.
pub proof fn lemma_closed_holds_reachable(
    es: Seq<EdgeView>,
    et: EdgeType,
    s: Seq<Seq<char>>,
    a: Seq<char>,
    b: Seq<char>,
)
    requires
        s.contains(a),
        forall|v: Seq<char>, w: Seq<char>| s.contains(v) && has_edge(es, et, v, w) ==> s.contains(w),
        reachable(es, et, a, b),
    ensures
        s.contains(b),
{
    let p = choose|p: Seq<Seq<char>>| #[trigger] is_path(es, et, p) && p[0] == a && p.last() == b;
    lemma_closed_holds_path_prefix(es, et, s, p, p.len() - 1);
}

proof fn lemma_closed_holds_path_prefix(
    es: Seq<EdgeView>,
    et: EdgeType,
    s: Seq<Seq<char>>,
    p: Seq<Seq<char>>,
    i: int,
)
    requires
        is_path(es, et, p),
        0 <= i < p.len(),
        s.contains(p[0]),
        forall|v: Seq<char>, w: Seq<char>| s.contains(v) && has_edge(es, et, v, w) ==> s.contains(w),
    ensures
        s.contains(p[i]),
    decreases i,
{
    if i > 0 {
        lemma_closed_holds_path_prefix(es, et, s, p, i - 1);
        assert(path_step(es, et, p, i - 1));
    }
}

/// Paths join: `a` reaches `c` when `a` reaches `b` and `b` reaches `c`.
pub proof fn lemma_reachable_trans(
    es: Seq<EdgeView>,
    et: EdgeType,
    a: Seq<char>,
    b: Seq<char>,
    c: Seq<char>,
)
    requires
        reachable(es, et, a, b),
        reachable(es, et, b, c),
    ensures
        reachable(es, et, a, c),
{
    let p = choose|p: Seq<Seq<char>>| #[trigger] is_path(es, et, p) && p[0] == a && p.last() == b;
    let q = choose|q: Seq<Seq<char>>| #[trigger] is_path(es, et, q) && q[0] == b && q.last() == c;
    let r = p + q.drop_first();
    assert forall|i: int| 0 <= i < r.len() - 1 implies #[trigger] path_step(es, et, r, i) by {
        if i < p.len() - 1 {
            assert(path_step(es, et, p, i));
        } else {
            let j = i - (p.len() - 1);
            assert(path_step(es, et, q, j));
            assert(r[i] == q[j]);
            assert(r[i + 1] == q[j + 1]);
        }
    }
    assert(is_path(es, et, r));
    if q.len() == 1 {
        assert(r.last() == p.last());
    } else {
        assert(r.last() == q.last());
    }
}

/// No edge of type `et` closes a cycle: its target does not reach its source.
pub open spec fn acyclic(es: Seq<EdgeView>, et: EdgeType) -> bool {
    forall|k: int|
        0 <= k < es.len() && #[trigger] es[k].edge_type == et ==> !reachable(
            es,
            et,
            es[k].target_id,
            es[k].source_id,
        )
}

/// A walk in `es` with `e` added either stays in `es`, or passes through
/// `e`: it reaches `e`'s source in `es`, and from `e`'s target goes on in `es`.
proof fn lemma_path_split(es: Seq<EdgeView>, e: EdgeView, et: EdgeType, p: Seq<Seq<char>>)
    requires
        is_path(es.push(e), et, p),
    ensures
        reachable(es, et, p[0], p.last()) || (e.edge_type == et && reachable(
            es,
            et,
            p[0],
            e.source_id,
        ) && reachable(es, et, e.target_id, p.last())),
    decreases p.len(),
{
    let es2 = es.push(e);
    if p.len() == 1 {
        lemma_reachable_refl(es, et, p[0]);
    } else {
        let q = p.drop_last();
        assert forall|i: int| 0 <= i < q.len() - 1 implies #[trigger] path_step(es2, et, q, i) by {
            assert(path_step(es2, et, p, i));
        }
        lemma_path_split(es, e, et, q);
        let n = p.len() - 2;
        assert(path_step(es2, et, p, n));
        let a = p[n];
        let b = p.last();
        assert(q.last() == a);
        let k = choose|k: int|
            0 <= k < es2.len() && #[trigger] es2[k].edge_type == et && es2[k].source_id == a
                && es2[k].target_id == b;
        if k < es.len() {
            assert(es[k] == es2[k]);
            assert(has_edge(es, et, a, b));
            if reachable(es, et, p[0], a) {
                lemma_reachable_step(es, et, p[0], a, b);
            } else {
                lemma_reachable_step(es, et, e.target_id, a, b);
            }
        } else {
            assert(es2[k] == e);
            if reachable(es, et, p[0], a) {
                lemma_reachable_refl(es, et, e.target_id);
            }
        }
    }
}

/// Adding an edge from `s` to `t` keeps the graph of `et` edges free of
/// cycles when `t` does not already reach `s`.
pub proof fn lemma_add_edge_keeps_acyclic(es: Seq<EdgeView>, e: EdgeView, et: EdgeType)
    requires
        acyclic(es, et),
        e.edge_type == et ==> !reachable(es, et, e.target_id, e.source_id),
    ensures
        acyclic(es.push(e), et),
{
    let es2 = es.push(e);
    assert forall|k: int| 0 <= k < es2.len() && #[trigger] es2[k].edge_type == et implies !reachable(
        es2,
        et,
        es2[k].target_id,
        es2[k].source_id,
    ) by {
        let u = es2[k].source_id;
        let v = es2[k].target_id;
        if reachable(es2, et, v, u) {
            let p = choose|p: Seq<Seq<char>>| #[trigger] is_path(es2, et, p) && p[0] == v && p.last() == u;
            lemma_path_split(es, e, et, p);
            if k < es.len() {
                assert(es[k] == es2[k]);
                assert(!reachable(es, et, v, u));
                assert(has_edge(es, et, u, v));
                lemma_reachable_step(es, et, e.target_id, u, v);
                lemma_reachable_trans(es, et, e.target_id, v, e.source_id);
            } else {
                assert(es2[k] == e);
                if reachable(es, et, v, u) {
                } else {
                    lemma_reachable_trans(es, et, e.target_id, v, e.source_id);
                }
            }
        }
    }
}

/// Fewer edges reach no further: when every `et` edge of `small` is one of
/// `big`, reachability in `small` implies reachability in `big`.
pub proof fn lemma_reachable_mono(
    small: Seq<EdgeView>,
    big: Seq<EdgeView>,
    et: EdgeType,
    a: Seq<char>,
    b: Seq<char>,
)
    requires
        forall|x: Seq<char>, y: Seq<char>| has_edge(small, et, x, y) ==> has_edge(big, et, x, y),
        reachable(small, et, a, b),
    ensures
        reachable(big, et, a, b),
{
    let p = choose|p: Seq<Seq<char>>| #[trigger] is_path(small, et, p) && p[0] == a && p.last() == b;
    assert forall|i: int| 0 <= i < p.len() - 1 implies #[trigger] path_step(big, et, p, i) by {
        assert(path_step(small, et, p, i));
    }
    assert(is_path(big, et, p));
}

/// Removing edges keeps the graph free of cycles.
pub proof fn lemma_sub_keeps_acyclic(small: Seq<EdgeView>, big: Seq<EdgeView>, et: EdgeType)
    requires
        acyclic(big, et),
        forall|k: int| 0 <= k < small.len() ==> big.contains(#[trigger] small[k]),
    ensures
        acyclic(small, et),
{
    assert forall|x: Seq<char>, y: Seq<char>| has_edge(small, et, x, y) implies has_edge(
        big,
        et,
        x,
        y,
    ) by {
        let k = choose|k: int|
            0 <= k < small.len() && #[trigger] small[k].edge_type == et && small[k].source_id == x
                && small[k].target_id == y;
        assert(big.contains(small[k]));
        let j = choose|j: int| 0 <= j < big.len() && big[j] == small[k];
        assert(big[j].edge_type == et);
    }
    assert forall|k: int| 0 <= k < small.len() && #[trigger] small[k].edge_type == et implies !reachable(
        small,
        et,
        small[k].target_id,
        small[k].source_id,
    ) by {
        assert(big.contains(small[k]));
        let j = choose|j: int| 0 <= j < big.len() && big[j] == small[k];
        assert(big[j].edge_type == et);
        if reachable(small, et, small[k].target_id, small[k].source_id) {
            lemma_reachable_mono(small, big, et, small[k].target_id, small[k].source_id);
        }
    }
}

/// A duplicate-free sequence drawn from `u` is no longer than `u`.
pub proof fn lemma_distinct_len_bound(s: Seq<Seq<char>>, u: Seq<Seq<char>>)
    requires
        s.no_duplicates(),
        forall|i: int| 0 <= i < s.len() ==> u.contains(#[trigger] s[i]),
    ensures
        s.len() <= u.len(),
{
    s.unique_seq_to_set();
    u.lemma_cardinality_of_set();
    assert(s.to_set().subset_of(u.to_set())) by {
        assert forall|x: Seq<char>| s.to_set().contains(x) implies u.to_set().contains(x) by {
            let i = choose|i: int| 0 <= i < s.len() && s[i] == x;
        }
    }
    vstd::set_lib::lemma_len_subset(s.to_set(), u.to_set());
}

fn contains_str(v: &Vec<String>, x: &String) -> (r: bool)
    ensures
        r == strs(v@).contains(x@),
{
    let mut i: usize = 0;
    while i < v.len()
        invariant
            i <= v.len(),
            forall|j: int| 0 <= j < i ==> strs(v@)[j] != x@,
        decreases v.len() - i,
    {
        if v[i] == *x {
            assert(strs(v@)[i as int] == x@);
            return true;
        }
        i = i + 1;
    }
    false
}

/// Every node reachable from `from` along edges of type `et`, each once.
/// The search visits nodes breadth-first; the order of the result is not
/// part of the contract.
pub fn collect_reachable(edges: &Vec<Edge>, et: EdgeType, from: &str) -> (r: Vec<String>)
    ensures
        strs(r@).no_duplicates(),
        forall|x: Seq<char>| strs(r@).contains(x) <==> reachable(views(edges@), et, from@, x),
{
    let ghost es = views(edges@);
    let ghost universe = seq![from@] + es.map_values(|e: EdgeView| e.target_id);
    let mut visited: Vec<String> = Vec::new();
    let mut queue: Vec<String> = Vec::new();
    queue.push(from.to_owned());
    let mut head: usize = 0;
    proof {
        lemma_reachable_refl(es, et, from@);
        assert(universe[0] == from@);
    }
    while head < queue.len()
        invariant
            es == views(edges@),
            universe == seq![from@] + es.map_values(|e: EdgeView| e.target_id),
            queue.len() >= 1,
            strs(queue@)[0] == from@,
            head <= queue.len(),
            strs(visited@).no_duplicates(),
            forall|j: int| 0 <= j < queue.len() ==> universe.contains(#[trigger] strs(queue@)[j]),
            forall|j: int| 0 <= j < visited.len() ==> universe.contains(#[trigger] strs(visited@)[j]),
            forall|j: int|
                0 <= j < queue.len() ==> reachable(es, et, from@, #[trigger] strs(queue@)[j]),
            forall|j: int|
                0 <= j < visited.len() ==> reachable(es, et, from@, #[trigger] strs(visited@)[j]),
            forall|j: int| 0 <= j < head ==> strs(visited@).contains(#[trigger] strs(queue@)[j]),
            forall|v: Seq<char>, w: Seq<char>|
                strs(visited@).contains(v) && has_edge(es, et, v, w) ==> strs(queue@).contains(w),
        decreases universe.len() - visited.len(), queue.len() - head,
    {
        let cur = queue[head].clone();
        head = head + 1;
        proof {
            assert(cur@ == strs(queue@)[head - 1]);
            lemma_distinct_len_bound(strs(visited@), universe);
        }
        if contains_str(&visited, &cur) {
            continue;
        }
        let ghost old_queue = queue@;
        let ghost old_visited = visited@;
        visited.push(cur.clone());
        proof {
            assert(strs(visited@) =~= strs(old_visited).push(cur@));
            assert(strs(visited@).no_duplicates());
            lemma_distinct_len_bound(strs(visited@), universe);
        }
        let mut k: usize = 0;
        while k < edges.len()
            invariant
                es == views(edges@),
                universe == seq![from@] + es.map_values(|e: EdgeView| e.target_id),
                k <= edges.len(),
                old_queue.len() >= 1,
                queue.len() >= old_queue.len(),
                forall|j: int| 0 <= j < old_queue.len() ==> queue@[j] == old_queue[j],
                strs(queue@)[0] == from@,
                forall|j: int| 0 <= j < queue.len() ==> universe.contains(#[trigger] strs(queue@)[j]),
                forall|j: int|
                    0 <= j < queue.len() ==> reachable(es, et, from@, #[trigger] strs(queue@)[j]),
                reachable(es, et, from@, cur@),
                forall|j: int|
                    0 <= j < k && es[j].edge_type == et && es[j].source_id == cur@
                        ==> strs(queue@).contains(#[trigger] es[j].target_id),
            decreases edges.len() - k,
        {
            let e = &edges[k];
            if e.edge_type == et && e.source_id == cur {
                let ghost before = queue@;
                queue.push(e.target_id.clone());
                proof {
                    assert(es[k as int] == edges@[k as int]@);
                    assert(es[k as int].edge_type == et);
                    assert(es[k as int].source_id == cur@);
                    assert(es[k as int].target_id == e.target_id@);
                    assert(has_edge(es, et, cur@, e.target_id@));
                    lemma_reachable_step(es, et, from@, cur@, e.target_id@);
                    assert(universe[k + 1] == es[k as int].target_id);
                    assert(strs(queue@)[queue.len() - 1] == e.target_id@);
                    assert(universe.contains(e.target_id@));
                    assert forall|j: int| 0 <= j < queue.len() implies universe.contains(
                        #[trigger] strs(queue@)[j],
                    ) && reachable(es, et, from@, strs(queue@)[j]) by {
                        if j < before.len() {
                            assert(strs(queue@)[j] == strs(before)[j]);
                        }
                    }
                    assert forall|j: int|
                        0 <= j < k + 1 && es[j].edge_type == et && es[j].source_id == cur@
                        implies strs(queue@).contains(#[trigger] es[j].target_id) by {
                        if j < k {
                            assert(strs(before).contains(es[j].target_id));
                            let t = choose|t: int|
                                0 <= t < before.len() && strs(before)[t] == es[j].target_id;
                            assert(strs(queue@)[t] == es[j].target_id);
                        } else {
                            assert(es[j].target_id == e.target_id@);
                        }
                    }
                }
            }
            k = k + 1;
        }
        proof {
            assert forall|j: int| 0 <= j < head implies strs(visited@).contains(
                #[trigger] strs(queue@)[j],
            ) by {
                assert(strs(queue@)[j] == strs(old_queue)[j]);
                if j < head - 1 {
                    let t = choose|t: int|
                        0 <= t < old_visited.len() && strs(old_visited)[t] == strs(old_queue)[j];
                    assert(strs(visited@)[t] == strs(old_visited)[t]);
                } else {
                    assert(strs(visited@)[old_visited.len() as int] == cur@);
                }
            }
            assert forall|v: Seq<char>, w: Seq<char>|
                strs(visited@).contains(v) && has_edge(es, et, v, w) implies strs(
                    queue@,
                ).contains(w) by {
                let kk = choose|kk: int|
                    0 <= kk < es.len() && #[trigger] es[kk].edge_type == et && es[kk].source_id == v
                        && es[kk].target_id == w;
                if v == cur@ {
                    assert(strs(queue@).contains(es[kk].target_id));
                } else {
                    let t = choose|t: int| 0 <= t < visited.len() && strs(visited@)[t] == v;
                    assert(t < old_visited.len());
                    assert(strs(old_visited)[t] == v);
                    assert(strs(old_visited).contains(v));
                    assert(strs(old_queue).contains(w));
                    let q = choose|q: int| 0 <= q < old_queue.len() && strs(old_queue)[q] == w;
                    assert(strs(queue@)[q] == w);
                }
            }
            assert forall|j: int| 0 <= j < visited.len() implies reachable(
                es,
                et,
                from@,
                #[trigger] strs(visited@)[j],
            ) by {
                if j < old_visited.len() {
                    assert(strs(visited@)[j] == strs(old_visited)[j]);
                }
            }
            assert forall|j: int| 0 <= j < visited.len() implies universe.contains(
                #[trigger] strs(visited@)[j],
            ) by {
                if j < old_visited.len() {
                    assert(strs(visited@)[j] == strs(old_visited)[j]);
                }
            }
        }
    }
    proof {
        assert(strs(visited@).contains(from@)) by {
            assert(strs(visited@).contains(strs(queue@)[0]));
        }
        assert forall|v: Seq<char>, w: Seq<char>|
            strs(visited@).contains(v) && has_edge(es, et, v, w) implies strs(visited@).contains(
                w,
            ) by {
            let q = choose|q: int| 0 <= q < queue.len() && strs(queue@)[q] == w;
            assert(strs(visited@).contains(strs(queue@)[q]));
        }
        assert forall|x: Seq<char>|
            strs(visited@).contains(x) <==> reachable(es, et, from@, x) by {
            if strs(visited@).contains(x) {
                let t = choose|t: int| 0 <= t < visited.len() && strs(visited@)[t] == x;
                assert(reachable(es, et, from@, strs(visited@)[t]));
            }
            if reachable(es, et, from@, x) {
                lemma_closed_holds_reachable(es, et, strs(visited@), from@, x);
            }
        }
    }
    visited
}

} // verus!
