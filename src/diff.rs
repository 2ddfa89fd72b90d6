//! Changes between two sorted value sets, found by walking both at once.

use vstd::prelude::*;
use crate::ownership::{OwnedOp, OwnedOpView};
use crate::record::{built_record, RecordBuilder, RecordBuilderView};
use crate::text::{
    lemma_lex_irreflexive, lemma_lex_total, lemma_lex_transitive, lex_lt,
    str_lt, strictly_sorted,
};

verus! {

/// A value that appeared or disappeared.
#[derive(Clone, Debug)]
pub enum RecordChange {
    Add(String),
    Remove(String),
}

pub enum RecordChangeView {
    Add(Seq<char>),
    Remove(Seq<char>),
}

impl View for RecordChange {
    type V = RecordChangeView;

    open spec fn view(&self) -> RecordChangeView {
        match self {
            RecordChange::Add(v) => RecordChangeView::Add(v@),
            RecordChange::Remove(v) => RecordChangeView::Remove(v@),
        }
    }
}

/// The value that a change is about.
pub open spec fn change_value(c: RecordChangeView) -> Seq<char> {
    match c {
        RecordChangeView::Add(v) => v,
        RecordChangeView::Remove(v) => v,
    }
}

pub open spec fn change_views(cs: Seq<RecordChange>) -> Seq<RecordChangeView> {
    cs.map_values(|c: RecordChange| c@)
}

/// `changes` lists, in increasing order of value, a removal for each value
/// of `old` that is not in `new` and an addition for each value of `new` that
/// is not in `old`, and nothing else.
pub open spec fn is_diff(old: Seq<Seq<char>>, new: Seq<Seq<char>>, changes: Seq<RecordChangeView>) -> bool {
    &&& strictly_sorted(changes.map_values(|c: RecordChangeView| change_value(c)))
    &&& forall|k: int|
        0 <= k < changes.len() ==> match #[trigger] changes[k] {
            RecordChangeView::Remove(v) => old.contains(v) && !new.contains(v),
            RecordChangeView::Add(v) => new.contains(v) && !old.contains(v),
        }
    &&& forall|v: Seq<char>|
        old.contains(v) && !new.contains(v) ==> changes.contains(RecordChangeView::Remove(v))
    &&& forall|v: Seq<char>|
        new.contains(v) && !old.contains(v) ==> changes.contains(RecordChangeView::Add(v))
}

/// The changes from the sorted set `old` to the sorted set `new`, found by
/// walking both with one cursor each: the smaller value is a removal if it is
/// the old one and an addition if it is the new one; equal values are no
/// change; what is left of one list once the other is done is all removals or
/// all additions.
pub fn diff_sorted(old: &Vec<String>, new: &Vec<String>) -> (r: Vec<RecordChange>)
    requires
        strictly_sorted(old.deep_view()),
        strictly_sorted(new.deep_view()),
    ensures
        is_diff(old.deep_view(), new.deep_view(), change_views(r@)),
{
    let ghost o = old.deep_view();
    let ghost n = new.deep_view();
    let mut out: Vec<RecordChange> = Vec::new();
    let mut i: usize = 0;
    let mut j: usize = 0;
    while i < old.len() || j < new.len()
        invariant
            o == old.deep_view(),
            n == new.deep_view(),
            strictly_sorted(o),
            strictly_sorted(n),
            i <= o.len(),
            j <= n.len(),
            forall|p: int, q: int| 0 <= p < i && j <= q < n.len() ==> lex_lt(o[p], n[q]),
            forall|p: int, q: int| 0 <= q < j && i <= p < o.len() ==> lex_lt(n[q], o[p]),
            strictly_sorted(change_views(out@).map_values(|c: RecordChangeView| change_value(c))),
            forall|k: int|
                0 <= k < out@.len() ==> match #[trigger] change_views(out@)[k] {
                    RecordChangeView::Remove(v) => o.contains(v) && !n.contains(v),
                    RecordChangeView::Add(v) => n.contains(v) && !o.contains(v),
                },
            forall|k: int, p: int|
                0 <= k < out@.len() && i <= p < o.len() ==> lex_lt(
                    change_value(#[trigger] change_views(out@)[k]),
                    #[trigger] o[p],
                ),
            forall|k: int, q: int|
                0 <= k < out@.len() && j <= q < n.len() ==> lex_lt(
                    change_value(#[trigger] change_views(out@)[k]),
                    #[trigger] n[q],
                ),
            forall|p: int|
                0 <= p < i && !n.contains(#[trigger] o[p]) ==> change_views(out@).contains(
                    RecordChangeView::Remove(o[p]),
                ),
            forall|q: int|
                0 <= q < j && !o.contains(#[trigger] n[q]) ==> change_views(out@).contains(
                    RecordChangeView::Add(n[q]),
                ),
        decreases o.len() - i + n.len() - j,
    {
        let ghost before = change_views(out@);
        if i < old.len() && j < new.len() && old[i] == new[j] {
            assert(o[i as int] == n[j as int]);
            proof {
                assert(n[j as int] == o[i as int]);
                assert(n.contains(o[i as int]));
                assert(o.contains(n[j as int]));
            }
            i = i + 1;
            j = j + 1;
        } else if j == new.len() || (i < old.len() && str_lt(&old[i], &new[j])) {
            let ghost v = o[i as int];
            proof {
                assert(old@[i as int]@ == v);
                assert forall|q: int| 0 <= q < n.len() implies n[q] != v by {
                    if q <= j {
                        lemma_lex_irreflexive(v);
                    } else {
                        lemma_lex_transitive(v, n[j as int], n[q]);
                        lemma_lex_irreflexive(v);
                    }
                }
                assert(!n.contains(v));
                assert(o.contains(v));
                assert forall|q: int| j <= q < n.len() implies lex_lt(v, n[q]) by {
                    if q > j {
                        lemma_lex_transitive(v, n[j as int], n[q]);
                    }
                }
            }
            out.push(RecordChange::Remove(old[i].clone()));
            proof {
                let cv = change_views(out@);
                assert(cv =~= before.push(RecordChangeView::Remove(v)));
                assert(cv[cv.len() - 1] == RecordChangeView::Remove(v));
                assert forall|x: RecordChangeView| before.contains(x) implies cv.contains(x) by {
                    let k = choose|k: int| 0 <= k < before.len() && before[k] == x;
                    assert(cv[k] == x);
                }
                assert(cv.map_values(|c: RecordChangeView| change_value(c)) =~= before.map_values(
                    |c: RecordChangeView| change_value(c),
                ).push(v));
            }
            i = i + 1;
        } else {
            let ghost v = n[j as int];
            proof {
                assert(new@[j as int]@ == v);
                if i < o.len() {
                    assert(o[i as int] != v);
                    assert(!lex_lt(o[i as int], v));
                    lemma_lex_total(o[i as int], v);
                }
                assert forall|p: int| 0 <= p < o.len() implies o[p] != v by {
                    if p < i {
                        lemma_lex_irreflexive(v);
                    } else if p == i {
                    } else {
                        lemma_lex_transitive(v, o[i as int], o[p]);
                        lemma_lex_irreflexive(v);
                    }
                }
                assert(!o.contains(v));
                assert(n.contains(v));
                assert forall|p: int| i <= p < o.len() implies lex_lt(v, o[p]) by {
                    if p > i {
                        lemma_lex_transitive(v, o[i as int], o[p]);
                    }
                }
            }
            out.push(RecordChange::Add(new[j].clone()));
            proof {
                let cv = change_views(out@);
                assert(cv =~= before.push(RecordChangeView::Add(v)));
                assert(cv[cv.len() - 1] == RecordChangeView::Add(v));
                assert forall|x: RecordChangeView| before.contains(x) implies cv.contains(x) by {
                    let k = choose|k: int| 0 <= k < before.len() && before[k] == x;
                    assert(cv[k] == x);
                }
                assert(cv.map_values(|c: RecordChangeView| change_value(c)) =~= before.map_values(
                    |c: RecordChangeView| change_value(c),
                ).push(v));
            }
            j = j + 1;
        }
    }
    out
}

/// The values of `values` in increasing order, each once.
pub fn sort_unique(values: &Vec<String>) -> (r: Vec<String>)
    ensures
        strictly_sorted(r.deep_view()),
        forall|v: Seq<char>| r.deep_view().contains(v) <==> values.deep_view().contains(v),
{
    let ghost src = values.deep_view();
    let mut r: Vec<String> = Vec::new();
    let mut i: usize = 0;
    while i < values.len()
        invariant
            i <= values@.len(),
            src == values.deep_view(),
            strictly_sorted(r.deep_view()),
            forall|v: Seq<char>| r.deep_view().contains(v) <==> src.take(i as int).contains(v),
        decreases values@.len() - i,
    {
        let ghost rv = r.deep_view();
        let ghost v = src[i as int];
        assert(values@[i as int]@ == v);
        let mut p: usize = 0;
        while p < r.len() && str_lt(&r[p], &values[i])
            invariant
                p <= rv.len(),
                rv == r.deep_view(),
                v == values@[i as int]@,
                i < values@.len(),
                forall|k: int| 0 <= k < p ==> lex_lt(#[trigger] rv[k], v),
            decreases rv.len() - p,
        {
            assert(rv[p as int] == r@[p as int]@);
            p = p + 1;
        }
        let ghost pre = src.take(i as int);
        let ghost post = src.take(i + 1);
        assert(post == pre.push(v));
        if p < r.len() && r[p] == values[i] {
            assert(rv[p as int] == v);
            assert forall|w: Seq<char>| rv.contains(w) <==> post.contains(w) by {
                if w == v {
                    assert(post[i as int] == v);
                }
                if post.contains(w) && w != v {
                    let k = choose|k: int| 0 <= k < post.len() && post[k] == w;
                    assert(pre[k] == w);
                }
                if pre.contains(w) {
                    let k = choose|k: int| 0 <= k < pre.len() && pre[k] == w;
                    assert(post[k] == w);
                }
            }
        } else {
            if p < r.len() {
                proof {
                    assert(rv[p as int] == r@[p as int]@);
                    assert(rv[p as int] != v);
                    lemma_lex_total(rv[p as int], v);
                }
            }
            r.insert(p, values[i].clone());
            let ghost nv = rv.insert(p as int, v);
            assert(r.deep_view() =~= nv);
            assert forall|a: int, b: int| 0 <= a < b < nv.len() implies lex_lt(
                #[trigger] nv[a],
                #[trigger] nv[b],
            ) by {
                if b < p {
                } else if b == p {
                } else if a < p {
                    lemma_lex_transitive(nv[a], v, rv[p as int]);
                    if b > p + 1 {
                        lemma_lex_transitive(nv[a], rv[p as int], nv[b]);
                    }
                } else if a == p {
                    if b > p + 1 {
                        lemma_lex_transitive(v, rv[p as int], nv[b]);
                    }
                } else {
                }
            }
            assert forall|w: Seq<char>| nv.contains(w) <==> post.contains(w) by {
                if w == v {
                    assert(post[i as int] == v);
                    assert(nv[p as int] == v);
                }
                if nv.contains(w) && w != v {
                    let k = choose|k: int| 0 <= k < nv.len() && nv[k] == w;
                    if k < p {
                        assert(rv[k] == w);
                    } else {
                        assert(rv[k - 1] == w);
                    }
                }
                if rv.contains(w) {
                    let k = choose|k: int| 0 <= k < rv.len() && rv[k] == w;
                    if k < p {
                        assert(nv[k] == w);
                    } else {
                        assert(nv[k + 1] == w);
                    }
                }
                if post.contains(w) && w != v {
                    let k = choose|k: int| 0 <= k < post.len() && post[k] == w;
                    assert(pre[k] == w);
                }
                if pre.contains(w) {
                    let k = choose|k: int| 0 <= k < pre.len() && pre[k] == w;
                    assert(post[k] == w);
                }
            }
        }
        i = i + 1;
    }
    assert(src.take(src.len() as int) == src);
    r
}

/// The ownership-aware call that applies `change` to the records built from
/// `builder`, with time-to-live 1.
pub fn change_op(builder: &RecordBuilder, change: &RecordChange) -> (r: OwnedOp)
    ensures
        r@ == match change@ {
            RecordChangeView::Add(v) => OwnedOpView::Add(built_record(builder@, v, 1)),
            RecordChangeView::Remove(v) => OwnedOpView::Delete(built_record(builder@, v, 1)),
        },
{
    match change {
        RecordChange::Add(v) => OwnedOp::Add(builder.build_with(v, 1)),
        RecordChange::Remove(v) => OwnedOp::Delete(builder.build_with(v, 1)),
    }
}

/// The value set last seen by a watch: sorted, without repeats.
pub struct ValueTracker {
    current: Vec<String>,
}

impl ValueTracker {
    /// The values currently known, in increasing order.
    pub closed spec fn known(&self) -> Seq<Seq<char>> {
        self.current.deep_view()
    }

    pub closed spec fn wf(&self) -> bool {
        strictly_sorted(self.current.deep_view())
    }

    /// A tracker that knows `values`.
    pub fn new(values: &Vec<String>) -> (r: ValueTracker)
        ensures
            r.wf(),
            strictly_sorted(r.known()),
            forall|v: Seq<char>| r.known().contains(v) <==> values.deep_view().contains(v),
    {
        ValueTracker { current: sort_unique(values) }
    }

    /// The values currently known, in increasing order.
    pub fn values(&self) -> (r: &Vec<String>)
        ensures
            r.deep_view() == self.known(),
    {
        &self.current
    }

    /// Takes `values` as the new value set and returns the changes from the
    /// previous one.
    pub fn update(&mut self, values: &Vec<String>) -> (r: Vec<RecordChange>)
        requires
            old(self).wf(),
        ensures
            final(self).wf(),
            strictly_sorted(final(self).known()),
            forall|v: Seq<char>| final(self).known().contains(v) <==> values.deep_view().contains(v),
            is_diff(old(self).known(), final(self).known(), change_views(r@)),
    {
        let next = sort_unique(values);
        let changes = diff_sorted(&self.current, &next);
        self.current = next;
        changes
    }
}

} // verus!
