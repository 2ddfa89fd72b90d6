//! Values drawn from pods: the external addresses of the nodes that run the
//! pods a selector picks.
//!
//! Listing pods and fetching nodes is the caller's part. The listing is
//! narrowed on the server by the selector's label equalities
//! ([`PodSelector::label_selector`]); the whole selector, equalities and
//! expressions, is checked here ([`PodSelector::node_names`]), which yields
//! the nodes to fetch; their address lists then give the values, sorted and
//! without repeats ([`external_addresses`]).

use vstd::prelude::*;
use crate::diff::sort_unique;
use crate::selector::{all_match, expression_views, label_of, lookup_label, matches_all, Expression, Labels};
use crate::text::{contains_str, strictly_sorted};

verus! {

/// Picks pods by label equalities and set-based expressions.
#[derive(Clone, Debug)]
pub struct PodSelector {
    pub match_labels: Option<Labels>,
    pub match_expressions: Option<Vec<Expression>>,
}

/// What the value collection reads of a pod.
#[derive(Clone, Debug)]
pub struct PodInfo {
    pub labels: Option<Labels>,
    pub node_name: Option<String>,
}

/// One address of a node, with its kind (such as `ExternalIP`).
#[derive(Clone, Debug)]
pub struct NodeAddress {
    pub address_type: String,
    pub address: String,
}

/// A field that the value collection needs was absent.
#[derive(Clone, Copy, Debug, PartialEq, Eq, Structural)]
pub enum ValueError {
    MissingNodeName,
    MissingAddresses,
}

/// `s` without repeats, each value where it first occurs.
pub open spec fn dedup(s: Seq<Seq<char>>) -> Seq<Seq<char>>
    decreases s.len(),
{
    if s.len() == 0 {
        s
    } else {
        let d = dedup(s.drop_last());
        if d.contains(s.last()) {
            d
        } else {
            d.push(s.last())
        }
    }
}

/// The labels of pod `p`; a pod given without labels has none.
pub open spec fn pod_labels(p: PodInfo) -> Seq<(Seq<char>, Seq<char>)> {
    match p.labels {
        Some(l) => l.deep_view(),
        None => Seq::empty(),
    }
}

/// Every pair of `pairs` is a label of `labels`, with that value.
pub open spec fn has_all(pairs: Seq<(Seq<char>, Seq<char>)>, labels: Seq<(Seq<char>, Seq<char>)>) -> bool {
    forall|k: int| 0 <= k < pairs.len() ==> label_of(labels, (#[trigger] pairs[k]).0) == Some(pairs[k].1)
}

/// The selector picks an object with `labels`: every label equality holds,
/// and every expression holds (an absent part asks nothing).
pub open spec fn accepts(sel: PodSelector, labels: Seq<(Seq<char>, Seq<char>)>) -> bool {
    &&& match sel.match_labels {
        Some(m) => has_all(m.deep_view(), labels),
        None => true,
    }
    &&& match sel.match_expressions {
        Some(es) => all_match(expression_views(es@), labels),
        None => true,
    }
}

/// What stops the collection at pod `p`: a pod that the selector picks has
/// no node.
pub open spec fn pod_fault(sel: PodSelector, p: PodInfo) -> Option<ValueError> {
    if accepts(sel, pod_labels(p)) && p.node_name is None {
        Some(ValueError::MissingNodeName)
    } else {
        None
    }
}

/// The node of pod `p`, if the selector picks it.
pub open spec fn picked_node(sel: PodSelector, p: PodInfo) -> Option<Seq<char>> {
    match p.node_name {
        Some(n) => if accepts(sel, pod_labels(p)) {
            Some(n@)
        } else {
            None
        },
        None => None,
    }
}

/// The nodes of the picked pods, in order, each once.
pub open spec fn picked_nodes(sel: PodSelector, pods: Seq<PodInfo>) -> Seq<Seq<char>> {
    dedup(pods.filter_map(|p: PodInfo| picked_node(sel, p)))
}

/// The text of a label-equality selector: `key=value` for each pair, joined
/// by commas.
pub open spec fn selector_text(pairs: Seq<(Seq<char>, Seq<char>)>) -> Seq<char>
    decreases pairs.len(),
{
    if pairs.len() == 0 {
        Seq::empty()
    } else {
        let last = pairs.last().0 + seq!['='] + pairs.last().1;
        if pairs.len() == 1 {
            last
        } else {
            selector_text(pairs.drop_last()) + seq![','] + last
        }
    }
}

/// The kind of address that gives values.
pub open spec fn external_ip_kind() -> Seq<char> {
    seq!['E', 'x', 't', 'e', 'r', 'n', 'a', 'l', 'I', 'P']
}

/// The external addresses of one node, in order.
pub open spec fn node_ips(addrs: Seq<NodeAddress>) -> Seq<Seq<char>> {
    addrs.filter_map(
        |a: NodeAddress|
            if a.address_type@ == external_ip_kind() {
                Some(a.address@)
            } else {
                None
            },
    )
}

/// The external addresses of all nodes, node after node (a node without an
/// address list adds none).
pub open spec fn all_ips(nodes: Seq<Option<Vec<NodeAddress>>>) -> Seq<Seq<char>>
    decreases nodes.len(),
{
    if nodes.len() == 0 {
        Seq::empty()
    } else {
        all_ips(nodes.drop_last()) + match nodes.last() {
            Some(a) => node_ips(a@),
            None => Seq::empty(),
        }
    }
}

impl PodSelector {
    /// Whether the selector picks an object with `labels`.
    pub fn selects(&self, labels: &Labels) -> (r: bool)
        ensures
            r == accepts(*self, labels.deep_view()),
    {
        let equal = match &self.match_labels {
            Some(m) => has_all_labels(m, labels),
            None => true,
        };
        equal && match &self.match_expressions {
            Some(es) => matches_all(es, labels),
            None => true,
        }
    }

    /// The label-equality part of the selector as a listing filter, if it
    /// has any pair.
    pub fn label_selector(&self) -> (r: Option<String>)
        ensures
            match self.match_labels {
                Some(l) if l@.len() > 0 => r is Some && r->Some_0@ == selector_text(l.deep_view()),
                _ => r is None,
            },
    {
        let labels = match &self.match_labels {
            Some(l) => l,
            None => return None,
        };
        if labels.len() == 0 {
            return None;
        }
        let ghost l = labels.deep_view();
        let mut out = String::new();
        let mut i: usize = 0;
        while i < labels.len()
            invariant
                i <= l.len(),
                l == labels.deep_view(),
                out@ == selector_text(l.take(i as int)),
            decreases l.len() - i,
        {
            assert(l.take(i + 1).drop_last() == l.take(i as int));
            assert(l[i as int] == (labels@[i as int].0@, labels@[i as int].1@));
            if i > 0 {
                out.push(',');
            }
            out.push_str(labels[i].0.as_str());
            out.push('=');
            out.push_str(labels[i].1.as_str());
            assert(out@ =~= selector_text(l.take(i + 1)));
            i = i + 1;
        }
        assert(l.take(l.len() as int) == l);
        Some(out)
    }

    /// The nodes that run the pods this selector picks, in the order of
    /// `pods`, each once; or an error at the first picked pod without a
    /// node. A pod without labels is read as having none.
    pub fn node_names(&self, pods: &Vec<PodInfo>) -> (r: Result<Vec<String>, ValueError>)
        ensures
            match r {
                Ok(names) => (forall|i: int|
                    0 <= i < pods@.len() ==> pod_fault(*self, #[trigger] pods@[i]) is None)
                    && names.deep_view() == picked_nodes(*self, pods@),
                Err(e) => exists|i: int|
                    0 <= i < pods@.len() && pod_fault(*self, #[trigger] pods@[i]) == Some(e)
                        && forall|j: int| 0 <= j < i ==> pod_fault(*self, #[trigger] pods@[j]) is None,
            },
    {
        let ghost f = |p: PodInfo| picked_node(*self, p);
        let mut names: Vec<String> = Vec::new();
        let mut i: usize = 0;
        while i < pods.len()
            invariant
                i <= pods@.len(),
                f == (|p: PodInfo| picked_node(*self, p)),
                forall|j: int| 0 <= j < i ==> pod_fault(*self, #[trigger] pods@[j]) is None,
                names.deep_view() == dedup(pods@.take(i as int).filter_map(f)),
            decreases pods@.len() - i,
        {
            let ghost pre = pods@.take(i as int);
            let ghost post = pods@.take(i + 1);
            assert(post.drop_last() == pre);
            assert(post.last() == pods@[i as int]);
            let pod = &pods[i];
            let picked = match &pod.labels {
                Some(l) => self.selects(l),
                None => {
                    let none: Labels = Vec::new();
                    assert(none.deep_view() =~= Seq::<(Seq<char>, Seq<char>)>::empty());
                    self.selects(&none)
                },
            };
            if picked {
                let node = match &pod.node_name {
                    Some(n) => n,
                    None => return Err(ValueError::MissingNodeName),
                };
                assert(post.filter_map(f) == pre.filter_map(f).push(node@));
                assert(post.filter_map(f).drop_last() == pre.filter_map(f));
                if !contains_str(&names, node) {
                    names.push(node.clone());
                    assert(names.deep_view() =~= dedup(pre.filter_map(f)).push(node@));
                }
            } else {
                assert(post.filter_map(f) == pre.filter_map(f));
            }
            i = i + 1;
        }
        assert(pods@.take(pods@.len() as int) == pods@);
        Ok(names)
    }
}

/// The external addresses of the fetched nodes, sorted, each once; an
/// error if a node came without an address list.
pub fn external_addresses(nodes: &Vec<Option<Vec<NodeAddress>>>) -> (r: Result<
    Vec<String>,
    ValueError,
>)
    ensures
        match r {
            Ok(ips) => (forall|i: int| 0 <= i < nodes@.len() ==> (#[trigger] nodes@[i]) is Some)
                && strictly_sorted(ips.deep_view()) && forall|v: Seq<char>|
                ips.deep_view().contains(v) <==> all_ips(nodes@).contains(v),
            Err(e) => e == ValueError::MissingAddresses && exists|i: int|
                0 <= i < nodes@.len() && (#[trigger] nodes@[i]) is None,
        },
{
    let kind = "ExternalIP".to_owned();
    proof {
        reveal_strlit("ExternalIP");
    }
    let mut found: Vec<String> = Vec::new();
    let mut i: usize = 0;
    while i < nodes.len()
        invariant
            i <= nodes@.len(),
            kind@ == external_ip_kind(),
            forall|j: int| 0 <= j < i ==> (#[trigger] nodes@[j]) is Some,
            found.deep_view() == all_ips(nodes@.take(i as int)),
        decreases nodes@.len() - i,
    {
        let ghost pre = nodes@.take(i as int);
        let ghost post = nodes@.take(i + 1);
        assert(post.drop_last() == pre);
        let addrs = match &nodes[i] {
            Some(a) => a,
            None => {
                assert(nodes@[i as int] is None);
                return Err(ValueError::MissingAddresses);
            },
        };
        assert(all_ips(post) == all_ips(pre) + node_ips(addrs@));
        let ghost base = all_ips(pre);
        let mut j: usize = 0;
        while j < addrs.len()
            invariant
                j <= addrs@.len(),
                kind@ == external_ip_kind(),
                found.deep_view() == base + node_ips(addrs@.take(j as int)),
            decreases addrs@.len() - j,
        {
            let ghost apre = addrs@.take(j as int);
            let ghost apost = addrs@.take(j + 1);
            assert(apost.drop_last() == apre);
            assert(apost.last() == addrs@[j as int]);
            let a = &addrs[j];
            if a.address_type == kind {
                assert(node_ips(apost) == node_ips(apre).push(a.address@));
                let ghost before = found.deep_view();
                found.push(a.address.clone());
                assert(found.deep_view() =~= before.push(a.address@));
                assert(base + node_ips(apost) =~= (base + node_ips(apre)).push(a.address@));
            } else {
                assert(node_ips(apost) == node_ips(apre));
            }
            j = j + 1;
        }
        assert(addrs@.take(addrs@.len() as int) == addrs@);
        i = i + 1;
    }
    assert(nodes@.take(nodes@.len() as int) == nodes@);
    Ok(sort_unique(&found))
}

/// Whether every pair of `pairs` is a label of `labels`, with that value.
fn has_all_labels(pairs: &Labels, labels: &Labels) -> (r: bool)
    ensures
        r == has_all(pairs.deep_view(), labels.deep_view()),
{
    let ghost pv = pairs.deep_view();
    let mut k: usize = 0;
    while k < pairs.len()
        invariant
            k <= pv.len(),
            pv == pairs.deep_view(),
            forall|m: int| 0 <= m < k ==> label_of(labels.deep_view(), (#[trigger] pv[m]).0) == Some(pv[m].1),
        decreases pv.len() - k,
    {
        assert(pv[k as int] == (pairs@[k as int].0@, pairs@[k as int].1@));
        match lookup_label(labels, &pairs[k].0) {
            Some(v) => {
                if *v != pairs[k].1 {
                    return false;
                }
            },
            None => return false,
        }
        k = k + 1;
    }
    true
}

} // verus!
