//! Label selectors: equality on labels, and set-based expressions.

use vstd::prelude::*;
use crate::text::contains_str;

verus! {

/// The labels of an object, as key and value pairs; those of a cluster
/// object have distinct keys (see [`distinct_keys`]).
pub type Labels = Vec<(String, String)>;

/// No two pairs of `labels` share a key: the pairs form a map.
pub open spec fn distinct_keys(labels: Seq<(Seq<char>, Seq<char>)>) -> bool {
    forall|i: int, j: int|
        0 <= i < j < labels.len() ==> (#[trigger] labels[i]).0 != (#[trigger] labels[j]).0
}

/// The value of label `key`: that of the first pair with that key.
pub open spec fn label_of(labels: Seq<(Seq<char>, Seq<char>)>, key: Seq<char>) -> Option<Seq<char>>
    decreases labels.len(),
{
    if labels.len() == 0 {
        None
    } else if labels[0].0 == key {
        Some(labels[0].1)
    } else {
        label_of(labels.drop_first(), key)
    }
}

/// With distinct keys, `key` has value `v` exactly when the pair `(key, v)`
/// is among the labels, wherever it stands.
pub proof fn lemma_label_of_distinct(
    labels: Seq<(Seq<char>, Seq<char>)>,
    key: Seq<char>,
    v: Seq<char>,
)
    requires
        distinct_keys(labels),
    ensures
        label_of(labels, key) == Some(v) <==> labels.contains((key, v)),
    decreases labels.len(),
{
    if labels.len() > 0 {
        let rest = labels.drop_first();
        assert forall|i: int, j: int| 0 <= i < j < rest.len() implies (#[trigger] rest[i]).0
            != (#[trigger] rest[j]).0 by {
            assert(rest[i] == labels[i + 1] && rest[j] == labels[j + 1]);
        }
        lemma_label_of_distinct(rest, key, v);
        if labels.contains((key, v)) {
            let i = choose|i: int| 0 <= i < labels.len() && labels[i] == (key, v);
            if i > 0 {
                assert(rest[i - 1] == (key, v));
                if labels[0].0 == key {
                    assert(labels[0].0 == labels[i].0);
                }
            }
        }
        if rest.contains((key, v)) {
            let i = choose|i: int| 0 <= i < rest.len() && rest[i] == (key, v);
            assert(labels[i + 1] == (key, v));
        }
        if labels[0] == (key, v) {
            assert(labels.contains((key, v)));
        }
    }
}

/// The value of label `key` in `labels`, if it has one.
pub fn lookup_label<'a>(labels: &'a Labels, key: &String) -> (r: Option<&'a String>)
    ensures
        match r {
            Some(v) => label_of(labels.deep_view(), key@) == Some(v@),
            None => label_of(labels.deep_view(), key@) is None,
        },
{
    let ghost l = labels.deep_view();
    let mut i: usize = 0;
    assert(l.skip(0) == l);
    while i < labels.len()
        invariant
            i <= l.len(),
            l == labels.deep_view(),
            label_of(l, key@) == label_of(l.skip(i as int), key@),
        decreases l.len() - i,
    {
        assert(l[i as int] == (labels@[i as int].0@, labels@[i as int].1@));
        if labels[i].0 == *key {
            return Some(&labels[i].1);
        }
        assert(l.skip(i as int).drop_first() == l.skip(i + 1));
        i = i + 1;
    }
    None
}

/// How an expression relates a label to its values.
#[derive(Clone, Copy, Debug, PartialEq, Eq, Structural)]
pub enum ExpressionOperator {
    In,
    NotIn,
    Exists,
    DoesNotExist,
}

/// A set-based requirement on one label.
#[derive(Clone, Debug)]
pub struct Expression {
    pub key: String,
    pub operator: ExpressionOperator,
    pub values: Vec<String>,
}

pub struct ExpressionView {
    pub key: Seq<char>,
    pub operator: ExpressionOperator,
    pub values: Seq<Seq<char>>,
}

impl View for Expression {
    type V = ExpressionView;

    open spec fn view(&self) -> ExpressionView {
        ExpressionView { key: self.key@, operator: self.operator, values: self.values.deep_view() }
    }
}

/// Whether an expression holds of a label's observed value. `In` and `NotIn`
/// ask for a value: an absent label satisfies neither.
pub open spec fn expression_matches(e: ExpressionView, observed: Option<Seq<char>>) -> bool {
    match e.operator {
        ExpressionOperator::In => observed is Some && e.values.contains(observed->0),
        ExpressionOperator::NotIn => observed is Some && !e.values.contains(observed->0),
        ExpressionOperator::Exists => observed is Some,
        ExpressionOperator::DoesNotExist => observed is None,
    }
}

/// Every expression holds of the labels.
pub open spec fn all_match(exprs: Seq<ExpressionView>, labels: Seq<(Seq<char>, Seq<char>)>) -> bool {
    forall|k: int|
        0 <= k < exprs.len() ==> expression_matches(
            #[trigger] exprs[k],
            label_of(labels, exprs[k].key),
        )
}

pub open spec fn expression_views(exprs: Seq<Expression>) -> Seq<ExpressionView> {
    exprs.map_values(|e: Expression| e@)
}

impl Expression {
    /// Whether this expression holds of a label whose value is `input`
    /// (`None` when the label is absent).
    pub fn match_value(&self, input: Option<&String>) -> (r: bool)
        ensures
            r == expression_matches(
                self@,
                match input {
                    Some(v) => Some(v@),
                    None => None,
                },
            ),
    {
        match self.operator {
            ExpressionOperator::In => match input {
                Some(x) => contains_str(&self.values, x),
                None => false,
            },
            ExpressionOperator::NotIn => match input {
                Some(x) => !contains_str(&self.values, x),
                None => false,
            },
            ExpressionOperator::Exists => input.is_some(),
            ExpressionOperator::DoesNotExist => input.is_none(),
        }
    }
}

/// Whether every expression holds of `labels`.
pub fn matches_all(exprs: &Vec<Expression>, labels: &Labels) -> (r: bool)
    ensures
        r == all_match(expression_views(exprs@), labels.deep_view()),
{
    let ghost ev = expression_views(exprs@);
    let mut k: usize = 0;
    while k < exprs.len()
        invariant
            k <= exprs@.len(),
            ev == expression_views(exprs@),
            forall|m: int|
                0 <= m < k ==> expression_matches(
                    #[trigger] ev[m],
                    label_of(labels.deep_view(), ev[m].key),
                ),
        decreases exprs@.len() - k,
    {
        let e = &exprs[k];
        let observed = lookup_label(labels, &e.key);
        let ok = e.match_value(observed);
        assert(ev[k as int] == e@);
        assert(match observed {
            Some(v) => Some(v@),
            None => None,
        } == label_of(labels.deep_view(), e@.key));
        if !ok {
            return false;
        }
        k = k + 1;
    }
    true
}

/// What an expression asks of a label's presence: `Exists` holds exactly
/// when the label is present, `DoesNotExist` exactly when it is absent, and
/// `In` and `NotIn` never hold of an absent label (`NotIn` is not vacuously
/// true).
pub proof fn lemma_presence(e: ExpressionView, observed: Option<Seq<char>>)
    ensures
        e.operator == ExpressionOperator::Exists ==> (expression_matches(e, observed)
            <==> observed is Some),
        e.operator == ExpressionOperator::DoesNotExist ==> (expression_matches(e, observed)
            <==> observed is None),
        (e.operator == ExpressionOperator::In || e.operator == ExpressionOperator::NotIn)
            && observed is None ==> !expression_matches(e, observed),
{
}

} // verus!
