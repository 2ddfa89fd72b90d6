//! Configuration: which records a provider manages, the provider's
//! credentials, the managed-record resource, and the program's options.

use vstd::prelude::*;
use crate::pods::PodSelector;
use crate::record::RecordType;
use crate::text::{chars_of, has_suffix, str_ends_with, string_from};

verus! {

/// Credentials for the CloudFlare API.
#[derive(Clone, Debug)]
pub enum CloudFlareConfig {
    /// An API token, which may be limited to some zones and permissions.
    Token { api_token: String },
    /// An account's e-mail address and global API key.
    EmailKey { email: String, api_key: String },
}

/// A DNS provider and its options.
#[derive(Clone, Debug)]
pub enum ProviderConfig {
    CloudFlare(CloudFlareConfig),
}

/// One entry of the configuration: the provider that manages the records
/// whose names end with one of the selector strings.
#[derive(Clone, Debug)]
pub struct AresConfig {
    pub selector: Vec<String>,
    pub provider: ProviderConfig,
}

/// `item` ends with one of the `selector` strings (a plain suffix: no label
/// boundary is required).
pub open spec fn matches_any(selector: Seq<Seq<char>>, item: Seq<char>) -> bool {
    exists|k: int| 0 <= k < selector.len() && has_suffix(item, #[trigger] selector[k])
}

impl AresConfig {
    /// Whether `item` ends with one of this entry's selector strings. To
    /// match the names under `example.com` but not `example.com` itself, use
    /// `.example.com`; note that `example.com` also matches
    /// `badexample.com`.
    pub fn matches_selector(&self, item: &str) -> (r: bool)
        ensures
            r == matches_any(self.selector.deep_view(), item@),
    {
        let ghost sel = self.selector.deep_view();
        let mut k: usize = 0;
        while k < self.selector.len()
            invariant
                k <= sel.len(),
                sel == self.selector.deep_view(),
                forall|m: int| 0 <= m < k ==> !has_suffix(item@, #[trigger] sel[m]),
            decreases sel.len() - k,
        {
            assert(sel[k as int] == self.selector@[k as int]@);
            if str_ends_with(item, self.selector[k].as_str()) {
                return true;
            }
            k = k + 1;
        }
        false
    }

    /// The positions in `fqdns` of the names that this entry manages, in
    /// order.
    pub fn select_records(&self, fqdns: &Vec<String>) -> (r: Vec<usize>)
        ensures
            forall|i: int| 0 <= i < r@.len() ==> #[trigger] r@[i] < fqdns@.len(),
            forall|i: int, j: int| 0 <= i < j < r@.len() ==> r@[i] < r@[j],
            forall|p: int|
                0 <= p < fqdns@.len() ==> (r@.contains(p as usize) <==> matches_any(
                    self.selector.deep_view(),
                    (#[trigger] fqdns@[p])@,
                )),
    {
        let mut r: Vec<usize> = Vec::new();
        let mut p: usize = 0;
        while p < fqdns.len()
            invariant
                p <= fqdns@.len(),
                forall|i: int| 0 <= i < r@.len() ==> #[trigger] r@[i] < p,
                forall|i: int, j: int| 0 <= i < j < r@.len() ==> r@[i] < r@[j],
                forall|q: int|
                    0 <= q < p ==> (r@.contains(q as usize) <==> matches_any(
                        self.selector.deep_view(),
                        (#[trigger] fqdns@[q])@,
                    )),
            decreases fqdns@.len() - p,
        {
            let ghost before = r@;
            if self.matches_selector(fqdns[p].as_str()) {
                r.push(p);
                assert forall|q: int| 0 <= q < p implies (r@.contains(q as usize) <==> matches_any(
                    self.selector.deep_view(),
                    (#[trigger] fqdns@[q])@,
                )) by {
                    assert(before.contains(q as usize) <==> matches_any(
                        self.selector.deep_view(),
                        fqdns@[q]@,
                    ));
                    if before.contains(q as usize) {
                        let i = choose|i: int| 0 <= i < before.len() && before[i] == q as usize;
                        assert(r@[i] == q as usize);
                    }
                    if r@.contains(q as usize) {
                        let i = choose|i: int| 0 <= i < r@.len() && r@[i] == q as usize;
                        assert(i < before.len());
                    }
                }
                assert(r@[r@.len() - 1] == p);
            } else {
                assert(!r@.contains(p));
            }
            p = p + 1;
        }
        r
    }
}

/// The names to try as the zone of `domain`, in order: the whole name, then
/// what follows each dot, when that is not empty.
pub open spec fn zone_candidates_of(domain: Seq<char>) -> Seq<Seq<char>> {
    if domain.len() == 0 {
        Seq::empty()
    } else {
        seq![domain] + Seq::new(domain.len(), |k: int| k).filter_map(
            |k: int|
                if domain[k] == '.' && k + 1 < domain.len() {
                    Some(domain.skip(k + 1))
                } else {
                    None
                },
        )
    }
}

/// The names to try, in order, when looking for the zone that holds
/// `domain`: leftmost labels are stripped one at a time.
pub fn zone_candidates(domain: &str) -> (r: Vec<String>)
    ensures
        r.deep_view() == zone_candidates_of(domain@),
{
    let cs = chars_of(domain);
    let mut r: Vec<String> = Vec::new();
    if cs.len() == 0 {
        return r;
    }
    let ghost d = domain@;
    let ghost f = |k: int|
        if d[k] == '.' && k + 1 < d.len() {
            Some(d.skip(k + 1))
        } else {
            None
        };
    let ghost idx = Seq::new(d.len(), |k: int| k);
    r.push(string_from(cs.as_slice(), 0));
    assert(d.skip(0) == d);
    let mut k: usize = 0;
    while k < cs.len()
        invariant
            cs@ == d,
            k <= d.len(),
            idx == Seq::new(d.len(), |k: int| k),
            f == (|k: int|
                if d[k] == '.' && k + 1 < d.len() {
                    Some(d.skip(k + 1))
                } else {
                    None
                }),
            r.deep_view() == seq![d] + idx.take(k as int).filter_map(f),
        decreases d.len() - k,
    {
        assert(idx.take(k + 1).drop_last() == idx.take(k as int));
        assert(idx.take(k + 1).last() == k);
        let ghost before = r.deep_view();
        if cs[k] == '.' && k + 1 < cs.len() {
            r.push(string_from(cs.as_slice(), k + 1));
            assert(r.deep_view() =~= before.push(d.skip(k + 1)));
        }
        k = k + 1;
    }
    assert(idx.take(d.len() as int) == idx);
    r
}

/// Where the values of a managed record come from.
#[derive(Clone, Debug)]
pub enum RecordValueFrom {
    PodSelector(PodSelector),
}

/// A managed record, as the cluster's operators declare it: a fixed value
/// list, or a source of values.
#[derive(Clone, Debug)]
pub struct RecordSpec {
    pub fqdn: String,
    pub ttl: u32,
    pub type_: RecordType,
    pub value: Option<Vec<String>>,
    pub value_from: Option<RecordValueFrom>,
}

/// Where the program finds its configuration and the pods it watches.
#[derive(Clone, Debug)]
pub struct Opts {
    /// Name of the Secret that holds the configuration.
    pub secret: String,
    /// Key of that Secret under which the configuration is stored.
    pub secret_key: String,
    /// Namespace of that Secret.
    pub secret_namespace: String,
    /// Namespace of the pods that pod selectors pick from.
    pub pod_namespace: String,
}

impl Default for Opts {
    fn default() -> (r: Opts)
        ensures
            r.secret@ == seq!['a', 'r', 'e', 's', '-', 's', 'e', 'c', 'r', 'e', 't'],
            r.secret_key@ == seq!['a', 'r', 'e', 's', '.', 'y', 'a', 'm', 'l'],
            r.secret_namespace@ == seq!['d', 'e', 'f', 'a', 'u', 'l', 't'],
            r.pod_namespace@ == seq!['d', 'e', 'f', 'a', 'u', 'l', 't'],
    {
        proof {
            reveal_strlit("ares-secret");
            reveal_strlit("ares.yaml");
            reveal_strlit("default");
        }
        Opts {
            secret: "ares-secret".to_owned(),
            secret_key: "ares.yaml".to_owned(),
            secret_namespace: "default".to_owned(),
            pod_namespace: "default".to_owned(),
        }
    }
}

} // verus!
