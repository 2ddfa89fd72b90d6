//! DNS records as they exist on a provider, and the builder that fills them
//! in one field at a time.

use vstd::prelude::*;

verus! {

/// The type of a DNS record.
#[derive(Clone, Copy, Debug, PartialEq, Eq, Structural)]
pub enum RecordType {
    A,
    AAAA,
    ALIAS,
    CNAME,
    MX,
    NS,
    PTR,
    SOA,
    SRV,
    TXT,
    DNSKEY,
    DS,
    NSEC,
    NSEC3,
    NSEC3PARAM,
    RRSIG,
}

/// A concrete record on a provider.
#[derive(Debug)]
pub struct Record {
    pub fqdn: String,
    pub zone: String,
    pub record_type: RecordType,
    pub ttl: u64,
    pub value: String,
}

/// A record whose time-to-live and value may still be unset.
#[derive(Clone, Debug)]
pub struct RecordBuilder {
    pub fqdn: String,
    pub zone: String,
    pub record_type: RecordType,
    pub ttl: Option<u64>,
    pub value: Option<String>,
}

/// What a record holds, with its strings as character sequences.
pub struct RecordView {
    pub fqdn: Seq<char>,
    pub zone: Seq<char>,
    pub record_type: RecordType,
    pub ttl: u64,
    pub value: Seq<char>,
}

/// What a builder holds, with its strings as character sequences.
pub struct RecordBuilderView {
    pub fqdn: Seq<char>,
    pub zone: Seq<char>,
    pub record_type: RecordType,
    pub ttl: Option<u64>,
    pub value: Option<Seq<char>>,
}

impl View for Record {
    type V = RecordView;

    open spec fn view(&self) -> RecordView {
        RecordView {
            fqdn: self.fqdn@,
            zone: self.zone@,
            record_type: self.record_type,
            ttl: self.ttl,
            value: self.value@,
        }
    }
}

impl View for RecordBuilder {
    type V = RecordBuilderView;

    open spec fn view(&self) -> RecordBuilderView {
        RecordBuilderView {
            fqdn: self.fqdn@,
            zone: self.zone@,
            record_type: self.record_type,
            ttl: self.ttl,
            value: match self.value {
                Some(v) => Some(v@),
                None => None,
            },
        }
    }
}

/// Why a builder could not produce a record.
#[derive(Clone, Copy, Debug, PartialEq, Eq, Structural)]
pub enum BuildError {
    MissingTtl,
    MissingValue,
}

/// The record that a builder yields once its value is `value` and its
/// time-to-live is `ttl`.
pub open spec fn built_record(b: RecordBuilderView, value: Seq<char>, ttl: u64) -> RecordView {
    RecordView { fqdn: b.fqdn, zone: b.zone, record_type: b.record_type, ttl, value }
}

impl Record {
    pub fn new(zone: String, fqdn: String, ttl: u64, record_type: RecordType, value: String) -> (r:
        Record)
        ensures
            r@ == (RecordView { fqdn: fqdn@, zone: zone@, record_type, ttl, value: value@ }),
    {
        Record { fqdn, zone, ttl, record_type, value }
    }

    pub fn builder(fqdn: String, zone: String, record_type: RecordType) -> (r: RecordBuilder)
        ensures
            r@ == (RecordBuilderView {
                fqdn: fqdn@,
                zone: zone@,
                record_type,
                ttl: None,
                value: None,
            }),
    {
        RecordBuilder { fqdn, zone, record_type, ttl: None, value: None }
    }

    /// A second record equal to this one.
    pub fn duplicate(&self) -> (r: Record)
        ensures
            r@ == self@,
    {
        Record {
            fqdn: self.fqdn.clone(),
            zone: self.zone.clone(),
            record_type: self.record_type,
            ttl: self.ttl,
            value: self.value.clone(),
        }
    }
}

impl RecordBuilder {
    /// The same builder with its value set to `value`.
    pub fn value(self, value: String) -> (r: Self)
        ensures
            r@ == (RecordBuilderView { value: Some(value@), ..self@ }),
    {
        RecordBuilder { value: Some(value), ..self }
    }

    /// The same builder with its time-to-live set to `ttl`.
    pub fn ttl(self, ttl: u64) -> (r: Self)
        ensures
            r@ == (RecordBuilderView { ttl: Some(ttl), ..self@ }),
    {
        RecordBuilder { ttl: Some(ttl), ..self }
    }

    /// The record, once both time-to-live and value are set; the time-to-live
    /// is checked first.
    pub fn try_build(self) -> (r: Result<Record, BuildError>)
        ensures
            self@.ttl is None ==> r == Err::<Record, BuildError>(BuildError::MissingTtl),
            self@.ttl is Some && self@.value is None ==> r == Err::<Record, BuildError>(
                BuildError::MissingValue,
            ),
            self@.ttl is Some && self@.value is Some ==> r is Ok && r->Ok_0@ == built_record(
                self@,
                self@.value->0,
                self@.ttl->0,
            ),
    {
        let ttl = match self.ttl {
            Some(t) => t,
            None => return Err(BuildError::MissingTtl),
        };
        let value = match self.value {
            Some(v) => v,
            None => return Err(BuildError::MissingValue),
        };
        Ok(Record::new(self.zone, self.fqdn, ttl, self.record_type, value))
    }

    /// The record that this builder yields with value `value` and
    /// time-to-live `ttl`; the builder itself is left as it is.
    pub fn build_with(&self, value: &String, ttl: u64) -> (r: Record)
        ensures
            r@ == built_record(self@, value@, ttl),
    {
        Record::new(self.zone.clone(), self.fqdn.clone(), ttl, self.record_type, value.clone())
    }
}

} // verus!
