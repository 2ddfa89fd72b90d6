//! Reconciliation core of a controller that keeps DNS records in step with
//! cluster state.
//!
//! - [`selector`]: label and set-based expression matching.
//! - [`pods`]: the values a pod selector yields (node external addresses).
//! - [`record`]: records and the builder that completes them.
//! - [`ownership`]: tracking records, and the provider calls that add,
//!   delete and reconcile owned records.
//! - [`zone_model`]: a model of a provider zone and what running the plans
//!   in it guarantees.
//! - [`diff`]: changes between sorted value sets.
//! - [`watch`]: decisions on watch events.
//! - [`config`]: configuration entries, zone lookup candidates, options.
//! - [`xpath`]: paths into nested documents.
//! - [`text`]: character-level string helpers.

pub mod config;
pub mod diff;
pub mod ownership;
pub mod pods;
pub mod record;
pub mod selector;
pub mod text;
pub mod watch;
pub mod xpath;
pub mod zone_model;

pub use config::{
    zone_candidates, AresConfig, CloudFlareConfig, Opts, ProviderConfig, RecordSpec,
    RecordValueFrom,
};
pub use diff::{change_op, diff_sorted, sort_unique, RecordChange, ValueTracker};
pub use ownership::{
    plan_add, plan_delete, plan_sync, tracking_name, OwnedOp, OwnershipError, RawOp,
};
pub use pods::{external_addresses, NodeAddress, PodInfo, PodSelector, ValueError};
pub use record::{BuildError, Record, RecordBuilder, RecordType};
pub use selector::{lookup_label, matches_all, Expression, ExpressionOperator, Labels};
pub use watch::{
    pod_event_action, record_event_action, ObjectIdentity, PodAction, RecordAction,
    WatchEventKind,
};
pub use xpath::{xpath_steps, PathStep};
