//! Watches mailboxes for new unseen mail: the per-account watch and reconnect
//! decisions, the notification payload built from message headers, and the
//! aggregation of per-account unseen counts into one status.

pub mod account;
pub mod aggregate;
pub mod notice;
pub mod supervisor;
pub mod text;
pub mod watch;
