//! A concurrent, bidirectional translation table for Network Address
//! Translation (NAT) state: it tracks the bijective mapping between a flow's
//! internal identity (as seen on the private side of the translator) and its
//! external identity (as seen on the public side).
//!
//! The sequential core is [`table::FlowTable`], a bijection between
//! [`flow::FlowIdentifier`] values backed by `bimap::BiHashMap`; the
//! concurrent wrapper is [`concurrent::NatTable`], which guards a
//! `FlowTable` with a verified reader-writer lock so that no reader ever
//! observes a partially updated mapping.

pub mod bindings;
pub mod concurrent;
pub mod flow;
pub mod model;
pub mod table;
