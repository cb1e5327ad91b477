//! An owner-authenticated blog record store.
//!
//! Each record lives at an address derived from its owner's key and its
//! title, is stored in an exactly sized byte layout, and holds a deposit that
//! covers its storage and is returned when the record is deleted.

pub mod layout;
pub mod address;
pub mod deposit;
pub mod store;
pub mod laws;
