//! A verified core for a daily digest mailing service: strategy-driven
//! selection of candidate posts, a subscription lifecycle with
//! enumeration-resistant verification, delivery-event reconciliation,
//! and a document-style storage model with a recursive value codec.

pub mod api;
pub mod bounce;
pub mod builder;
pub mod date;
pub mod digest;
pub mod email;
pub mod lifecycle;
pub mod num;
pub mod posts;
pub mod records;
pub mod store;
pub mod strategies;
pub mod text;
pub mod types;
pub mod value;
