//! Record-management core of a peer-replicated, content-addressed data store.
//!
//! A mutable logical record (an `Offer`) is represented as a chain of
//! immutable, hash-addressed entries and actions held in a local replica
//! (`Store`). Records are discovered through path-based index links hung
//! from deterministically addressed anchors, the current version of a
//! record is found by the update-link resolver, and every pending write is
//! admitted or rejected by a pure validator that each peer runs
//! independently.

pub mod data;
pub mod laws;
pub mod links;
pub mod offer;
pub mod resolve;
pub mod store;
pub mod validate;

pub use data::{Action, ActionData, EntryData, LinkType, Obj, Offer, Record, StoreError,
    ValidateCallbackResult};
pub use links::Link;
pub use offer::{GetOffersForPairInput, UpdateOfferInput};
pub use store::Store;
pub use validate::{validate_create_link_offer_updates, validate_create_offer,
    validate_delete_link_offer_updates, validate_delete_offer, validate_update_offer};
