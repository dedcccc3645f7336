//! The validator: the pure admission predicate every peer runs over a
//! pending write before merging it into its local replica.
//!
//! Each rule is a side-effect-free function of the candidate write and of
//! already-admitted data it consults read-only. Offer creates, updates and
//! deletes are structurally accepted; an update-chain link is accepted
//! only when both of its ends are record actions; deleting an update-chain
//! link is always rejected, which makes the update chain a permanent,
//! append-only provenance trail. A candidate that references data the
//! replica cannot retrieve is a retrieval failure (`NotFound`), distinct
//! from a validation rejection.

use vstd::prelude::*;

use crate::data::{Action, Offer, StoreError, ValidateCallbackResult};
use crate::store::{is_action, is_record_action, Store};

verus! {

/// The reason given when an update-chain link's end is not a record
/// action.
pub open spec fn link_requires_entry_reason() -> Seq<char> {
    "Linked action must reference an entry"@
}

/// The reason given when a delete of an update-chain link is refused.
pub open spec fn update_chain_immutable_reason() -> Seq<char> {
    "OfferUpdates links cannot be deleted"@
}

/// Creates of offer entries are structurally accepted: this instance has
/// no domain constraint on a new offer.
pub fn validate_create_offer(_action: &Action, _offer: &Offer) -> (r: ValidateCallbackResult)
    ensures
        r == ValidateCallbackResult::Valid,
{
    ValidateCallbackResult::Valid
}

/// Updates of offer entries are accepted; authorship of the original is
/// deliberately not checked here.
pub fn validate_update_offer(
    _action: &Action,
    _offer: &Offer,
    _original_action: &Action,
    _original_offer: &Offer,
) -> (r: ValidateCallbackResult)
    ensures
        r == ValidateCallbackResult::Valid,
{
    ValidateCallbackResult::Valid
}

/// Deletes of offer entries are structurally accepted.
pub fn validate_delete_offer(
    _action: &Action,
    _original_action: &Action,
    _original_offer: &Offer,
) -> (r: ValidateCallbackResult)
    ensures
        r == ValidateCallbackResult::Valid,
{
    ValidateCallbackResult::Valid
}

/// An update-chain link is acceptable only between two record actions:
/// both ends must resolve to actions whose committed entry decodes as
/// offer content. An end that is not a retrievable action at all is a
/// retrieval failure, not a rejection; a tombstoned record action still
/// counts as a valid end (the chain stays auditable).
pub fn validate_create_link_offer_updates(
    store: &Store,
    base_address: usize,
    target_address: usize,
) -> (r: Result<ValidateCallbackResult, StoreError>)
    ensures
        match r {
            Ok(v) => match v {
                ValidateCallbackResult::Valid => is_record_action(store@, base_address)
                    && is_record_action(store@, target_address),
                ValidateCallbackResult::Invalid(m) => m@ == link_requires_entry_reason() && {
                    ||| (is_action(store@, base_address) && !is_record_action(
                        store@,
                        base_address,
                    ))
                    ||| (is_record_action(store@, base_address) && is_action(
                        store@,
                        target_address,
                    ) && !is_record_action(store@, target_address))
                },
            },
            Err(e) => match e {
                StoreError::NotFound => !is_action(store@, base_address) || (is_record_action(
                    store@,
                    base_address,
                ) && !is_action(store@, target_address)),
                StoreError::ValidationRejected(m) => false,
            },
        },
{
    if !store.is_action_at(base_address) {
        return Err(StoreError::NotFound);
    }
    if !store.is_record_action_at(base_address) {
        return Ok(
            ValidateCallbackResult::Invalid(String::from_str("Linked action must reference an entry")),
        );
    }
    if !store.is_action_at(target_address) {
        return Err(StoreError::NotFound);
    }
    if !store.is_record_action_at(target_address) {
        return Ok(
            ValidateCallbackResult::Invalid(String::from_str("Linked action must reference an entry")),
        );
    }
    Ok(ValidateCallbackResult::Valid)
}

/// Deleting an update-chain link is always rejected, whoever authored the
/// original create-link: the update chain is append-only by policy.
pub fn validate_delete_link_offer_updates(
    _base_address: usize,
    _target_address: usize,
) -> (r: ValidateCallbackResult)
    ensures
        r matches ValidateCallbackResult::Invalid(m) && m@ == update_chain_immutable_reason(),
{
    ValidateCallbackResult::Invalid(String::from_str("OfferUpdates links cannot be deleted"))
}

} // verus!
