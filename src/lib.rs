//! A packed associative container: elements live densely in one buffer and are
//! reached through stable identifiers handed out on insertion.
mod colony;
mod index;

pub use colony::{
    lemma_density, lemma_no_aliasing, lemma_remove_idempotent, lemma_remove_keeps_others,
    lemma_round_trip, Colony,
};
pub use index::{lemma_live_count, lemma_slots_distinct, ColonyIndex, TOMBSTONE};
