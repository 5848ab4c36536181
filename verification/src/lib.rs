//! A fixed-capacity associative container mapping string keys to values of a
//! single generic type, backed by open addressing with no collision
//! resolution: every key is routed to exactly one slot by hashing, a `set`
//! whose target slot holds a different key is rejected, and `delete` clears
//! the target slot unconditionally.

mod laws;
mod table;

pub use laws::lemma_collision_rejection;
pub use laws::lemma_delete_clears_slot;
pub use laws::lemma_overwrite_keeps_load;
pub use laws::lemma_round_trip;
pub use table::MapItem;
pub use table::StringMap;
pub use table::accepts;
pub use table::after_delete;
pub use table::after_set;
pub use table::lookup;
pub use table::occupied_count;
pub use table::slot_of;
