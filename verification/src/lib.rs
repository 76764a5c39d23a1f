//! Social wishlist core: friend relationships, shared gift categories with
//! per-member ordering, a secret-gift partition, and a reservation ledger.

mod clock;
pub(crate) mod collect;
pub mod digits;
pub mod friends;
pub mod laws;
pub mod notifications;
pub mod order;
pub mod service;
pub mod sessions;
pub mod users;
pub mod wishlist;
