//! Verified decision logic for a set of small network services: a primality
//! service, a price-history service, a chat room, a key-value store and a
//! rewriting chat proxy. The network plumbing lives outside this crate; the
//! functions here decide what each service answers.

pub mod prime;
pub mod text;
pub mod pattern;
pub mod chat;
pub mod prices;
pub mod kv;
pub mod proxy;
