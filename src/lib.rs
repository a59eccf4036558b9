//! A fitness tracker backed by durable storage: users, logged activities,
//! challenges and follows, each in a typed record store, all numbered by one
//! shared identifier generator.
pub mod codec;
pub mod derived;
pub mod record;
pub mod stable;
pub mod store;
pub mod tracker;
