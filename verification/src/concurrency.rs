//! Engine variants sharing the production engine's observable contract: a
//! streaming `submit` and a client-sorted account snapshot.
pub mod actor_crossbeam;
pub mod actor_std;
pub mod baseline;
pub mod dashmap_engine;
pub mod mutex;
pub mod workload;
