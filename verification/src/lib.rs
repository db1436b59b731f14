//! A value-interning pool with reference-counted eviction.
//!
//! Interning keeps a single canonical copy of each distinct value and hands
//! out lightweight handles to it.  Comparing two handles is an identity
//! check rather than a structural comparison, and a canonical value is
//! evicted from the pool the moment the last client handle for it is
//! released.
//!
//! The pool itself is a value: callers create an [`store::Interner`] per
//! element type and thread it through intern, clone and release calls.  Its
//! behaviour is specified against a ghost model (a sequence of entries, each
//! carrying the canonical value, a never-reused identity and the count of
//! outstanding client handles), and every operation is verified against that
//! model.  A process-wide, concurrent front end that multiplexes many
//! element types through one facility needs `static` state, type erasure and
//! pointer identity, which the verifier does not accept; such a front end
//! belongs outside the verified core and routes its per-value decisions
//! through [`store::eviction_due`] and [`store::client_refcount`].

pub mod model;
pub mod store;
pub mod laws;

pub use model::{Entry, PoolModel};
pub use store::{ArcIntern, Interner, client_refcount, eviction_due};
