//! A heterogeneous bag: a container that holds values of arbitrarily many
//! distinct types at once, with duplicates, keyed by an opaque runtime type
//! identifier. Values are stored type-erased as owned byte payloads tagged
//! with their [`TypeKey`]; per-type lookup, counting, membership testing and
//! iteration are all verified against a sequence-of-buckets model.

pub mod erased;
pub mod key;
pub mod laws;
pub mod purse;

pub use erased::ErasedValue;
pub use key::TypeKey;
pub use key::TypeRegistry;
pub use purse::Purse;
