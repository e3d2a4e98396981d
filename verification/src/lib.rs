//! A multi-index lock: one atomic bit per slot of a guarded value, so that
//! several holders can each own a disjoint set of slots at once.

pub mod compound;
pub mod key;
pub mod ledger;
pub mod lock;
pub mod mask;
pub mod meta;
pub mod multex;
pub mod w16;
pub mod w32;
pub mod w64;
pub mod w8;
pub mod word;
pub mod words;
pub mod wsize;

pub use key::At;
pub use key::Fold;
pub use key::Invalid;
pub use key::InvalidIndexError;
pub use key::Key;
pub use lock::Attempt;
pub use lock::Lock;
pub use lock::LockAll;
pub use lock::Release;
pub use mask::Mask;
pub use multex::Guard;
pub use multex::Multex;
pub use multex::Multex16;
pub use multex::Multex16N;
pub use multex::Multex32;
pub use multex::Multex32N;
pub use multex::Multex64;
pub use multex::Multex64N;
pub use multex::Multex8;
pub use multex::Multex8N;
pub use multex::MultexN;
pub use multex::Slots;
pub use word::Word;
