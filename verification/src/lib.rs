//! An in-memory catalog of change-ringing methods, supporting exact lookup by
//! title and, when that fails, ranked fuzzy-match suggestions.

pub mod codec;
pub mod distance;
pub mod method;
pub mod method_lib;
pub mod ranker;
pub mod pn;
pub mod query;
pub mod stage;
pub mod text;

pub use codec::{decode, encode};
pub use method::{Classification, CompactMethod, Method};
pub use method_lib::{LibraryEntry, MethodLib};
pub use pn::{PnBlock, PnBlockParseError, PnSymbol};
pub use query::QueryResult;
pub use stage::Stage;
