//! The value types and the request messages of the protocol.

pub mod discard;
pub mod extra;
pub mod pull;
pub mod request;
pub mod summary;
pub mod response;
pub mod structs;

pub use self::discard::Discard;
pub use self::extra::Extra;
pub use self::pull::Pull;
