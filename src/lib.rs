//! Typed values of the XML-RPC wire format and their codec.
pub mod de;
pub mod encodings;
pub mod event;
pub mod round_trip;
pub mod ser;
pub mod text;
pub mod value;
pub use de::{deserialize, DeError, ParseError};
pub use event::XmlEvent;
pub use ser::serialize;
pub use value::Value;
