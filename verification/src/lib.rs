//! A converter between the nodes of a YAML document and the values of a
//! dynamic host that has one container for lists and maps alike.
//!
//! [`decode::yaml_to_value`] turns a document node into a value, and
//! [`encode::value_to_yaml`] turns a value into a node, deciding for each
//! container whether it is a sequence or a mapping. [`decode::decode_yaml`]
//! and [`encode::encode_yaml`] do the same from and to text.
//! [`merge::merge_keys`] brings a mapping down to one pair for each key
//! before it is written.

pub mod decimal;
pub mod decode;
pub mod document;
pub mod encode;
pub mod format;
pub mod laws;
pub mod merge;
pub mod number;
pub mod value;

pub use decode::{decode_yaml, yaml_to_value, DecodeError};
pub use document::Node;
pub use encode::{encode_yaml, value_to_yaml, EncodeError};
pub use number::Number;
pub use value::{List, Value};
