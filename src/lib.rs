//! A codec for fixed-width records: each field of a value lives in a byte
//! range of the record, with no delimiters. A tree of field definitions
//! (`FieldSet`) drives a reader (`Deserializer`) and a writer (`Serializer`).

use vstd::prelude::*;

pub mod attrs;
pub mod de;
pub mod error;
pub mod field;
pub mod ser;
pub mod text;

pub use attrs::{field_from_attributes, AttributeError};
pub use de::{Deserializer, Element};
pub use error::{DeserializeError, SerializeError};
pub use field::{FieldConfig, FieldSet, Justify};
pub use ser::{Serializer, Slot};

verus! {

} // verus!
