use vstd::prelude::*;

verus! {

#[verifier::external_type_specification]
#[verifier::external_body]
pub struct ExUtf8Error(std::str::Utf8Error);

#[verifier::external_type_specification]
#[verifier::external_body]
pub struct ExParseBoolError(std::str::ParseBoolError);

#[verifier::external_type_specification]
#[verifier::external_body]
pub struct ExParseIntError(std::num::ParseIntError);

#[verifier::external_type_specification]
#[verifier::external_body]
pub struct ExParseFloatError(std::num::ParseFloatError);

/// Errors that occur while reading a record.
#[derive(Debug)]
pub enum DeserializeError {
    /// A message raised by the reader or by the destination type.
    Message(String),
    /// The destination shape is not supported by this format.
    Unsupported(String),
    /// A field lies beyond the end of the record, no field is left where one
    /// was expected, or a group stands where a single field was expected.
    UnexpectedEndOfRecord,
    /// The bytes of a field are not valid UTF-8.
    InvalidUtf8(std::str::Utf8Error),
    /// A boolean value could not be parsed for this field.
    ParseBoolError(std::str::ParseBoolError),
    /// An integer value could not be parsed for this field.
    ParseIntError(std::num::ParseIntError),
    /// A float value could not be parsed for this field.
    ParseFloatError(std::num::ParseFloatError),
    /// The destination asks the format to describe itself, which it cannot.
    WontImplement,
}

/// Errors that occur while writing a record.
#[derive(Debug)]
pub enum SerializeError {
    /// A message raised by the writer or by the source value.
    Message(String),
    /// The source shape is not supported by this format.
    Unsupported(String),
    /// More values were written than the field definitions provide fields for.
    UnexpectedEndOfRecord,
}

} // verus!
