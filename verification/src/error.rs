//! The ways in which reading a schema or a sample can fail.

use vstd::prelude::*;

verus! {

/// Why a text is not a JSON document.
#[derive(Debug, Clone, Copy, PartialEq, Eq, Structural)]
pub enum FaultKind {
    /// Bytes could not be read.
    Io,
    /// The text is not valid JSON.
    Syntax,
    /// The text is valid JSON of the wrong shape.
    Data,
    /// The text ended inside a value.
    Eof,
}

/// Where and why the JSON parser gave up. Lines and columns count from one.
#[derive(Debug, Clone, Copy, PartialEq, Eq, Structural)]
pub struct ParseFault {
    pub kind: FaultKind,
    pub line: usize,
    pub column: usize,
}

/// What is wrong with a well-formed JSON document that should hold a schema.
#[derive(Debug, Clone, Copy, PartialEq, Eq, Structural)]
pub enum ShapeFault {
    /// The document, or a field in it, is not an object.
    NotAnObject,
    /// A required key is missing.
    MissingKey,
    /// The field list is not an array.
    FieldsNotAList,
    /// A field's name is not a string, or is empty.
    BadName,
    /// A field's nullability is not a boolean.
    BadNullable,
    /// A type is neither a string nor an object with exactly one member.
    BadType,
    /// Two fields of one list share a name.
    DuplicateField,
    /// The metadata is not an object.
    BadMetadata,
    /// A metadata value is not a string.
    MetadataValueNotAString,
}

/// An error of this library. No schema comes with an error.
#[derive(Debug, Clone, Copy, PartialEq, Eq, Structural)]
pub enum SchemaError {
    /// The input is not well-formed JSON.
    JsonSyntax(ParseFault),
    /// The input is well-formed JSON but not a schema document.
    SchemaShape(ShapeFault),
    /// A type tag in a schema document names no logical type.
    UnknownTypeTag,
    /// A sample is not a JSON object.
    NotAnObject,
    /// The schema has no field of the name asked for.
    NoSuchField,
    /// The JSON writer failed.
    Encode,
}

/// A coarse classification of errors, for callers that report them as
/// input/output failures.
#[derive(Debug, Clone, Copy, PartialEq, Eq, Structural)]
pub enum ErrorKind {
    UnexpectedEof,
    InvalidData,
    Other,
}

/// An outcome with its value taken by its view.
pub open spec fn outcome_view<T: View>(r: Result<T, SchemaError>) -> Result<T::V, SchemaError> {
    match r {
        Ok(v) => Ok(v@),
        Err(e) => Err(e),
    }
}

impl SchemaError {
    /// The class of this error: truncated input, bad input, or anything else.
    pub open spec fn spec_kind(&self) -> ErrorKind {
        match *self {
            SchemaError::JsonSyntax(fault) => if fault.kind == FaultKind::Eof {
                ErrorKind::UnexpectedEof
            } else if fault.kind == FaultKind::Io {
                ErrorKind::Other
            } else {
                ErrorKind::InvalidData
            },
            SchemaError::SchemaShape(_) => ErrorKind::InvalidData,
            SchemaError::UnknownTypeTag => ErrorKind::InvalidData,
            _ => ErrorKind::Other,
        }
    }

    /// A sentence that says what went wrong.
    pub open spec fn spec_message(&self) -> Seq<char> {
        match *self {
            SchemaError::JsonSyntax(fault) => match fault.kind {
                FaultKind::Eof => "the JSON text ends inside a value"@,
                FaultKind::Io => "the JSON text could not be read"@,
                _ => "the text is not valid JSON"@,
            },
            SchemaError::SchemaShape(fault) => match fault {
                ShapeFault::NotAnObject => "a schema or a field is not a JSON object"@,
                ShapeFault::MissingKey => "a required key is missing"@,
                ShapeFault::FieldsNotAList => "the fields are not a JSON array"@,
                ShapeFault::BadName => "a field's name is not a non-empty string"@,
                ShapeFault::BadNullable => "a field's nullability is not a boolean"@,
                ShapeFault::BadType => "a type is neither a name nor a tagged object"@,
                ShapeFault::DuplicateField => "two fields share a name"@,
                ShapeFault::BadMetadata => "the metadata are not a JSON object with distinct keys"@,
                ShapeFault::MetadataValueNotAString => "a metadata value is not a string"@,
            },
            SchemaError::UnknownTypeTag => "a type tag names no logical type"@,
            SchemaError::NotAnObject => "a sample is not a JSON object"@,
            SchemaError::NoSuchField => "the schema has no field of that name"@,
            SchemaError::Encode => "the schema could not be written as JSON"@,
        }
    }

    /// A sentence that says what went wrong.
    pub fn message(&self) -> (r: String)
        ensures
            r@ == self.spec_message(),
    {
        let text = match self {
            SchemaError::JsonSyntax(fault) => match fault.kind {
                FaultKind::Eof => "the JSON text ends inside a value",
                FaultKind::Io => "the JSON text could not be read",
                _ => "the text is not valid JSON",
            },
            SchemaError::SchemaShape(fault) => match fault {
                ShapeFault::NotAnObject => "a schema or a field is not a JSON object",
                ShapeFault::MissingKey => "a required key is missing",
                ShapeFault::FieldsNotAList => "the fields are not a JSON array",
                ShapeFault::BadName => "a field's name is not a non-empty string",
                ShapeFault::BadNullable => "a field's nullability is not a boolean",
                ShapeFault::BadType => "a type is neither a name nor a tagged object",
                ShapeFault::DuplicateField => "two fields share a name",
                ShapeFault::BadMetadata => "the metadata are not a JSON object with distinct keys",
                ShapeFault::MetadataValueNotAString => "a metadata value is not a string",
            },
            SchemaError::UnknownTypeTag => "a type tag names no logical type",
            SchemaError::NotAnObject => "a sample is not a JSON object",
            SchemaError::NoSuchField => "the schema has no field of that name",
            SchemaError::Encode => "the schema could not be written as JSON",
        };
        text.to_owned()
    }

    /// The class of this error.
    #[verifier::when_used_as_spec(spec_kind)]
    pub fn kind(&self) -> (k: ErrorKind)
        ensures
            k == self.spec_kind(),
    {
        match self {
            SchemaError::JsonSyntax(fault) => match fault.kind {
                FaultKind::Eof => ErrorKind::UnexpectedEof,
                FaultKind::Io => ErrorKind::Other,
                _ => ErrorKind::InvalidData,
            },
            SchemaError::SchemaShape(_) => ErrorKind::InvalidData,
            SchemaError::UnknownTypeTag => ErrorKind::InvalidData,
            _ => ErrorKind::Other,
        }
    }
}

} // verus!
