//! The ways in which generation and validation fail.

use vstd::prelude::*;

verus! {

/// Why no code was generated for a schema.
#[derive(Clone, Copy, Debug, PartialEq, Eq, Structural)]
pub enum GenerationError {
    /// A method, signal or property names an alias or enum that the schema
    /// does not define.
    UnresolvedTypeReference,
    /// The aliases refer to each other in a circle.
    CyclicTypeDependency,
    /// The type of a method, signal or property has a shape that cannot be
    /// rendered.
    MalformedSignature,
}

/// Why generated code does not stand for the schema it is held against.
#[derive(Clone, Copy, Debug, PartialEq, Eq, Structural)]
pub enum ValidationError {
    /// The fingerprint recorded in the generated code is not the schema's.
    HashMismatch,
    /// The generated code records no fingerprint.
    MissingHashMarker,
}

/// The words for each way in which generation fails.
pub open spec fn generation_message(e: GenerationError) -> Seq<char> {
    match e {
        GenerationError::UnresolvedTypeReference => "a type is referred to but not defined"@,
        GenerationError::CyclicTypeDependency => "types refer to each other in a circle"@,
        GenerationError::MalformedSignature => "a type has a shape that cannot be rendered"@,
    }
}

/// The words for each way in which validation fails.
pub open spec fn validation_message(e: ValidationError) -> Seq<char> {
    match e {
        ValidationError::HashMismatch =>
            "the generated code does not stand for the schemas: generate it again"@,
        ValidationError::MissingHashMarker => "the generated code records no hash"@,
    }
}

impl GenerationError {
    /// What went wrong, in words.
    pub fn message(self) -> (out: &'static str)
        ensures
            out@ == generation_message(self),
    {
        match self {
            GenerationError::UnresolvedTypeReference => "a type is referred to but not defined",
            GenerationError::CyclicTypeDependency => "types refer to each other in a circle",
            GenerationError::MalformedSignature => "a type has a shape that cannot be rendered",
        }
    }
}

impl ValidationError {
    /// What went wrong, in words.
    pub fn message(self) -> (out: &'static str)
        ensures
            out@ == validation_message(self),
    {
        match self {
            ValidationError::HashMismatch =>
                "the generated code does not stand for the schemas: generate it again",
            ValidationError::MissingHashMarker => "the generated code records no hash",
        }
    }
}

} // verus!
