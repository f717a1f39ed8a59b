//! The error values the persistence and import surface return.

use vstd::prelude::*;

verus! {

/// The sheet document's fields, for naming them in decode errors.
#[derive(Clone, Copy, PartialEq, Eq, Structural, Debug)]
pub enum FieldId {
    Strokes,
    StrokesTrash,
    SelectionField,
    FormatField,
    BackgroundField,
    X,
    Y,
    Width,
    Height,
    AutoexpandHeight,
    FormatBorders,
    PaddingBottom,
}

#[derive(Clone, Copy, PartialEq, Eq, Structural, Debug)]
pub enum DecodeReason {
    /// The document ends before the value does.
    Truncated,
    /// A digit was expected.
    BadDigit,
    /// A number does not fit its type.
    Overflow,
    /// An unknown variant or sign tag.
    BadTag,
    /// A value violates the model's ranges or consistency.
    OutOfRange,
    /// A mandatory field is absent.
    MissingField,
    /// A field appears twice.
    DuplicateField,
    /// A key that is no field of the document.
    UnknownField,
    /// A brush stroke's template id is not in the registry.
    UnknownTemplate,
    /// Bytes left over after the document.
    TrailingData,
    /// The parsed value does not re-encode to the bytes read.
    Malformed,
}

/// A malformed document, with the field it was detected at when one is
/// known.
#[derive(Clone, Copy, PartialEq, Eq, Structural, Debug)]
pub struct DecodeError {
    pub field: Option<FieldId>,
    pub reason: DecodeReason,
}

impl DecodeError {
    pub fn new(field: Option<FieldId>, reason: DecodeReason) -> (r: DecodeError)
        ensures
            r == (DecodeError { field, reason }),
    {
        DecodeError { field, reason }
    }
}

/// An import that cannot produce an image stroke.
#[derive(Clone, Copy, PartialEq, Eq, Structural, Debug)]
pub enum ImportError {
    /// The intrinsic size is not positive or leaves the coordinate range.
    Geometry,
}

/// An export that cannot produce a document.
#[derive(Clone, Copy, PartialEq, Eq, Structural, Debug)]
pub enum ExportError {
    /// The target's file type does not take the native format.
    InvalidFileType,
}

} // verus!
