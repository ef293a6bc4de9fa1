//! The error taxonomy of a generation run.

use vstd::prelude::*;

verus! {

/// One failure kind per distinct way a generation run can go wrong.  Every
/// component-level failure is returned to the caller immediately; the
/// assembler never recovers partially.
#[derive(Clone, Copy, Debug, PartialEq, Eq, Structural)]
pub enum GenError {
    /// The input dataset holds no data rows.
    InputEmpty,
    /// No usable column-to-cell mapping is left after dropping entries whose
    /// destination text is not a valid cell address.
    NoMappings,
    /// The template bytes are not a readable archive.
    ContainerOpenFailed,
    /// The output archive could not be produced.
    ContainerWriteFailed,
    /// The content-type list, the workbook definition or the relationship
    /// table is missing or unparsable.
    TemplateStructureInvalid,
    /// No sheet of the template carries the requested display name.
    SheetNotFound,
    /// The workbook relationship table holds no worksheet entry with the
    /// relationship id that the sheet table names.
    RelationshipMissing,
    /// The part that the template sheet's relationship targets is absent.
    PartMissing,
    /// The template sheet's XML event stream cannot be parsed.
    MalformedXml,
}

} // verus!
