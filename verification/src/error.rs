//! Why an extraction stops.

use vstd::prelude::*;

verus! {

/// The layout assumption that a document failed to meet.
#[derive(Clone, Copy, Debug, PartialEq, Eq, Hash, Structural)]
pub enum Mismatch {
    /// A font-select operator has no operand.
    MissingFontOperand,
    /// The first operand of a font-select operator is not a name.
    FontOperandNotName,
    /// The document has no page.
    NoPages,
    /// A page before the last lacks the footer banner where it is expected.
    FooterNotFound,
    /// The plan label is missing.
    PlanMarkerNotFound,
    /// The program label is missing.
    ProgramMarkerNotFound,
    /// The end-of-record label is missing.
    EndMarkerNotFound,
    /// The element that should hold the student identifier is not a leaf.
    BadStudentId,
    /// The element after the plan label does not hold a plan name.
    BadPlan,
    /// The transfer label stands after the program label.
    TransferAfterProgram,
    /// The transfer section holds no row.
    NoTransferRows,
    /// A row has fewer columns than the layout needs.
    RowTooShort,
    /// The grade column holds a token outside the grade vocabulary.
    UnknownGrade,
}

/// An extraction failure. Every failure is fatal for its document.
#[derive(Clone, Copy, Debug, PartialEq, Eq, Hash, Structural)]
pub enum ExtractError {
    /// A positional or marker assumption about the layout failed.
    StructuralMismatch(Mismatch),
    /// The document has no transfer section.
    OptionalSectionAbsent,
}

} // verus!
