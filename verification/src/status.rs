//! The state the form shows: the last status line and the chosen dimension.
use vstd::prelude::*;

use crate::model::Dimension;

verus! {

/// Whether a status line reports success or an error.
#[derive(Debug, Clone, Copy, PartialEq, Eq, Structural)]
pub enum StatusKind {
    Success,
    Error,
}

/// A status line of the form.
#[derive(Debug, Clone)]
pub struct StatusMessage {
    pub kind: StatusKind,
    pub text: String,
}

impl StatusMessage {
    /// A status line reporting success.
    pub fn success(text: String) -> (m: Self)
        ensures
            m.kind == StatusKind::Success,
            m.text@ == text@,
    {
        StatusMessage { kind: StatusKind::Success, text }
    }

    /// A status line reporting an error.
    pub fn error(text: String) -> (m: Self)
        ensures
            m.kind == StatusKind::Error,
            m.text@ == text@,
    {
        StatusMessage { kind: StatusKind::Error, text }
    }
}

/// The dimension chosen in the form; the Nether unless another is picked.
#[derive(Debug, Clone, Copy, PartialEq, Eq, Structural)]
pub enum DimensionOption {
    Overworld,
    Nether,
    End,
}

impl Default for DimensionOption {
    fn default() -> (d: Self)
        ensures
            d == DimensionOption::Nether,
    {
        DimensionOption::Nether
    }
}

impl DimensionOption {
    /// The dimension the option stands for.
    pub fn to_dimension(self) -> (d: Dimension)
        ensures
            self == DimensionOption::Overworld ==> d == Dimension::Overworld,
            self == DimensionOption::Nether ==> d == Dimension::Nether,
            self == DimensionOption::End ==> d == Dimension::End,
    {
        match self {
            DimensionOption::Overworld => Dimension::Overworld,
            DimensionOption::Nether => Dimension::Nether,
            DimensionOption::End => Dimension::End,
        }
    }
}

} // verus!
