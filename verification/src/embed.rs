//! Embedding policies, faces, and orbit policies.

use crate::ids::VertexIdType;
use vstd::prelude::*;

verus! {

/// Geometrical policy of a sewing operation.
///
/// A sew involves two darts, `lhs_dart` and `rhs_dart`.
#[derive(Debug, Clone, Copy, PartialEq, Eq, Structural)]
pub enum SewPolicy {
    /// Default: `lhs_dart` embedded data overwrites `rhs_dart` embedded data.
    StretchLeft,
    /// `rhs_dart` embedded data overwrites `lhs_dart` embedded data.
    StretchRight,
    /// Both embedded data are averaged and overwrite both positions.
    StretchAverage,
}

impl Default for SewPolicy {
    fn default() -> (r: Self)
        ensures
            r == SewPolicy::StretchLeft,
    {
        SewPolicy::StretchLeft
    }
}

/// Geometrical policy of an unsewing operation.
#[derive(Debug, Clone, Copy, PartialEq, Eq, Structural)]
pub enum UnsewPolicy {
    /// Default: the vertex associated with the unsewed darts is duplicated.
    Duplicate,
    /// No geometrical update.
    DoNothing,
}

impl Default for UnsewPolicy {
    fn default() -> (r: Self)
        ensures
            r == UnsewPolicy::Duplicate,
    {
        UnsewPolicy::Duplicate
    }
}

/// A face: an ordered list of corners, and whether the last corner connects to the first.
#[derive(Debug, Clone)]
pub struct Face {
    /// Ordered list of all corners composing the face.
    pub corners: Vec<VertexIdType>,
    /// Whether there is a connection between the last and the first corner.
    pub closed: bool,
}

} // verus!
