//! Error types of map operations.

use crate::attributes::AttributeError;
use crate::ids::DartIdType;
use vstd::prelude::*;

verus! {

/// Not enough unused darts to satisfy a reservation of the given size.
#[derive(Debug, PartialEq, Eq, Structural)]
pub struct DartReservationError(pub usize);

/// The dart cannot be set as unused because it is not free.
#[derive(Debug, PartialEq, Eq, Structural)]
pub struct DartReleaseError(pub DartIdType);

/// Failure of a link or unlink operation.
#[derive(Debug, PartialEq, Eq, Structural)]
pub enum LinkError {
    /// `b<i>(base) != NULL`: the base dart is not free.
    NonFreeBase(u8, DartIdType, DartIdType),
    /// The image dart is not free.
    NonFreeImage(u8, DartIdType, DartIdType),
    /// `b<i>(dart) == NULL`: there is nothing to unlink.
    AlreadyFree(u8, DartIdType),
    /// The two faces being 3-linked do not have the same structure.
    AsymmetricalFaces(DartIdType, DartIdType),
}

/// Failure of a sew or unsew operation.
#[derive(Debug, PartialEq, Eq)]
pub enum SewError {
    /// The geometry predicate of the sew refused the two darts.
    BadGeometry(u8, DartIdType, DartIdType),
    /// The inner link or unlink failed.
    FailedLink(LinkError),
    /// An attribute merge or split failed.
    FailedAttributeOp(AttributeError),
}

/// Map-level error.
#[derive(Debug, PartialEq, Eq, Structural)]
pub enum CMapError {
    /// A vertex was requested with an identifier that has no vertex in storage.
    UndefinedVertex,
}

/// Builder error.
#[derive(Debug)]
pub enum BuilderError {
    /// Some building parameters are missing.
    MissingParameters(&'static str),
    /// Some building parameters are invalid.
    InvalidParameters(&'static str),
}

} // verus!
