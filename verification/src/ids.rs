//! Identifier types shared by every map structure.

use vstd::prelude::*;

verus! {

/// Type of dart identifiers.
pub type DartIdType = u32;

/// Type of vertex identifiers (the smallest dart of the vertex orbit).
pub type VertexIdType = u32;

/// Type of edge identifiers (the smallest dart of the edge orbit).
pub type EdgeIdType = u32;

/// Type of face identifiers (the smallest dart of the face orbit).
pub type FaceIdType = u32;

/// Type of volume identifiers (the smallest dart of the volume orbit).
pub type VolumeIdType = u32;

/// The null dart: an image equal to it means "no image".
pub const NULL_DART_ID: DartIdType = 0;

/// Null vertex identifier.
pub const NULL_VERTEX_ID: VertexIdType = 0;

/// Null edge identifier.
pub const NULL_EDGE_ID: EdgeIdType = 0;

/// Null face identifier.
pub const NULL_FACE_ID: FaceIdType = 0;

/// Null volume identifier.
pub const NULL_VOLUME_ID: VolumeIdType = 0;

} // verus!
