//! Assembly of hierarchical voxel-model scenes into a sparse, chunked voxel
//! grid, together with classification of the populated cells into typed
//! block values for a world storage backend.
//!
//! The pipeline: [`rot`] decodes compact cube-rotation encodings; [`scene`]
//! walks a scene graph, accumulating rotation and translation down each
//! branch; [`raster`] places each referenced model, allocating chunks of the
//! [`grid`] and writing its voxels as cells; [`region`] keeps a minimal
//! covering set of bounding boxes over everything placed; and [`classify`]
//! maps each populated cell to a block value through an optional color
//! replacement table with weighted random alternatives.

pub mod math;
pub mod rot;
pub mod region;
pub mod grid;
pub mod classify;
pub mod raster;
pub mod scene;
