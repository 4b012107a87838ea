//! A space-carving (voxel coloring) reconstruction library.
//!
//! The library reconstructs a 3D occupancy-and-color volume of an object from
//! a set of calibrated photographs: a voxel is kept and colored only if every
//! camera that can see it reports a mutually consistent color, otherwise it is
//! carved away.  All geometry is carried out in exact fixed-point rational
//! arithmetic (integer numerators over caller-chosen denominators), so the
//! voxel grid, the camera back-projection, the photo-consistency test and the
//! occlusion-aware plane-sweep engine are all verified; converting calibration
//! data from floating point to fixed point, image loading and mesh output are
//! left to the surrounding (unverified) binary.

pub mod brdf;
pub mod carve;
pub mod mesh;
pub mod view;
pub mod volume;
