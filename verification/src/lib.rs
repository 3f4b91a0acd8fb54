//! Bridging a content-addressed commit store and OCI container images:
//! the image reference grammar, the tar import filter's rules, layer
//! accounting between manifests, and the commit preparation sweep.

pub mod commit;
pub mod container;
pub mod failure;
pub mod tar;
pub mod text;
