//! Dependent-asset resolution and caching for a real-time renderer.
//!
//! Given the path of a material descriptor, the library drives two
//! asynchronous stores (one for descriptor text, one for image bytes)
//! through their load state machines, decodes the referenced images,
//! and assembles an immutable, shareable runtime material, cached per
//! path. The asynchronous loader itself is an external service: callers
//! report its progress through explicit events (`begin`/`complete`),
//! and every operation here is synchronous and non-blocking.

pub mod descriptor;
pub mod errors;
pub mod image;
pub mod manager;
pub mod path;
pub mod store;
pub mod table;
pub mod text;

pub use descriptor::{parse_material, Color, MaterialRon, Scalar};
pub use errors::{DecodeError, ImageFailure, LoadError};
pub use image::{decode, Image, ImageFormat, ImageRon};
pub use manager::{MaterialManager, MaterialStatus, NewMaterial};
pub use path::AssetPath;
pub use store::{DescriptorStore, ImageStore, LoadStatus};
