//! Local asset persistence and safe file-export logic for a desktop
//! PDF-signing application: JSON collection storage for signature images and
//! text snippets, collision-safe export naming, filename sanitation, and
//! filtering of OS file-open candidates.

pub mod dec;
pub mod decode;
pub mod encode;
pub mod errors;
pub mod events;
pub mod json;
pub mod model;
pub mod naming;
pub mod paths;
pub mod store;
pub mod text;
