//! The theme: its shared colors, its roles, its rendered scenes and the document
//! that the editor reads.

pub mod assembly;
pub mod borders;
pub mod boundaries;
pub mod boundary_groups;
pub mod boundary_laws;
pub mod choice_laws;
pub mod choices;
pub mod document;
pub mod document_laws;
pub mod laws;
pub mod manifest;
pub mod request_laws;
pub mod requests;
pub mod role_kinds;
pub mod role_laws;
pub mod roles;
pub mod scene_laws;
pub mod scenes;
pub mod seeds;
pub mod style;
pub mod tokens;
