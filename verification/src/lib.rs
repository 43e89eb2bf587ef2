//! Installation candidates reconstructed from package-manager logs: the
//! packages that the dpkg log or the apt history says were installed and not
//! removed since, or removed and not installed since.
pub mod text;
pub mod stats;
pub mod action;
pub mod error;
pub mod apt;
pub mod history;
pub mod sorting;
pub mod pattern;
pub mod dpkg;
pub mod timeline;
