//! Core of a bottle and cask installer: archive entry resolution, Mach-O
//! placeholder relocation, cask artifact placement and upgrade sequencing.
pub mod archive;
pub mod cask;
pub mod error;
pub mod formula;
pub mod macho;
pub mod placeholder;
pub mod quarantine;
pub mod upgrade;
