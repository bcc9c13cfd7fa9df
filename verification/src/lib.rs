//! Decisions of a DLC-unlocker installer, apart from the disk and the network:
//! reading PE images, choosing a proxy DLL, ScreamAPI configuration and the
//! file-name rules of ScreamAPI installs.
pub mod text;
pub mod pe;
pub mod proxy;
pub mod config;
pub mod screamapi;
