//! Building a BIOS boot image: flat binaries from object-file sections, and a
//! Master Boot Record patched to point at the second stage.
pub mod layout;
pub mod mbr;
pub mod error;
pub mod image;
pub mod extract;
pub mod process;
pub mod cargo;
pub mod var;
pub mod loader;
pub mod elf;
pub mod stage;
pub mod toolchain;
