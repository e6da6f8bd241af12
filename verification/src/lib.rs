//! PalladiumOS kernel logic: an in-memory filesystem, a full-screen text
//! editor, a command shell, and the key handling that ties them together.
//! Screen, keyboard and QEMU port access stay with the caller.
pub mod console;
pub mod editor;
pub mod editor_laws;
pub mod fdfs;
pub mod fdfs_laws;
pub mod filesystem;
pub mod keyboard;
pub mod qemu;
pub mod shell;
pub mod text;
