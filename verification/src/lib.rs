//! Renaming of Windows executables and installer packages by their version.
//!
//! A file name pattern holds placeholders ([`pattern`]) for what the version
//! resource of an executable ([`versioninfo`]) or the properties of an MSI
//! package ([`msi`]) say of a file. Where the outer image is only the shell of
//! an installer, its payload is scanned ([`scan`], [`probe`]) for evidence of
//! the architecture ([`evidence`]). What comes out is made into a valid name
//! that keeps the extension ([`naming`]).
//!
//! The library reads no file and calls no installer interface. It says what to
//! read or call next, and takes what came back.

pub mod args;
pub mod bytes;
pub mod evidence;
pub mod msi;
pub mod naming;
pub mod path;
pub mod pattern;
pub mod probe;
pub mod reading;
pub mod scan;
pub mod text;
pub mod utf16;
pub mod versioninfo;
