//! Apple code signatures for Mach-O binaries.
//!
//! The library embeds a code signature in a Mach-O binary and reads one
//! back. A signature is a container of blobs that lies at the end of the
//! `__LINKEDIT` segment: a code directory with the hash of every page of the
//! binary, a set of code requirements, entitlements, and a CMS signature
//! over the code directory.
//!
//! Every function states what it returns as a contract over byte sequences.
//! The functions that call into another crate are few and small: each says
//! above its contract which function it calls and what it claims of it, and
//! that claim is taken on trust. Every other contract is proved. The
//! modules, from the leaves up:
//!
//! - [`wire`], [`text`]: big-endian integers and characters.
//! - [`error`]: the failure kinds.
//! - [`digest`]: hash kinds, digests, and PKCS#1 v1.5 padding.
//! - [`blob`]: the framing of every blob.
//! - [`requirement`], [`requirement_codec`], [`requirement_display`],
//!   [`requirement_set`]: code requirement expressions, their binary and
//!   readable forms, and sets of them.
//! - [`superblob`], [`embedded_signature`]: the container and its slots.
//! - [`code_directory`], [`code_directory_codec`], [`code_hash`],
//!   [`code_directory_build`]: the code directory.
//! - [`macho`], [`macho_layout`], [`macho_load`], [`universal`]: the view of
//!   a binary and the layout of the signed file.
//! - [`signing`], [`identity`]: signing, without key and with a key held in
//!   memory.
//! - [`yubikey`], [`authentication`]: signing with a PIV smartcard.
//! - [`verify`]: checking a signature against its binary.
//! - [`command`]: the words of the command line.

pub mod error;
pub mod wire;
pub mod text;
pub mod digest;
pub mod blob;
pub mod requirement;
pub mod requirement_codec;
pub mod requirement_display;
pub mod requirement_set;
pub mod superblob;
pub mod embedded_signature;
pub mod code_directory;
pub mod code_directory_codec;
pub mod code_hash;
pub mod code_directory_build;
pub mod macho;
pub mod macho_layout;
pub mod macho_load;
pub mod universal;
pub mod signing;
pub mod identity;
pub mod yubikey;
pub mod authentication;
pub mod verify;
pub mod command;
