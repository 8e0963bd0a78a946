//! A pool of interned strings.
//!
//! Every distinct string content is stored once in an [`InternPool`]; interning
//! hands out a small `Copy` handle ([`Intern`]) that names the stored slot.
//! Handles of equal content are equal, handles of different content differ,
//! and ordering between handles follows the byte order of their contents.
//! [`InternC`] is a handle whose content is known to hold no NUL byte, so that
//! it can be handed to C as a NUL-terminated string.

use vstd::prelude::*;

pub mod bytes;
pub mod pool;
pub mod escape;
pub mod text;
pub mod intern;
pub mod order;
pub mod cstr;

pub use intern::Intern;
pub use pool::InternPool;
pub use cstr::{InteriorNulError, InternC};
