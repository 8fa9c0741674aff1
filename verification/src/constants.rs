//! The supported direction codes and the system default.

use vstd::prelude::*;

verus! {

/// Portuguese to English.
pub const LANG_PT_EN: &'static str = "pten";

/// English to Portuguese.
pub const LANG_EN_PT: &'static str = "enpt";

/// Italian to English.
pub const LANG_IT_EN: &'static str = "iten";

/// English to Italian.
pub const LANG_EN_IT: &'static str = "enit";

/// The direction used when a chat has none configured.
pub const DEFAULT_LANG_DIRECTION: &'static str = "pten";

} // verus!
