use vstd::prelude::*;

verus! {

// Phosphor icon font symbols, named after the glyphs they select.
pub const SIDEBAR: &'static str = "\u{EAB6}";

pub const LIST_DASHES: &'static str = "\u{E2F4}";

pub const CARDS: &'static str = "\u{E0F8}";

pub const WRENCH: &'static str = "\u{E5D4}";

pub const X: &'static str = "\u{E4F6}";

pub const NOTE: &'static str = "\u{E348}";

pub const PENCIL_LINE: &'static str = "\u{E3B2}";

pub const TRASH: &'static str = "\u{E4A6}";

pub const PLUS: &'static str = "\u{E3D4}";

pub const INFO: &'static str = "\u{E2CE}";

pub const ARROW_CCW: &'static str = "\u{E038}";

} // verus!
