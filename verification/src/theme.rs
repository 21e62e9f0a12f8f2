//! The theme modes. The theme tokens and their mapping onto egui styles are
//! drawn with egui, beside this crate.

use vstd::prelude::*;

verus! {

/// Light or dark theme.
#[derive(Clone, Copy, Debug, PartialEq, Eq, Structural)]
pub enum CadThemeMode {
    Light,
    Dark,
}

} // verus!
