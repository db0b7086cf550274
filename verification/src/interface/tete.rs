//! Ce que porte la tête de chaque page.

use vstd::prelude::*;

verus! {

/// L'origine du site, sans barre finale.
pub const ORIGINE: &'static str = "https://ontbible.com";

} // verus!
