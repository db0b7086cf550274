//! Les blocs du texte, réduits à ce qu'ils décident : la balise d'un titre.

use vstd::prelude::*;

verus! {

/// La balise d'un titre de section : `h2` jusqu'au niveau 2, `h3` au niveau
/// 3, `h4` au-delà.
pub open spec fn balise_de_titre_spec(niveau: u8) -> Seq<char> {
    if niveau <= 2 {
        "h2"@
    } else if niveau == 3 {
        "h3"@
    } else {
        "h4"@
    }
}

/// La balise d'un titre de section, selon son niveau.
pub fn balise_de_titre(niveau: u8) -> (r: &'static str)
    ensures
        r@ == balise_de_titre_spec(niveau),
{
    if niveau <= 2 {
        "h2"
    } else if niveau == 3 {
        "h3"
    } else {
        "h4"
    }
}

} // verus!
