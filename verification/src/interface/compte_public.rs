//! La page de compte, côté public : quels fournisseurs elle propose.

use vstd::prelude::*;

use crate::domaine::compte::Fournisseur;

verus! {

/// Vrai quand le bouton de ce fournisseur mène quelque part : Google et Apple
/// sont branchés, GitHub pas encore. La liste est tenue ici, et lue par les
/// routes de compte.
pub open spec fn disponible_spec(f: Fournisseur) -> bool {
    f != Fournisseur::Github
}

/// Vrai quand le bouton de ce fournisseur mène quelque part.
pub fn disponible(fournisseur: Fournisseur) -> (r: bool)
    ensures
        r == disponible_spec(fournisseur),
{
    match fournisseur {
        Fournisseur::Google => true,
        Fournisseur::Apple => true,
        Fournisseur::Github => false,
    }
}

} // verus!
