//! Le vivier du verset du jour.
//!
//! Le type est plat — seulement le corps de la traduction : un verset du jour
//! se lit d'une traite. Le vivier ne retient que les unités verrouillées ;
//! c'est le pipeline qui applique cette règle.

use vstd::prelude::*;

use crate::chaines::{caracteres, chaine, decimal, ecrire_decimal, prolonger};

verus! {

/// Un verset du vivier quotidien.
#[derive(Debug, Clone, PartialEq, Eq)]
pub struct VersetQuotidien {
    pub livre: String,
    pub unite: String,
    pub numero: u32,
    /// Le renvoi affichable — « Bereshit 1:1 ».
    pub renvoi: String,
    /// Le corps de la traduction, sans gloses ni translittérations.
    pub texte: String,
}

impl VersetQuotidien {
    /// Le lien vers le passage dans la liseuse.
    pub open spec fn chemin_spec(&self) -> Seq<char> {
        "/fr/lire/"@ + self.livre@ + "/"@ + self.unite@ + "?v="@ + decimal(self.numero as nat)
    }

    /// Le lien vers le passage, dans la liseuse : le verset, et non l'unité.
    pub fn chemin(&self) -> (r: String)
        ensures
            r@ == self.chemin_spec(),
    {
        let mut v = caracteres("/fr/lire/");
        let livre = caracteres(self.livre.as_str());
        prolonger(&mut v, livre.as_slice());
        let barre = caracteres("/");
        prolonger(&mut v, barre.as_slice());
        let unite = caracteres(self.unite.as_str());
        prolonger(&mut v, unite.as_slice());
        let v_egal = caracteres("?v=");
        prolonger(&mut v, v_egal.as_slice());
        ecrire_decimal(self.numero as u64, &mut v);
        chaine(v.as_slice())
    }
}

} // verus!
