//! Le cas d'usage : quel verset aujourd'hui. Il ne lit ni fichier ni
//! horloge — il reçoit les deux par leurs ports.

use vstd::prelude::*;

use crate::application::ports::{Horloge, Vivier};
use crate::domaine::verset_du_jour::{indice, indice_spec};
use crate::domaine::vivier::VersetQuotidien;

verus! {

/// Le verset que désigne le jour `jour` dans ces versets, à partir du départ
/// `depart` du pas.
pub open spec fn choix(versets: Seq<VersetQuotidien>, jour: int, depart: nat) -> Option<
    VersetQuotidien,
> {
    if versets.len() == 0 || (versets.len() > 2 && depart >= versets.len()) {
        None
    } else {
        Some(versets[indice_spec(jour, versets.len(), depart) as int])
    }
}

/// Le verset du jour `jour` dans ces versets : `None` sur un vivier vide, et
/// quand `depart` n'est pas plus petit que la taille d'un vivier de plus de
/// deux versets.
pub fn choisir(versets: &[VersetQuotidien], jour: i64, depart: usize) -> (r: Option<
    &VersetQuotidien,
>)
    ensures
        match r {
            Some(v) => choix(versets@, jour as int, depart as nat) == Some(*v),
            None => choix(versets@, jour as int, depart as nat) is None,
        },
{
    let taille = versets.len();
    if taille == 0 {
        return None;
    }
    if taille > 2 && depart >= taille {
        return None;
    }
    let i = indice(jour, taille, depart);
    Some(&versets[i])
}

/// Le verset du jour, d'une horloge et d'un vivier.
pub struct VersetDuJour<'a, H: Horloge, V: Vivier> {
    horloge: &'a H,
    vivier: &'a V,
}

impl<'a, H: Horloge, V: Vivier> VersetDuJour<'a, H, V> {
    /// Son horloge.
    pub closed spec fn son_horloge(&self) -> &'a H {
        self.horloge
    }

    /// Son vivier.
    pub closed spec fn son_vivier(&self) -> &'a V {
        self.vivier
    }

    pub fn new(horloge: &'a H, vivier: &'a V) -> (r: Self)
        ensures
            r.son_horloge() == horloge,
            r.son_vivier() == vivier,
    {
        VersetDuJour { horloge, vivier }
    }

    /// Le verset d'aujourd'hui : ce que `choisir` rend pour les versets du
    /// vivier et le jour de l'horloge, tels qu'ils répondent à cet appel.
    pub fn aujourd_hui(&self, depart: usize) -> (r: Option<&'a VersetQuotidien>)
        ensures
            r matches Some(v) ==> exists|jour: i64|
                #![trigger self.son_horloge().peut_dire(jour)]
                self.son_horloge().peut_dire(jour) && choix(
                    self.son_vivier().versets_vus(),
                    jour as int,
                    depart as nat,
                ) == Some(*v),
            r is None <==> (self.son_vivier().versets_vus().len() == 0 || (
            self.son_vivier().versets_vus().len() > 2 && depart >= self.son_vivier().versets_vus().len())),
    {
        let versets = self.vivier.versets();
        if versets.len() == 0 {
            return None;
        }
        let jour = self.horloge.jour();
        let r = choisir(versets, jour, depart);
        proof {
            if let Some(v) = r {
                assert(self.son_horloge().peut_dire(jour));
                assert(choix(self.son_vivier().versets_vus(), jour as int, depart as nat) == Some(*v));
            }
        }
        r
    }
}

} // verus!
