//! Le profil du lecteur — ce qu'il choisit de dire de lui. Les noms des champs
//! sont ceux du backend, à la lettre ; aucune adresse, aucun identifiant de
//! fournisseur.

use vstd::prelude::*;

use crate::chaines::{
    blanc, caracteres, chaine, lemme_rogne_bouts, majuscule, majuscules, prolonger, rogne, rogner,
};

verus! {

/// Ce que le lecteur dit de lui.
#[derive(Debug, Clone, PartialEq, Eq)]
pub struct Profil {
    pub nom_dusage: String,
    pub prenom: String,
    pub nom: String,
    pub bio: String,
    pub portrait: Option<String>,
    pub updated_at: i64,
}

impl Default for Profil {
    /// Un profil neuf : tout vide, horodaté à zéro.
    fn default() -> (r: Self)
        ensures
            r.nom_dusage@ == Seq::<char>::empty(),
            r.prenom@ == Seq::<char>::empty(),
            r.nom@ == Seq::<char>::empty(),
            r.bio@ == Seq::<char>::empty(),
            r.portrait is None,
            r.updated_at == 0,
    {
        Profil {
            nom_dusage: String::new(),
            prenom: String::new(),
            nom: String::new(),
            bio: String::new(),
            portrait: None,
            updated_at: 0,
        }
    }
}

/// Le nom complet, prénom puis nom, sans blanc aux bouts — ou rien.
pub open spec fn nom_affiche_spec(p: Profil) -> Option<Seq<char>> {
    let entier = rogne(p.prenom@ + seq![' '] + p.nom@);
    if entier.len() == 0 {
        None
    } else {
        Some(entier)
    }
}

/// Ce que la barre affiche : le nom complet, sinon le nom d'usage, sinon
/// « Vous ».
pub open spec fn nom_de_barre_spec(p: Profil) -> Seq<char> {
    match nom_affiche_spec(p) {
        Some(n) => n,
        None => if p.nom_dusage@.len() > 0 {
            p.nom_dusage@
        } else {
            "Vous"@
        },
    }
}

/// La capitale de la première lettre d'un nom, une fois rogné — rien s'il est
/// vide.
pub open spec fn initiale(s: Seq<char>) -> Seq<char> {
    if rogne(s).len() == 0 {
        Seq::empty()
    } else {
        majuscule(rogne(s)[0])
    }
}

/// L'initiale du prénom puis celle du nom.
pub open spec fn initiales_spec(p: Profil) -> Seq<char> {
    initiale(p.prenom@) + initiale(p.nom@)
}

/// Vrai quand le lecteur n'a rien dit : ni nom d'usage, ni nom, ni bio qui ne
/// soit que des blancs, ni portrait.
pub open spec fn est_vide_spec(p: Profil) -> bool {
    p.nom_dusage@.len() == 0 && nom_affiche_spec(p) is None && rogne(p.bio@).len() == 0
        && p.portrait is None
}

/// **Un nom ne laisse jamais de blanc** : la barre nomme toujours quelqu'un,
/// et le nom complet, quand il existe, ne commence ni ne finit par un blanc —
/// un prénom seul ne traîne pas l'espace qui l'aurait séparé du nom.
pub proof fn loi_un_nom_ne_laisse_jamais_de_blanc(p: Profil)
    ensures
        nom_de_barre_spec(p).len() > 0,
        match nom_affiche_spec(p) {
            Some(n) => n.len() > 0 && !blanc(n[0]) && !blanc(n.last()),
            None => true,
        },
{
    reveal_strlit("Vous");
    lemme_rogne_bouts(p.prenom@ + seq![' '] + p.nom@);
}

/// L'initiale en capitale d'un nom.
fn initiale_de(s: &str, sortie: &mut Vec<char>)
    ensures
        final(sortie)@ == old(sortie)@ + initiale(s@),
{
    let c = caracteres(s);
    let r = rogner(c.as_slice());
    if r.len() > 0 {
        let m = majuscules(r[0]);
        prolonger(sortie, m.as_slice());
    } else {
        assert(old(sortie)@ + Seq::<char>::empty() =~= old(sortie)@);
    }
}

impl Profil {
    /// Le nom complet, prénom puis nom ; un seul des deux se lit sans blanc.
    pub fn nom_affiche(&self) -> (r: Option<String>)
        ensures
            match r {
                Some(n) => nom_affiche_spec(*self) == Some(n@),
                None => nom_affiche_spec(*self) is None,
            },
    {
        let mut v = caracteres(self.prenom.as_str());
        v.push(' ');
        let n = caracteres(self.nom.as_str());
        prolonger(&mut v, n.as_slice());
        assert(v@ =~= self.prenom@ + seq![' '] + self.nom@);
        let e = rogner(v.as_slice());
        if e.len() == 0 {
            None
        } else {
            Some(chaine(e.as_slice()))
        }
    }

    /// Ce que la barre affiche : le nom complet devance le nom d'usage.
    pub fn nom_de_barre(&self) -> (r: String)
        ensures
            r@ == nom_de_barre_spec(*self),
    {
        match self.nom_affiche() {
            Some(n) => n,
            None => {
                if !self.nom_dusage.as_str().is_empty() {
                    self.nom_dusage.clone()
                } else {
                    "Vous".to_owned()
                }
            },
        }
    }

    /// Deux initiales au plus, en capitales.
    pub fn initiales(&self) -> (r: String)
        ensures
            r@ == initiales_spec(*self),
    {
        let mut v: Vec<char> = Vec::new();
        initiale_de(self.prenom.as_str(), &mut v);
        initiale_de(self.nom.as_str(), &mut v);
        assert(Seq::<char>::empty() + initiale(self.prenom@) + initiale(self.nom@)
            =~= initiales_spec(*self));
        chaine(v.as_slice())
    }

    /// `@` suivi du nom d'usage, s'il y en a un.
    pub fn arobase(&self) -> (r: Option<String>)
        ensures
            match r {
                Some(a) => self.nom_dusage@.len() > 0 && a@ == seq!['@'] + self.nom_dusage@,
                None => self.nom_dusage@.len() == 0,
            },
    {
        if self.nom_dusage.as_str().is_empty() {
            None
        } else {
            let mut v: Vec<char> = Vec::new();
            v.push('@');
            let n = caracteres(self.nom_dusage.as_str());
            prolonger(&mut v, n.as_slice());
            assert(seq!['@'] + n@ =~= v@);
            Some(chaine(v.as_slice()))
        }
    }

    /// Vrai quand le lecteur n'a rien dit de lui.
    pub fn est_vide(&self) -> (r: bool)
        ensures
            r == est_vide_spec(*self),
    {
        let bio = caracteres(self.bio.as_str());
        self.nom_dusage.as_str().is_empty() && self.nom_affiche().is_none() && rogner(
            bio.as_slice(),
        ).len() == 0 && self.portrait.is_none()
    }
}

} // verus!
