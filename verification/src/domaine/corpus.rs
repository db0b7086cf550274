//! Le corpus — sa structure, telle que la liseuse doit la montrer.
//!
//! Ces types sont fidèles à ce que produit le pipeline, mais un `Option` dit
//! « pas de sous-titre » autrement que « sous-titre vide », et un `enum`
//! interdit un type de bloc qui n'existe pas.

use vstd::prelude::*;

use crate::chaines::meme_texte;
use crate::domaine::texte::{Noeud, Verset};

verus! {

/// Où en est une unité.
#[derive(Debug, Clone, Copy, PartialEq, Eq, Structural)]
pub enum Statut {
    Acheve,
    Brouillon,
}

impl Statut {
    /// Vrai pour un brouillon : la page le signale.
    pub fn est_provisoire(self) -> (r: bool)
        ensures
            r == (self == Statut::Brouillon),
    {
        match self {
            Statut::Brouillon => true,
            Statut::Acheve => false,
        }
    }
}

/// Un bloc d'une unité.
#[derive(Debug, Clone, PartialEq, Eq)]
pub enum Bloc {
    /// Une suite de versets numérotés.
    Versets(Vec<Verset>),
    /// Un titre de section, au niveau donné.
    Titre { niveau: u8, noeuds: Vec<Noeud> },
    /// Une liste, numérotée ou non.
    Liste { ordonnee: bool, items: Vec<Vec<Noeud>> },
    /// Un paragraphe de prose.
    Paragraphe(Vec<Noeud>),
    /// Une citation en retrait.
    Citation(Vec<Noeud>),
    /// Un tableau : ses en-têtes, puis ses lignes de cellules.
    Tableau { entetes: Vec<Vec<Noeud>>, lignes: Vec<Vec<Vec<Noeud>>> },
    /// Un filet de séparation.
    Filet,
}

/// Le sous-titre d'une unité : le français, l'hébreu, et la référence.
#[derive(Debug, Clone, PartialEq, Eq)]
pub struct SousTitre {
    pub francais: String,
    pub hebreu: String,
    pub reference: Option<String>,
}

/// Une unité — un chapitre, ou l'introduction d'un livre.
#[derive(Debug, Clone, PartialEq, Eq)]
pub struct Chapitre {
    pub id: String,
    pub livre: String,
    pub numero: u32,
    pub titre: String,
    pub sous_titre: Option<SousTitre>,
    pub statut: Statut,
    pub blocs: Vec<Bloc>,
    pub notes: Vec<Bloc>,
    pub nombre_de_versets: u32,
}

/// Les versets des blocs, dans l'ordre, par-delà les blocs qui les séparent.
pub open spec fn versets_des(blocs: Seq<Bloc>) -> Seq<Verset>
    decreases blocs.len(),
{
    if blocs.len() == 0 {
        Seq::empty()
    } else {
        versets_des(blocs.drop_last()) + match blocs.last() {
            Bloc::Versets(v) => v@,
            _ => Seq::empty(),
        }
    }
}

/// Le premier rang d'un verset de ce numéro.
pub open spec fn rang_du_verset(s: Seq<Verset>, numero: u32) -> Option<int>
    decreases s.len(),
{
    if s.len() == 0 {
        None
    } else {
        match rang_du_verset(s.drop_last(), numero) {
            Some(k) => Some(k),
            None => if s.last().numero == numero {
                Some(s.len() - 1)
            } else {
                None
            },
        }
    }
}

/// Ce que `rang_du_verset` rend : le premier rang qui porte le numéro.
proof fn lemme_rang_du_verset(s: Seq<Verset>, numero: u32)
    ensures
        rang_du_verset(s, numero) matches Some(k) ==> 0 <= k < s.len() && s[k].numero == numero
            && forall|j: int| 0 <= j < k ==> (#[trigger] s[j]).numero != numero,
        rang_du_verset(s, numero) is None ==> forall|j: int|
            0 <= j < s.len() ==> (#[trigger] s[j]).numero != numero,
    decreases s.len(),
{
    if s.len() > 0 {
        let u = s.drop_last();
        lemme_rang_du_verset(u, numero);
        assert forall|j: int| 0 <= j < u.len() implies s[j] == u[j] by {}
        assert(s[s.len() - 1] == s.last());
    }
}

/// Les versets des premiers blocs ouvrent ceux de tous.
proof fn lemme_versets_prefixe(blocs: Seq<Bloc>, i: int)
    requires
        0 <= i <= blocs.len(),
    ensures
        versets_des(blocs.take(i)).len() <= versets_des(blocs).len(),
        forall|k: int|
            0 <= k < versets_des(blocs.take(i)).len() ==> #[trigger] versets_des(blocs.take(i))[k]
                == versets_des(blocs)[k],
    decreases blocs.len() - i,
{
    if i < blocs.len() {
        lemme_versets_prefixe(blocs, i + 1);
        assert(blocs.take(i + 1).drop_last() =~= blocs.take(i));
        let a = versets_des(blocs.take(i));
        let b = versets_des(blocs.take(i + 1));
        let extra = match blocs.take(i + 1).last() {
            Bloc::Versets(v) => v@,
            _ => Seq::empty(),
        };
        assert(b == a + extra);
        assert forall|k: int| 0 <= k < a.len() implies #[trigger] a[k] == versets_des(blocs)[k] by {
            assert(a[k] == b[k]);
        }
    } else {
        assert(blocs.take(i) =~= blocs);
    }
}

impl Chapitre {
    /// Le verset de ce numéro, où qu'il soit parmi les blocs.
    pub fn verset(&self, numero: u32) -> (r: Option<&Verset>)
        ensures
            match r {
                Some(v) => rang_du_verset(versets_des(self.blocs@), numero) matches Some(k)
                    && versets_des(self.blocs@)[k] == *v,
                None => rang_du_verset(versets_des(self.blocs@), numero) is None,
            },
    {
        let ghost tous = versets_des(self.blocs@);
        proof {
            lemme_rang_du_verset(tous, numero);
        }
        let mut i: usize = 0;
        while i < self.blocs.len()
            invariant
                i <= self.blocs@.len(),
                tous == versets_des(self.blocs@),
                forall|k: int|
                    0 <= k < versets_des(self.blocs@.take(i as int)).len() ==> (
                    #[trigger] versets_des(self.blocs@.take(i as int))[k]).numero != numero,
            decreases self.blocs@.len() - i,
        {
            let ghost avant = versets_des(self.blocs@.take(i as int));
            assert(self.blocs@.take(i + 1).drop_last() =~= self.blocs@.take(i as int));
            assert(self.blocs@.take(i + 1).last() == self.blocs@[i as int]);
            match &self.blocs[i] {
                Bloc::Versets(versets) => {
                    assert(versets_des(self.blocs@.take(i + 1)) == avant + versets@);
                    let mut j: usize = 0;
                    while j < versets.len()
                        invariant
                            j <= versets@.len(),
                            i < self.blocs@.len(),
                            tous == versets_des(self.blocs@),
                            avant == versets_des(self.blocs@.take(i as int)),
                            versets_des(self.blocs@.take(i + 1)) == avant + versets@,
                            forall|k: int| 0 <= k < avant.len() ==> (#[trigger] avant[k]).numero != numero,
                            forall|k: int| 0 <= k < j ==> (#[trigger] versets@[k]).numero != numero,
                        decreases versets@.len() - j,
                    {
                        if versets[j].numero == numero {
                            proof {
                                let k = avant.len() + j;
                                let apres = versets_des(self.blocs@.take(i + 1));
                                assert(apres == avant + versets@);
                                assert(apres[k] == versets@[j as int]);
                                lemme_versets_prefixe(self.blocs@, i + 1);
                                assert(tous[k] == versets@[j as int]);
                                lemme_rang_du_verset(tous, numero);
                                assert forall|m: int| 0 <= m < k implies (#[trigger] tous[m]).numero
                                    != numero by {
                                    assert(tous[m] == apres[m]);
                                    if m < avant.len() {
                                        assert(apres[m] == avant[m]);
                                    } else {
                                        assert(apres[m] == versets@[m - avant.len()]);
                                    }
                                }
                                if rang_du_verset(tous, numero) is Some {
                                    let k2 = rang_du_verset(tous, numero)->0;
                                    assert(!(k2 < k));
                                    assert(!(k2 > k));
                                }
                            }
                            return Some(&versets[j]);
                        }
                        j = j + 1;
                    }
                    proof {
                        let apres = versets_des(self.blocs@.take(i + 1));
                        assert(apres == avant + versets@);
                        assert forall|k: int| 0 <= k < apres.len() implies (
                        #[trigger] apres[k]).numero != numero by {
                            if k < avant.len() {
                                assert(apres[k] == avant[k]);
                            } else {
                                assert(apres[k] == versets@[k - avant.len()]);
                            }
                        }
                    }
                },
                _ => {
                    assert(versets_des(self.blocs@.take(i + 1)) =~= avant);
                },
            }
            i = i + 1;
        }
        assert(self.blocs@.take(self.blocs@.len() as int) =~= self.blocs@);
        proof {
            lemme_rang_du_verset(tous, numero);
            if rang_du_verset(tous, numero) is Some {
                let k2 = rang_du_verset(tous, numero)->0;
                assert(tous[k2].numero == numero);
            }
        }
        None
    }

    /// Les versets du chapitre, dans l'ordre, par-delà les blocs.
    pub fn versets(&self) -> (r: Vec<&Verset>)
        ensures
            r@.len() == versets_des(self.blocs@).len(),
            forall|k: int| 0 <= k < r@.len() ==> *r@[k] == versets_des(self.blocs@)[k],
    {
        let mut r: Vec<&Verset> = Vec::new();
        let mut i: usize = 0;
        while i < self.blocs.len()
            invariant
                i <= self.blocs@.len(),
                r@.len() == versets_des(self.blocs@.take(i as int)).len(),
                forall|k: int|
                    0 <= k < r@.len() ==> *r@[k] == versets_des(self.blocs@.take(i as int))[k],
            decreases self.blocs@.len() - i,
        {
            let ghost avant = versets_des(self.blocs@.take(i as int));
            assert(self.blocs@.take(i + 1).drop_last() =~= self.blocs@.take(i as int));
            assert(self.blocs@.take(i + 1).last() == self.blocs@[i as int]);
            match &self.blocs[i] {
                Bloc::Versets(versets) => {
                    assert(versets_des(self.blocs@.take(i + 1)) == avant + versets@);
                    let ghost debut = r@;
                    let mut j: usize = 0;
                    while j < versets.len()
                        invariant
                            j <= versets@.len(),
                            debut.len() == avant.len(),
                            forall|k: int| 0 <= k < debut.len() ==> *debut[k] == avant[k],
                            r@.len() == debut.len() + j,
                            forall|k: int| 0 <= k < debut.len() ==> r@[k] == debut[k],
                            forall|k: int| 0 <= k < j ==> *r@[debut.len() + k] == versets@[k],
                        decreases versets@.len() - j,
                    {
                        r.push(&versets[j]);
                        j = j + 1;
                    }
                    proof {
                        let apres = versets_des(self.blocs@.take(i + 1));
                        assert(apres == avant + versets@);
                        assert forall|k: int| 0 <= k < r@.len() implies *r@[k] == apres[k] by {
                            if k < debut.len() {
                                assert(apres[k] == avant[k]);
                            } else {
                                assert(*r@[debut.len() + (k - debut.len())] == versets@[k
                                    - debut.len()]);
                                assert(apres[k] == versets@[k - avant.len()]);
                            }
                        }
                    }
                },
                _ => {
                    assert(versets_des(self.blocs@.take(i + 1)) =~= avant);
                },
            }
            i = i + 1;
        }
        assert(self.blocs@.take(self.blocs@.len() as int) =~= self.blocs@);
        r
    }
}

/// Un livre, avec tout son texte.
#[derive(Debug, Clone, PartialEq, Eq)]
pub struct Livre {
    pub id: String,
    pub titre: String,
    pub francais: String,
    pub hebreu: String,
    /// L'introduction, rangée à part par le pipeline.
    pub intro: Option<Chapitre>,
    pub chapitres: Vec<Chapitre>,
}

/// Les unités d'un livre, chapitres puis introduction.
pub open spec fn unites_de(l: Livre) -> Seq<Chapitre> {
    l.chapitres@ + match l.intro {
        Some(c) => seq![c],
        None => Seq::empty(),
    }
}

/// Le premier rang d'une unité de cet identifiant.
pub open spec fn rang_de_l_unite(s: Seq<Chapitre>, id: Seq<char>) -> Option<int>
    decreases s.len(),
{
    if s.len() == 0 {
        None
    } else {
        match rang_de_l_unite(s.drop_last(), id) {
            Some(k) => Some(k),
            None => if s.last().id@ == id {
                Some(s.len() - 1)
            } else {
                None
            },
        }
    }
}

/// Ce que `rang_de_l_unite` rend : le premier rang qui porte l'identifiant.
pub proof fn lemme_rang_de_l_unite(s: Seq<Chapitre>, id: Seq<char>)
    ensures
        rang_de_l_unite(s, id) matches Some(k) ==> 0 <= k < s.len() && s[k].id@ == id && forall|
            j: int,
        | 0 <= j < k ==> (#[trigger] s[j]).id@ != id,
        rang_de_l_unite(s, id) is None ==> forall|j: int| 0 <= j < s.len() ==> (#[trigger] s[j]).id@ != id,
    decreases s.len(),
{
    if s.len() > 0 {
        let u = s.drop_last();
        lemme_rang_de_l_unite(u, id);
        assert forall|j: int| 0 <= j < u.len() implies s[j] == u[j] by {}
        assert(s[s.len() - 1] == s.last());
    }
}

/// La somme des nombres de versets.
pub open spec fn somme_des_versets(s: Seq<Chapitre>) -> int
    decreases s.len(),
{
    if s.len() == 0 {
        0
    } else {
        somme_des_versets(s.drop_last()) + s.last().nombre_de_versets
    }
}

/// Une somme de nombres positifs l'est aussi.
proof fn lemme_somme_positive(s: Seq<Chapitre>)
    ensures
        somme_des_versets(s) >= 0,
    decreases s.len(),
{
    if s.len() > 0 {
        lemme_somme_positive(s.drop_last());
    }
}

/// Une somme de nombres positifs ne décroît pas.
proof fn lemme_somme_croit(s: Seq<Chapitre>, i: int)
    requires
        0 <= i <= s.len(),
    ensures
        0 <= somme_des_versets(s.take(i)) <= somme_des_versets(s),
    decreases s.len() - i,
{
    lemme_somme_positive(s.take(i));
    if i < s.len() {
        lemme_somme_croit(s, i + 1);
        assert(s.take(i + 1).drop_last() =~= s.take(i));
    } else {
        assert(s.take(i) =~= s);
    }
}

/// Le nombre de versets de ces unités, s'il tient sur 32 bits ; `None`
/// sinon.
pub fn compter_les_versets(chapitres: &[Chapitre]) -> (r: Option<u32>)
    ensures
        match r {
            Some(n) => n == somme_des_versets(chapitres@),
            None => somme_des_versets(chapitres@) > u32::MAX,
        },
{
    let mut total: u32 = 0;
    let mut i: usize = 0;
    while i < chapitres.len()
        invariant
            i <= chapitres@.len(),
            total == somme_des_versets(chapitres@.take(i as int)),
        decreases chapitres@.len() - i,
    {
        assert(chapitres@.take(i + 1).drop_last() =~= chapitres@.take(i as int));
        assert(chapitres@.take(i + 1).last() == chapitres@[i as int]);
        match total.checked_add(chapitres[i].nombre_de_versets) {
            Some(t) => {
                total = t;
            },
            None => {
                proof {
                    lemme_somme_croit(chapitres@, i + 1);
                }
                return None;
            },
        }
        i = i + 1;
    }
    assert(chapitres@.take(chapitres@.len() as int) =~= chapitres@);
    Some(total)
}

impl Livre {
    /// L'unité de cet identifiant : un chapitre, ou l'introduction, qui se
    /// trouve par la même adresse.
    pub fn chapitre(&self, id: &str) -> (r: Option<&Chapitre>)
        ensures
            match r {
                Some(c) => rang_de_l_unite(unites_de(*self), id@) matches Some(k) && unites_de(
                    *self,
                )[k] == *c,
                None => rang_de_l_unite(unites_de(*self), id@) is None,
            },
    {
        let ghost tous = unites_de(*self);
        proof {
            lemme_rang_de_l_unite(tous, id@);
        }
        let mut i: usize = 0;
        while i < self.chapitres.len()
            invariant
                i <= self.chapitres@.len(),
                tous == unites_de(*self),
                forall|j: int| 0 <= j < i ==> (#[trigger] self.chapitres@[j]).id@ != id@,
            decreases self.chapitres@.len() - i,
        {
            if meme_texte(self.chapitres[i].id.as_str(), id) {
                proof {
                    lemme_rang_de_l_unite(tous, id@);
                    assert(tous[i as int] == self.chapitres@[i as int]);
                    assert forall|j: int| 0 <= j < i implies (#[trigger] tous[j]).id@ != id@ by {
                        assert(tous[j] == self.chapitres@[j]);
                    }
                    if rang_de_l_unite(tous, id@) is Some {
                        let k = rang_de_l_unite(tous, id@)->0;
                        assert(!(k < i));
                        assert(!(k > i));
                    }
                }
                return Some(&self.chapitres[i]);
            }
            i = i + 1;
        }
        proof {
            lemme_rang_de_l_unite(tous, id@);
            assert forall|j: int| 0 <= j < self.chapitres@.len() implies (#[trigger] tous[j]).id@
                != id@ by {
                assert(tous[j] == self.chapitres@[j]);
            }
        }
        match &self.intro {
            Some(intro) => {
                if meme_texte(intro.id.as_str(), id) {
                    proof {
                        let n = self.chapitres@.len() as int;
                        assert(tous[n] == *intro);
                        if rang_de_l_unite(tous, id@) is Some {
                            let k = rang_de_l_unite(tous, id@)->0;
                            assert(!(k < n));
                        }
                    }
                    Some(intro)
                } else {
                    proof {
                        let n = self.chapitres@.len() as int;
                        assert(tous[n] == *intro);
                        if rang_de_l_unite(tous, id@) is Some {
                            let k = rang_de_l_unite(tous, id@)->0;
                            assert(tous[k].id@ == id@);
                        }
                    }
                    None
                }
            },
            None => {
                proof {
                    assert(tous =~= self.chapitres@);
                    if rang_de_l_unite(tous, id@) is Some {
                        let k = rang_de_l_unite(tous, id@)->0;
                        assert(tous[k].id@ == id@);
                    }
                }
                None
            },
        }
    }

    /// Le nombre de versets du livre, introduction non comprise.
    pub fn nombre_de_versets(&self) -> (r: u32)
        requires
            somme_des_versets(self.chapitres@) <= u32::MAX,
        ensures
            r == somme_des_versets(self.chapitres@),
    {
        let mut total: u32 = 0;
        let mut i: usize = 0;
        while i < self.chapitres.len()
            invariant
                i <= self.chapitres@.len(),
                total == somme_des_versets(self.chapitres@.take(i as int)),
                somme_des_versets(self.chapitres@) <= u32::MAX,
            decreases self.chapitres@.len() - i,
        {
            assert(self.chapitres@.take(i + 1).drop_last() =~= self.chapitres@.take(i as int));
            proof {
                lemme_somme_croit(self.chapitres@, i + 1);
            }
            total = total + self.chapitres[i].nombre_de_versets;
            i = i + 1;
        }
        assert(self.chapitres@.take(self.chapitres@.len() as int) =~= self.chapitres@);
        total
    }
}

/// Une ligne du sommaire : un livre, écrit ou non.
#[derive(Debug, Clone, PartialEq, Eq)]
pub struct EntreeDeLivre {
    pub id: String,
    pub titre: String,
    pub francais: String,
    pub hebreu: String,
    /// Vrai quand le livre porte du texte.
    pub ecrit: bool,
    /// Le nombre d'unités du livre.
    pub unites: u32,
}

/// Une section du sommaire.
#[derive(Debug, Clone, PartialEq, Eq)]
pub struct Section {
    pub id: String,
    pub titre: String,
    pub livres: Vec<EntreeDeLivre>,
}

/// Un ensemble du corpus — la Torah, les Prophètes, les Écrits.
#[derive(Debug, Clone, PartialEq, Eq)]
pub struct Ensemble {
    pub id: String,
    pub titre: String,
    pub sections: Vec<Section>,
}

/// Les livres écrits, dans l'ordre.
pub open spec fn ecrits(livres: Seq<EntreeDeLivre>) -> Seq<EntreeDeLivre>
    decreases livres.len(),
{
    if livres.len() == 0 {
        Seq::empty()
    } else if livres.last().ecrit {
        ecrits(livres.drop_last()).push(livres.last())
    } else {
        ecrits(livres.drop_last())
    }
}

/// Les livres écrits des sections, dans l'ordre.
pub open spec fn livres_ecrits_des(sections: Seq<Section>) -> Seq<EntreeDeLivre>
    decreases sections.len(),
{
    if sections.len() == 0 {
        Seq::empty()
    } else {
        livres_ecrits_des(sections.drop_last()) + ecrits(sections.last().livres@)
    }
}

impl Ensemble {
    /// Les livres écrits de l'ensemble, section après section.
    pub fn livres_ecrits(&self) -> (r: Vec<&EntreeDeLivre>)
        ensures
            r@.len() == livres_ecrits_des(self.sections@).len(),
            forall|k: int| 0 <= k < r@.len() ==> *r@[k] == livres_ecrits_des(self.sections@)[k],
    {
        let mut r: Vec<&EntreeDeLivre> = Vec::new();
        let mut i: usize = 0;
        while i < self.sections.len()
            invariant
                i <= self.sections@.len(),
                r@.len() == livres_ecrits_des(self.sections@.take(i as int)).len(),
                forall|k: int|
                    0 <= k < r@.len() ==> *r@[k] == livres_ecrits_des(self.sections@.take(i as int))[k],
            decreases self.sections@.len() - i,
        {
            let ghost avant = livres_ecrits_des(self.sections@.take(i as int));
            assert(self.sections@.take(i + 1).drop_last() =~= self.sections@.take(i as int));
            assert(self.sections@.take(i + 1).last() == self.sections@[i as int]);
            let livres = &self.sections[i].livres;
            let ghost f = ecrits(livres@);
            assert(livres_ecrits_des(self.sections@.take(i + 1)) == avant + f);
            let ghost debut = r@;
            let mut j: usize = 0;
            assert(ecrits(livres@.take(0)) =~= Seq::<EntreeDeLivre>::empty());
            while j < livres.len()
                invariant
                    j <= livres@.len(),
                    debut.len() == avant.len(),
                    forall|k: int| 0 <= k < debut.len() ==> *debut[k] == avant[k],
                    r@.len() == debut.len() + ecrits(livres@.take(j as int)).len(),
                    forall|k: int| 0 <= k < debut.len() ==> r@[k] == debut[k],
                    forall|k: int|
                        0 <= k < ecrits(livres@.take(j as int)).len()
                            ==> *r@[debut.len() + k] == #[trigger] ecrits(livres@.take(j as int))[k],
                decreases livres@.len() - j,
            {
                let ghost g = ecrits(livres@.take(j as int));
                assert(livres@.take(j + 1).drop_last() =~= livres@.take(j as int));
                assert(livres@.take(j + 1).last() == livres@[j as int]);
                if livres[j].ecrit {
                    r.push(&livres[j]);
                }
                j = j + 1;
            }
            assert(livres@.take(livres@.len() as int) =~= livres@);
            proof {
                let apres = livres_ecrits_des(self.sections@.take(i + 1));
                assert forall|k: int| 0 <= k < r@.len() implies *r@[k] == apres[k] by {
                    if k < debut.len() {
                        assert(apres[k] == avant[k]);
                    } else {
                        assert(*r@[debut.len() + (k - debut.len())] == f[k - debut.len()]);
                        assert(apres[k] == f[k - avant.len()]);
                    }
                }
            }
            i = i + 1;
        }
        assert(self.sections@.take(self.sections@.len() as int) =~= self.sections@);
        r
    }
}

/// Une fiche du lexique.
#[derive(Debug, Clone, PartialEq, Eq)]
pub struct Entree {
    pub lemme: String,
    pub titre: String,
    pub hebreu: String,
    pub rendu: String,
    pub formes: Vec<String>,
    pub definition: Vec<Bloc>,
}

/// Un endroit du corpus où un terme paraît.
#[derive(Debug, Clone, PartialEq, Eq)]
pub struct Occurrence {
    pub livre: String,
    pub chapitre: String,
    /// Le verset, quand le terme paraît dans un verset et non dans une note.
    pub verset: Option<u32>,
    pub forme: String,
    pub extrait: String,
}

} // verus!
