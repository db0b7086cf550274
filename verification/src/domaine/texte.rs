//! Les trois niveaux du texte ONT.
//!
//! | dans le `.md` | niveau | rendu |
//! |---|---|---|
//! | texte nu | 1 — le corps | encre |
//! | `**mot**` | intraduisible | or, et **cliquable** vers sa fiche |
//! | `==mot==` | accentuation | bordeaux clair, et **inerte** |
//! | `*[glose]*` | 2 | plus petit, encre atténuée |
//! | `(*translit* / hébreu)` | 3 | italique + Ezra SIL |
//!
//! L'arbre de nœuds est fidèle à ce que produit le pipeline : ce qui s'imbrique
//! dans le `.md` s'imbrique ici. Pour en parler dans les contrats, on le lit
//! comme un [`Arbre`] — la même forme, avec des suites au lieu de vecteurs.

use vstd::prelude::*;

use crate::domaine::lecture::{corps, plat, prepare, Preferences};

verus! {

/// Ce qu'une translittération de niveau 3 ouvre : une entrée du glossaire, ou
/// une fiche de Shem.
#[derive(Debug, Clone, PartialEq, Eq)]
pub enum CibleDuNiveauTrois {
    Terme(String),
    Shem(String),
}

/// Ce qu'une référence biblique désigne, quand le corpus porte le passage.
#[derive(Debug, Clone, PartialEq, Eq)]
pub struct CibleDeLaReference {
    /// Le livre qui porte l'unité — `bereshit`.
    pub livre: String,
    /// L'unité à ouvrir — `bereshit-7`.
    pub unite: String,
    /// Le verset à désigner en arrivant, quand le pipeline l'a confirmé.
    pub verset: Option<u32>,
}

/// L'étendue que la référence nomme.
#[derive(Debug, Clone, Copy, PartialEq, Eq)]
pub enum PorteeDeLaReference {
    /// `Genèse 3` — l'unité entière.
    Chapitre,
    /// `Genèse 3:24` — un verset.
    Verset { n: u32 },
    /// `Genèse 1:11-12` — une plage.
    Plage { premier: u32, dernier: u32 },
}

/// Un fragment de texte ONT.
#[derive(Debug, PartialEq, Eq)]
#[allow(inconsistent_fields)]
pub enum Noeud {
    /// Niveau 1 — ce que l'hébreu dit directement.
    Texte(String),
    /// Un intraduisible. `lemme` désigne sa fiche de lexique.
    Intraduisible { mot: String, lemme: String },
    /// Un Shem — un nom propre hébreu qui porte une fiche.
    Shem { mot: String, lemme: String },
    /// Une accentuation — marquée, mais sans fiche. Elle appartient au corps.
    Accentuation(Vec<Noeud>),
    /// Niveau 2 — ce que le champ sémantique hébreu porte implicitement.
    Glose(Vec<Noeud>),
    /// Niveau 3 — la translittération et l'hébreu, toujours les deux.
    Hebreu { translitteration: String, hebreu: String, cible: Option<CibleDuNiveauTrois> },
    /// Un renvoi vers une autre chuqqah. Il ne mène nulle part pour l'instant.
    Renvoi { libelle: String, cible: String },
    /// Une référence biblique.
    Reference {
        libelle: String,
        livre_cite: String,
        portee: PorteeDeLaReference,
        cible: Option<CibleDeLaReference>,
    },
    /// De l'hébreu seul, sans translittération.
    HebreuNu(String),
    /// Un lien vers l'extérieur.
    Lien { href: String, enfants: Vec<Noeud> },
    /// Une emphase ordinaire, dans une glose.
    Emphase(Vec<Noeud>),
    /// Un retour à la ligne dans un verset — la coupe d'un parallélisme.
    Saut,
}

/// Un verset, avec son numéro d'unité.
#[derive(Debug, Clone, PartialEq, Eq)]
pub struct Verset {
    pub numero: u32,
    pub noeuds: Vec<Noeud>,
}

impl Verset {
    /// Le corps seul — ce qu'on cite hors de la liseuse : sans gloses ni
    /// niveau 3, les blancs resserrés.
    pub fn corps(&self) -> (r: String)
        ensures
            r@ == plat(prepare(vues(self.noeuds@), Preferences::nu_spec())),
    {
        corps(self.noeuds.as_slice())
    }
}

/// La forme mathématique d'un nœud : les conteneurs portent des suites, les
/// textes des suites de caractères, et tout le reste est une feuille.
pub enum Arbre {
    Texte(Seq<char>),
    Accentuation(Seq<Arbre>),
    Glose(Seq<Arbre>),
    Emphase(Seq<Arbre>),
    Lien(Seq<char>, Seq<Arbre>),
    /// Tout nœud qui n'est ni un texte ni un conteneur.
    Feuille(Noeud),
}

/// Ce qu'est un nœud, lu comme un arbre.
pub open spec fn vue(n: Noeud) -> Arbre
    decreases n,
{
    match n {
        Noeud::Texte(t) => Arbre::Texte(t@),
        Noeud::Accentuation(e) => Arbre::Accentuation(vues(e@)),
        Noeud::Glose(e) => Arbre::Glose(vues(e@)),
        Noeud::Emphase(e) => Arbre::Emphase(vues(e@)),
        Noeud::Lien { href, enfants } => Arbre::Lien(href@, vues(enfants@)),
        _ => Arbre::Feuille(n),
    }
}

/// Une suite de nœuds, lue comme une suite d'arbres.
pub open spec fn vues(s: Seq<Noeud>) -> Seq<Arbre>
    decreases s,
{
    if s.len() == 0 {
        Seq::empty()
    } else {
        vues(s.drop_last()).push(vue(s.last()))
    }
}

/// `vues` se lit élément par élément.
pub proof fn lemme_vues(s: Seq<Noeud>)
    ensures
        vues(s).len() == s.len(),
        forall|i: int| 0 <= i < s.len() ==> #[trigger] vues(s)[i] == vue(s[i]),
    decreases s.len(),
{
    if s.len() > 0 {
        lemme_vues(s.drop_last());
        assert forall|i: int| 0 <= i < s.len() implies #[trigger] vues(s)[i] == vue(s[i]) by {
            if i < s.len() - 1 {
                assert(s.drop_last()[i] == s[i]);
            }
        }
    }
}

/// `vues` d'un préfixe prolongé d'un élément.
pub proof fn lemme_vues_take(s: Seq<Noeud>, i: int)
    requires
        0 <= i < s.len(),
    ensures
        vues(s.take(i + 1)) == vues(s.take(i)).push(vue(s[i])),
{
    assert(s.take(i + 1).drop_last() =~= s.take(i));
}

/// `vues` d'une suite prolongée.
pub proof fn lemme_vues_push(s: Seq<Noeud>, n: Noeud)
    ensures
        vues(s.push(n)) == vues(s).push(vue(n)),
{
    assert(s.push(n).drop_last() =~= s);
}

fn copier_texte(s: &String) -> (r: String)
    ensures
        r == *s,
{
    s.clone()
}

impl CibleDuNiveauTrois {
    /// Une copie à l'identique.
    pub fn copier(&self) -> (r: CibleDuNiveauTrois)
        ensures
            r == *self,
    {
        match self {
            CibleDuNiveauTrois::Terme(l) => CibleDuNiveauTrois::Terme(copier_texte(l)),
            CibleDuNiveauTrois::Shem(l) => CibleDuNiveauTrois::Shem(copier_texte(l)),
        }
    }
}

impl CibleDeLaReference {
    /// Une copie à l'identique.
    pub fn copier(&self) -> (r: CibleDeLaReference)
        ensures
            r == *self,
    {
        CibleDeLaReference {
            livre: copier_texte(&self.livre),
            unite: copier_texte(&self.unite),
            verset: self.verset,
        }
    }
}

impl Clone for Noeud {
    /// Une copie qui se lit comme sa source.
    fn clone(&self) -> (r: Self)
        ensures
            vue(r) == vue(*self),
    {
        copier_noeud(self)
    }
}

/// Une copie d'une suite de nœuds, qui se lit comme sa source.
pub fn copier_noeuds(s: &[Noeud]) -> (r: Vec<Noeud>)
    ensures
        vues(r@) == vues(s@),
    decreases s@,
{
    let mut r: Vec<Noeud> = Vec::new();
    let mut i: usize = 0;
    while i < s.len()
        invariant
            i <= s@.len(),
            vues(r@) == vues(s@.take(i as int)),
        decreases s@.len() - i,
    {
        proof {
            assert(decreases_to!(s@ => s@[i as int]));
        }
        let n = copier_noeud(&s[i]);
        proof {
            lemme_vues_push(r@, n);
            lemme_vues_take(s@, i as int);
        }
        r.push(n);
        i = i + 1;
    }
    assert(s@.take(s@.len() as int) =~= s@);
    r
}

/// Une copie d'un nœud, qui se lit comme sa source.
pub fn copier_noeud(n: &Noeud) -> (r: Noeud)
    ensures
        vue(r) == vue(*n),
    decreases *n,
{
    match n {
        Noeud::Texte(t) => Noeud::Texte(copier_texte(t)),
        Noeud::Intraduisible { mot, lemme } => Noeud::Intraduisible {
            mot: copier_texte(mot),
            lemme: copier_texte(lemme),
        },
        Noeud::Shem { mot, lemme } => Noeud::Shem { mot: copier_texte(mot), lemme: copier_texte(lemme) },
        Noeud::Accentuation(e) => Noeud::Accentuation(copier_noeuds(e.as_slice())),
        Noeud::Glose(e) => Noeud::Glose(copier_noeuds(e.as_slice())),
        Noeud::Emphase(e) => Noeud::Emphase(copier_noeuds(e.as_slice())),
        Noeud::Lien { href, enfants } => Noeud::Lien {
            href: copier_texte(href),
            enfants: copier_noeuds(enfants.as_slice()),
        },
        Noeud::Hebreu { translitteration, hebreu, cible } => Noeud::Hebreu {
            translitteration: copier_texte(translitteration),
            hebreu: copier_texte(hebreu),
            cible: match cible {
                Some(c) => Some(c.copier()),
                None => None,
            },
        },
        Noeud::Renvoi { libelle, cible } => Noeud::Renvoi {
            libelle: copier_texte(libelle),
            cible: copier_texte(cible),
        },
        Noeud::Reference { libelle, livre_cite, portee, cible } => Noeud::Reference {
            libelle: copier_texte(libelle),
            livre_cite: copier_texte(livre_cite),
            portee: *portee,
            cible: match cible {
                Some(c) => Some(c.copier()),
                None => None,
            },
        },
        Noeud::HebreuNu(h) => Noeud::HebreuNu(copier_texte(h)),
        Noeud::Saut => Noeud::Saut,
    }
}

} // verus!
