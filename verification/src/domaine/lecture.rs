//! Les réglages de lecture — éteindre les niveaux du texte.
//!
//! Le corps de la traduction ne s'éteint jamais. Ce qui s'éteint, c'est
//! l'appareil critique : la glose qui explicite l'implicite hébreu, et le mot
//! original avec sa translittération. Ni les intraduisibles ni les
//! accentuations ne se règlent : ils appartiennent au corps.
//!
//! Retirer un nœud laisse ses blancs derrière lui ; le vrai travail est donc le
//! nettoyage qui suit — fondre les textes devenus voisins, puis resserrer leurs
//! blancs selon la typographie française.

use vstd::prelude::*;

use crate::chaines::{
    blanc, caracteres, chaine, commence, commence_par, est_blanc, memes, retirer_fin_de,
    sans_fin_de,
};
use crate::domaine::texte::{copier_noeud, lemme_vues_push, lemme_vues_take, vue, vues, Arbre, Noeud};

verus! {

/// La peau de la page — les quatre thèmes de la liseuse de l'app.
#[derive(Debug, Clone, Copy, PartialEq, Eq, Structural)]
pub enum Theme {
    /// Le papier de l'app.
    Parchemin,
    /// Le blanc franc.
    Clair,
    /// Le gris neutre.
    Sombre,
    /// La nuit d'aubergine — la peau de ce site, et son défaut.
    Mystique,
}

impl Theme {
    /// Les bornes du corps, reprises du curseur de l'app.
    pub const CORPS_MINIMUM: u8 = 11;
    pub const CORPS_MAXIMUM: u8 = 28;
    pub const CORPS_PAR_DEFAUT: u8 = 19;

    /// Ce que porte `<html data-theme="…">`.
    pub open spec fn attribut_spec(self) -> Seq<char> {
        match self {
            Theme::Parchemin => "parchemin"@,
            Theme::Clair => "clair"@,
            Theme::Sombre => "sombre"@,
            Theme::Mystique => "mystique"@,
        }
    }

    /// Ce que porte `<html data-theme="…">`, et donc le sélecteur des jetons.
    pub fn attribut(self) -> (r: &'static str)
        ensures
            r@ == self.attribut_spec(),
    {
        match self {
            Theme::Parchemin => "parchemin",
            Theme::Clair => "clair",
            Theme::Sombre => "sombre",
            Theme::Mystique => "mystique",
        }
    }

    /// Le nom dans le menu, capitale comprise.
    pub open spec fn libelle_spec(self) -> Seq<char> {
        match self {
            Theme::Parchemin => "Parchemin"@,
            Theme::Clair => "Clair"@,
            Theme::Sombre => "Sombre"@,
            Theme::Mystique => "Mystique"@,
        }
    }

    /// Le nom dans le menu — celui de l'app, capitale comprise.
    pub fn libelle(self) -> (r: &'static str)
        ensures
            r@ == self.libelle_spec(),
    {
        match self {
            Theme::Parchemin => "Parchemin",
            Theme::Clair => "Clair",
            Theme::Sombre => "Sombre",
            Theme::Mystique => "Mystique",
        }
    }

    /// Les quatre, dans l'ordre du menu de l'app.
    pub fn tous() -> (r: [Theme; 4])
        ensures
            r@ == seq![Theme::Parchemin, Theme::Clair, Theme::Sombre, Theme::Mystique],
    {
        [Theme::Parchemin, Theme::Clair, Theme::Sombre, Theme::Mystique]
    }
}

/// La fonte du corps — les sept de l'app.
#[derive(Debug, Clone, Copy, PartialEq, Eq, Structural)]
pub enum Fonte {
    Literata,
    EbGaramond,
    Spectral,
    SourceSerif,
    Newsreader,
    Jost,
    Georgia,
}

impl Fonte {
    /// Les sept, dans l'ordre du menu de l'app.
    pub fn toutes() -> (r: [Fonte; 7])
        ensures
            r@ == seq![
                Fonte::Literata,
                Fonte::EbGaramond,
                Fonte::Spectral,
                Fonte::SourceSerif,
                Fonte::Newsreader,
                Fonte::Jost,
                Fonte::Georgia,
            ],
    {
        [
            Fonte::Literata,
            Fonte::EbGaramond,
            Fonte::Spectral,
            Fonte::SourceSerif,
            Fonte::Newsreader,
            Fonte::Jost,
            Fonte::Georgia,
        ]
    }

    /// Ce que porte `<html data-fonte="…">`.
    pub open spec fn attribut_spec(self) -> Seq<char> {
        match self {
            Fonte::Literata => "literata"@,
            Fonte::EbGaramond => "eb-garamond"@,
            Fonte::Spectral => "spectral"@,
            Fonte::SourceSerif => "source-serif"@,
            Fonte::Newsreader => "newsreader"@,
            Fonte::Jost => "jost"@,
            Fonte::Georgia => "georgia"@,
        }
    }

    /// Ce que porte `<html data-fonte="…">`, et donc le sélecteur de la feuille.
    pub fn attribut(self) -> (r: &'static str)
        ensures
            r@ == self.attribut_spec(),
    {
        match self {
            Fonte::Literata => "literata",
            Fonte::EbGaramond => "eb-garamond",
            Fonte::Spectral => "spectral",
            Fonte::SourceSerif => "source-serif",
            Fonte::Newsreader => "newsreader",
            Fonte::Jost => "jost",
            Fonte::Georgia => "georgia",
        }
    }

    /// Le nom dans le menu.
    pub open spec fn libelle_spec(self) -> Seq<char> {
        match self {
            Fonte::Literata => "Literata"@,
            Fonte::EbGaramond => "EB Garamond"@,
            Fonte::Spectral => "Spectral"@,
            Fonte::SourceSerif => "Source Serif"@,
            Fonte::Newsreader => "Newsreader"@,
            Fonte::Jost => "Jost"@,
            Fonte::Georgia => "Georgia"@,
        }
    }

    /// Le nom dans le menu — celui de l'app, à la lettre.
    pub fn libelle(self) -> (r: &'static str)
        ensures
            r@ == self.libelle_spec(),
    {
        match self {
            Fonte::Literata => "Literata",
            Fonte::EbGaramond => "EB Garamond",
            Fonte::Spectral => "Spectral",
            Fonte::SourceSerif => "Source Serif",
            Fonte::Newsreader => "Newsreader",
            Fonte::Jost => "Jost",
            Fonte::Georgia => "Georgia",
        }
    }

    /// Ce que la fonte apporte, en une ligne.
    pub open spec fn note_spec(self) -> Seq<char> {
        match self {
            Fonte::Literata => "Dessinée pour la lecture longue à l'écran"@,
            Fonte::EbGaramond => "La lettre du livre imprimé classique"@,
            Fonte::Spectral => "Ouverte et franche, tient les petites tailles"@,
            Fonte::SourceSerif => "Neutre, elle s'efface derrière le texte"@,
            Fonte::Newsreader => "Étroite, plus de texte par écran"@,
            Fonte::Jost => "Géométrique — la fonte de l'édition imprimée"@,
            Fonte::Georgia => "La fonte du système, robuste et familière"@,
        }
    }

    /// Ce que la fonte apporte, en une ligne — les phrases de l'app.
    pub fn note(self) -> (r: &'static str)
        ensures
            r@ == self.note_spec(),
    {
        match self {
            Fonte::Literata => "Dessinée pour la lecture longue à l'écran",
            Fonte::EbGaramond => "La lettre du livre imprimé classique",
            Fonte::Spectral => "Ouverte et franche, tient les petites tailles",
            Fonte::SourceSerif => "Neutre, elle s'efface derrière le texte",
            Fonte::Newsreader => "Étroite, plus de texte par écran",
            Fonte::Jost => "Géométrique — la fonte de l'édition imprimée",
            Fonte::Georgia => "La fonte du système, robuste et familière",
        }
    }
}

/// Ce que le lecteur a choisi de voir.
#[derive(Debug, Clone, Copy, PartialEq, Eq, Structural)]
pub struct Preferences {
    /// Niveau 2 — ce que le champ sémantique hébreu portait implicitement.
    pub gloses: bool,
    /// Niveau 3 — la translittération et l'hébreu.
    pub niveau_3: bool,
    /// Les versets coulent en prose, numéros en exposant.
    pub continu: bool,
    /// Nommer les livres et les sections dans le français reçu.
    pub francais: bool,
    /// La taille du corps, dans l'unité de l'app (11 à 28).
    pub corps: u8,
    /// La peau de la page.
    pub theme: Theme,
    /// La fonte du corps.
    pub fonte: Fonte,
}

impl Default for Preferences {
    /// Tout est montré, et les versets se tiennent séparés.
    fn default() -> (r: Self)
        ensures
            r.francais && r.gloses && r.niveau_3 && !r.continu,
            r.theme == Theme::Mystique,
            r.corps == Theme::CORPS_PAR_DEFAUT,
            r.fonte == Fonte::Literata,
    {
        Preferences {
            francais: true,
            gloses: true,
            niveau_3: true,
            continu: false,
            theme: Theme::Mystique,
            corps: Theme::CORPS_PAR_DEFAUT,
            fonte: Fonte::Literata,
        }
    }
}

impl Preferences {
    /// Le corps seul — ni glose, ni translittération.
    pub open spec fn nu_spec() -> Preferences {
        Preferences {
            francais: true,
            gloses: false,
            niveau_3: false,
            continu: false,
            theme: Theme::Mystique,
            corps: Theme::CORPS_PAR_DEFAUT,
            fonte: Fonte::Literata,
        }
    }

    /// Le corps seul — ce qu'emploie une citation hors de la liseuse.
    pub fn nu() -> (r: Self)
        ensures
            r == Preferences::nu_spec(),
    {
        Preferences {
            francais: true,
            gloses: false,
            niveau_3: false,
            continu: false,
            theme: Theme::Mystique,
            corps: Theme::CORPS_PAR_DEFAUT,
            fonte: Fonte::Literata,
        }
    }
}

// ───────────────────────── la liseuse ───────────────────────────────────────

/// Les chemins où la peau du lecteur s'applique : `/fr/lire` et `/fr/lexique`.
pub open spec fn liseuse() -> Seq<Seq<char>> {
    seq!["/fr/lire"@, "/fr/lexique"@]
}

/// Les chemins où la peau du lecteur s'applique.
pub fn la_liseuse() -> (r: [&'static str; 2])
    ensures
        r@.map_values(|s: &str| s@) == liseuse(),
{
    let r = ["/fr/lire", "/fr/lexique"];
    assert(r@.map_values(|s: &str| s@) =~= liseuse());
    r
}

/// La peau du lecteur s'applique-t-elle à ce chemin ? Le chemin exact, ou le
/// préfixe suivi d'une barre — jamais un préfixe nu. Les barres finales ne
/// comptent pas.
pub open spec fn est_la_liseuse(chemin: Seq<char>) -> bool {
    let c = sans_fin_de(chemin, '/');
    exists|i: int|
        0 <= i < liseuse().len() && (c == #[trigger] liseuse()[i] || commence_par(
            c,
            liseuse()[i].push('/'),
        ))
}

fn sous_la_liseuse(c: &[char], prefixe: &str) -> (r: bool)
    ensures
        r == (c@ == prefixe@ || commence_par(c@, prefixe@.push('/'))),
{
    let mut p = caracteres(prefixe);
    if memes(c, p.as_slice()) {
        return true;
    }
    p.push('/');
    commence(c, p.as_slice())
}

/// La peau du lecteur s'applique-t-elle à ce chemin ?
pub fn c_est_la_liseuse(chemin: &str) -> (r: bool)
    ensures
        r == est_la_liseuse(chemin@),
{
    let brut = caracteres(chemin);
    let c = retirer_fin_de(brut.as_slice(), '/');
    let lire = sous_la_liseuse(c.as_slice(), "/fr/lire");
    let lexique = sous_la_liseuse(c.as_slice(), "/fr/lexique");
    proof {
        let s = sans_fin_de(chemin@, '/');
        if lire {
            assert(liseuse()[0] == "/fr/lire"@);
        }
        if lexique {
            assert(liseuse()[1] == "/fr/lexique"@);
        }
        if est_la_liseuse(chemin@) {
            let i = choose|i: int|
                0 <= i < liseuse().len() && (s == #[trigger] liseuse()[i] || commence_par(
                    s,
                    liseuse()[i].push('/'),
                ));
            assert(i == 0 || i == 1);
        }
    }
    lire || lexique
}

/// La barre finale est sans effet sur la peau.
pub proof fn loi_la_barre_finale_est_sans_effet(chemin: Seq<char>)
    ensures
        est_la_liseuse(chemin.push('/')) == est_la_liseuse(chemin),
{
    assert(chemin.push('/').drop_last() =~= chemin);
}

} // verus!

verus! {

// ───────────────────────── retirer ──────────────────────────────────────────

/// Vrai quand les réglages éteignent ce nœud : une glose sans le niveau 2, un
/// hébreu sans le niveau 3.
pub open spec fn eteint(a: Arbre, gloses: bool, niveau_3: bool) -> bool {
    match a {
        Arbre::Glose(_) => !gloses,
        Arbre::Feuille(Noeud::Hebreu { .. }) => !niveau_3,
        Arbre::Feuille(Noeud::HebreuNu(_)) => !niveau_3,
        _ => false,
    }
}

/// Un nœud conservé, dont les enfants sont nettoyés.
pub open spec fn retire_un(a: Arbre, gloses: bool, niveau_3: bool) -> Arbre
    decreases a,
{
    match a {
        Arbre::Glose(e) => Arbre::Glose(retire(e, gloses, niveau_3)),
        Arbre::Accentuation(e) => Arbre::Accentuation(retire(e, gloses, niveau_3)),
        Arbre::Emphase(e) => Arbre::Emphase(retire(e, gloses, niveau_3)),
        Arbre::Lien(h, e) => Arbre::Lien(h, retire(e, gloses, niveau_3)),
        _ => a,
    }
}

/// Les nœuds éteints retirés, à toute profondeur.
pub open spec fn retire(s: Seq<Arbre>, gloses: bool, niveau_3: bool) -> Seq<Arbre>
    decreases s,
{
    if s.len() == 0 {
        Seq::empty()
    } else {
        let avant = retire(s.drop_last(), gloses, niveau_3);
        if eteint(s.last(), gloses, niveau_3) {
            avant
        } else {
            avant.push(retire_un(s.last(), gloses, niveau_3))
        }
    }
}

proof fn lemme_retire_push(s: Seq<Arbre>, a: Arbre, g: bool, n3: bool)
    ensures
        retire(s.push(a), g, n3) == if eteint(a, g, n3) {
            retire(s, g, n3)
        } else {
            retire(s, g, n3).push(retire_un(a, g, n3))
        },
{
    assert(s.push(a).drop_last() =~= s);
}

fn retirer_suite(noeuds: &[Noeud], gloses: bool, niveau_3: bool) -> (r: Vec<Noeud>)
    ensures
        vues(r@) == retire(vues(noeuds@), gloses, niveau_3),
    decreases noeuds@,
{
    let mut r: Vec<Noeud> = Vec::new();
    let mut i: usize = 0;
    while i < noeuds.len()
        invariant
            i <= noeuds@.len(),
            vues(r@) == retire(vues(noeuds@.take(i as int)), gloses, niveau_3),
        decreases noeuds@.len() - i,
    {
        let n = &noeuds[i];
        proof {
            assert(decreases_to!(noeuds@ => noeuds@[i as int]));
            lemme_vues_take(noeuds@, i as int);
            lemme_retire_push(vues(noeuds@.take(i as int)), vue(*n), gloses, niveau_3);
        }
        let garde: Option<Noeud> = match n {
            Noeud::Glose(e) => {
                if gloses {
                    Some(Noeud::Glose(retirer_suite(e.as_slice(), gloses, niveau_3)))
                } else {
                    None
                }
            },
            Noeud::Hebreu { .. } => {
                if niveau_3 {
                    Some(copier_noeud(n))
                } else {
                    None
                }
            },
            Noeud::HebreuNu(_) => {
                if niveau_3 {
                    Some(copier_noeud(n))
                } else {
                    None
                }
            },
            Noeud::Accentuation(e) => Some(
                Noeud::Accentuation(retirer_suite(e.as_slice(), gloses, niveau_3)),
            ),
            Noeud::Emphase(e) => Some(Noeud::Emphase(retirer_suite(e.as_slice(), gloses, niveau_3))),
            Noeud::Lien { href, enfants } => Some(
                Noeud::Lien {
                    href: href.clone(),
                    enfants: retirer_suite(enfants.as_slice(), gloses, niveau_3),
                },
            ),
            _ => Some(copier_noeud(n)),
        };
        match garde {
            Some(m) => {
                proof {
                    lemme_vues_push(r@, m);
                }
                r.push(m);
            },
            None => {},
        }
        i = i + 1;
    }
    assert(noeuds@.take(noeuds@.len() as int) =~= noeuds@);
    r
}

// ───────────────────────── fondre ───────────────────────────────────────────

/// Un nœud dont les enfants sont fondus.
pub open spec fn fond_un(a: Arbre) -> Arbre
    decreases a,
{
    match a {
        Arbre::Glose(e) => Arbre::Glose(fond(e)),
        Arbre::Accentuation(e) => Arbre::Accentuation(fond(e)),
        Arbre::Emphase(e) => Arbre::Emphase(fond(e)),
        Arbre::Lien(h, e) => Arbre::Lien(h, fond(e)),
        _ => a,
    }
}

/// Ajoute un nœud : deux textes voisins n'en font qu'un.
pub open spec fn colle(r: Seq<Arbre>, n: Arbre) -> Seq<Arbre> {
    if r.len() > 0 {
        match (r.last(), n) {
            (Arbre::Texte(a), Arbre::Texte(b)) => r.drop_last().push(Arbre::Texte(a + b)),
            _ => r.push(n),
        }
    } else {
        r.push(n)
    }
}

/// Les fragments de texte devenus voisins fondus en un seul, à toute
/// profondeur.
pub open spec fn fond(s: Seq<Arbre>) -> Seq<Arbre>
    decreases s,
{
    if s.len() == 0 {
        Seq::empty()
    } else {
        colle(fond(s.drop_last()), fond_un(s.last()))
    }
}

fn est_texte(n: &Noeud) -> (r: bool)
    ensures
        r == (vue(*n) is Texte),
{
    match n {
        Noeud::Texte(_) => true,
        _ => false,
    }
}

fn fondre_suite(noeuds: &[Noeud]) -> (r: Vec<Noeud>)
    ensures
        vues(r@) == fond(vues(noeuds@)),
    decreases noeuds@,
{
    let mut r: Vec<Noeud> = Vec::new();
    let mut i: usize = 0;
    while i < noeuds.len()
        invariant
            i <= noeuds@.len(),
            vues(r@) == fond(vues(noeuds@.take(i as int))),
        decreases noeuds@.len() - i,
    {
        let n = &noeuds[i];
        proof {
            assert(decreases_to!(noeuds@ => noeuds@[i as int]));
            lemme_vues_take(noeuds@, i as int);
            let s = vues(noeuds@.take(i as int));
            assert(s.push(vue(*n)).drop_last() =~= s);
        }
        let m: Noeud = match n {
            Noeud::Glose(e) => Noeud::Glose(fondre_suite(e.as_slice())),
            Noeud::Accentuation(e) => Noeud::Accentuation(fondre_suite(e.as_slice())),
            Noeud::Emphase(e) => Noeud::Emphase(fondre_suite(e.as_slice())),
            Noeud::Lien { href, enfants } => Noeud::Lien {
                href: href.clone(),
                enfants: fondre_suite(enfants.as_slice()),
            },
            _ => copier_noeud(n),
        };
        assert(vue(m) == fond_un(vue(*n)));
        let ghost avant = r@;
        let dernier_texte = r.len() > 0 && est_texte(&r[r.len() - 1]);
        if dernier_texte {
            match m {
                Noeud::Texte(b) => {
                    proof {
                        assert(avant =~= avant.drop_last().push(avant.last()));
                        lemme_vues_push(avant.drop_last(), avant.last());
                    }
                    let precedent = r.pop();
                    match precedent {
                        Some(Noeud::Texte(mut a)) => {
                            a.append(b.as_str());
                            let fusion = Noeud::Texte(a);
                            proof {
                                lemme_vues_push(r@, fusion);
                            }
                            r.push(fusion);
                        },
                        Some(autre) => {
                            r.push(autre);
                        },
                        None => {},
                    }
                },
                m => {
                    proof {
                        lemme_vues_push(r@, m);
                    }
                    r.push(m);
                },
            }
        } else {
            proof {
                lemme_vues_push(r@, m);
                if avant.len() > 0 {
                    assert(avant =~= avant.drop_last().push(avant.last()));
                    lemme_vues_push(avant.drop_last(), avant.last());
                }
            }
            r.push(m);
        }
        i = i + 1;
    }
    assert(noeuds@.take(noeuds@.len() as int) =~= noeuds@);
    r
}

} // verus!

verus! {

// ───────────────────────── resserrer ────────────────────────────────────────

/// Vrai devant la ponctuation qui ne veut pas d'espace avant elle.
pub open spec fn ferme(c: char) -> bool {
    c == ',' || c == '.' || c == ')' || c == ']' || c == '…'
}

/// Ce qu'a produit le parcours d'un texte : la sortie, et un blanc en attente.
pub open spec fn etat(t: Seq<char>, premier: bool) -> (Seq<char>, bool)
    decreases t.len(),
{
    if t.len() == 0 {
        (Seq::empty(), false)
    } else {
        let (sortie, attente) = etat(t.drop_last(), premier);
        let c = t.last();
        if blanc(c) {
            (sortie, true)
        } else if attente {
            let sortie = if !ferme(c) && !(premier && sortie.len() == 0) {
                sortie.push(' ')
            } else {
                sortie
            };
            (sortie.push(c), false)
        } else {
            (sortie.push(c), false)
        }
    }
}

/// Un texte resserré : une suite de blancs devient une espace, l'espace tombe
/// devant `, . ) ] …`, et ni le premier fragment ne commence ni le dernier ne
/// finit par un blanc.
pub open spec fn resserre_texte(t: Seq<char>, premier: bool, dernier: bool) -> Seq<char> {
    let (sortie, attente) = etat(t, premier);
    if attente && !dernier && !(premier && sortie.len() == 0) {
        sortie.push(' ')
    } else {
        sortie
    }
}

/// Le rang du dernier élément — zéro pour une suite vide.
pub open spec fn dernier_rang(len: nat) -> nat {
    if len == 0 {
        0
    } else {
        (len - 1) as nat
    }
}

/// Vrai pour un fragment de texte vide, qui n'a plus rien à faire là.
pub open spec fn texte_vide(a: Arbre) -> bool {
    match a {
        Arbre::Texte(t) => t.len() == 0,
        _ => false,
    }
}

/// Un nœud resserré, selon sa place.
pub open spec fn resserre_un(a: Arbre, premier: bool, dernier: bool) -> Arbre
    decreases a, 0nat,
{
    match a {
        Arbre::Texte(t) => Arbre::Texte(resserre_texte(t, premier, dernier)),
        Arbre::Glose(e) => Arbre::Glose(resserre_pref(e, e.len())),
        Arbre::Accentuation(e) => Arbre::Accentuation(resserre_pref(e, e.len())),
        Arbre::Emphase(e) => Arbre::Emphase(resserre_pref(e, e.len())),
        Arbre::Lien(h, e) => Arbre::Lien(h, resserre_pref(e, e.len())),
        _ => a,
    }
}

/// Les `k` premiers nœuds resserrés, les textes devenus vides écartés.
pub open spec fn resserre_pref(s: Seq<Arbre>, k: nat) -> Seq<Arbre>
    decreases s, k,
{
    if k == 0 || k > s.len() {
        Seq::empty()
    } else {
        let avant = resserre_pref(s, (k - 1) as nat);
        let x = resserre_un(s[k - 1], k - 1 == 0, k - 1 == dernier_rang(s.len()));
        if texte_vide(x) {
            avant
        } else {
            avant.push(x)
        }
    }
}

/// Les blancs resserrés, à toute profondeur.
pub open spec fn resserre(s: Seq<Arbre>) -> Seq<Arbre> {
    resserre_pref(s, s.len())
}

fn est_ferme(c: char) -> (r: bool)
    ensures
        r == ferme(c),
{
    c == ',' || c == '.' || c == ')' || c == ']' || c == '…'
}

/// Resserre les blancs d'un fragment de texte.
pub fn resserrer_texte(texte: &str, premier: bool, dernier: bool) -> (r: String)
    ensures
        r@ == resserre_texte(texte@, premier, dernier),
{
    let t = caracteres(texte);
    let mut sortie: Vec<char> = Vec::new();
    let mut attente = false;
    let mut i: usize = 0;
    while i < t.len()
        invariant
            i <= t@.len(),
            t@ == texte@,
            (sortie@, attente) == etat(t@.take(i as int), premier),
        decreases t@.len() - i,
    {
        let c = t[i];
        assert(t@.take(i + 1).drop_last() =~= t@.take(i as int));
        if est_blanc(c) {
            attente = true;
        } else {
            if attente {
                attente = false;
                if !est_ferme(c) && !(premier && sortie.len() == 0) {
                    sortie.push(' ');
                }
            }
            sortie.push(c);
        }
        i = i + 1;
    }
    assert(t@.take(t@.len() as int) =~= t@);
    if attente && !dernier && !(premier && sortie.len() == 0) {
        sortie.push(' ');
    }
    chaine(sortie.as_slice())
}

fn resserrer_suite(noeuds: &[Noeud]) -> (r: Vec<Noeud>)
    ensures
        vues(r@) == resserre(vues(noeuds@)),
    decreases noeuds@,
{
    let n_total = noeuds.len();
    let dernier: usize = if n_total == 0 { 0 } else { n_total - 1 };
    let ghost s = vues(noeuds@);
    proof {
        crate::domaine::texte::lemme_vues(noeuds@);
    }
    let mut r: Vec<Noeud> = Vec::new();
    let mut i: usize = 0;
    while i < n_total
        invariant
            n_total == noeuds@.len(),
            dernier == dernier_rang(n_total as nat),
            s == vues(noeuds@),
            s.len() == noeuds@.len(),
            forall|j: int| 0 <= j < noeuds@.len() ==> #[trigger] s[j] == vue(noeuds@[j]),
            i <= n_total,
            vues(r@) == resserre_pref(s, i as nat),
        decreases n_total - i,
    {
        let n = &noeuds[i];
        proof {
            assert(decreases_to!(noeuds@ => noeuds@[i as int]));
            assert(s[i as int] == vue(*n));
        }
        let m: Noeud = match n {
            Noeud::Texte(t) => Noeud::Texte(resserrer_texte(t.as_str(), i == 0, i == dernier)),
            Noeud::Glose(e) => Noeud::Glose(resserrer_suite(e.as_slice())),
            Noeud::Accentuation(e) => Noeud::Accentuation(resserrer_suite(e.as_slice())),
            Noeud::Emphase(e) => Noeud::Emphase(resserrer_suite(e.as_slice())),
            Noeud::Lien { href, enfants } => Noeud::Lien {
                href: href.clone(),
                enfants: resserrer_suite(enfants.as_slice()),
            },
            _ => copier_noeud(n),
        };
        assert(vue(m) == resserre_un(s[i as int], i == 0, i == dernier));
        let vide = match &m {
            Noeud::Texte(t) => t.as_str().is_empty(),
            _ => false,
        };
        if !vide {
            proof {
                lemme_vues_push(r@, m);
            }
            r.push(m);
        }
        i = i + 1;
    }
    r
}

/// Applique les réglages à un arbre de nœuds : retirer les nœuds éteints,
/// fondre les textes devenus voisins, resserrer les blancs.
pub open spec fn prepare(s: Seq<Arbre>, p: Preferences) -> Seq<Arbre> {
    resserre(fond(retire(s, p.gloses, p.niveau_3)))
}

/// Applique les réglages à un arbre de nœuds.
pub fn preparer(noeuds: &[Noeud], preferences: Preferences) -> (r: Vec<Noeud>)
    ensures
        vues(r@) == prepare(vues(noeuds@), preferences),
{
    let a = retirer_suite(noeuds, preferences.gloses, preferences.niveau_3);
    let b = fondre_suite(a.as_slice());
    resserrer_suite(b.as_slice())
}

} // verus!

verus! {

// ───────────────────────── le corps, en texte plat ──────────────────────────

/// Un nœud aplati : le texte, les mots du corps, les enfants des conteneurs du
/// corps ; rien des gloses ni de l'hébreu ; une espace pour un saut.
pub open spec fn plat_un(a: Arbre) -> Seq<char>
    decreases a,
{
    match a {
        Arbre::Texte(t) => t,
        Arbre::Accentuation(e) => plat(e),
        Arbre::Emphase(e) => plat(e),
        Arbre::Lien(_, e) => plat(e),
        Arbre::Glose(_) => Seq::empty(),
        Arbre::Feuille(n) => match n {
            Noeud::Intraduisible { mot, .. } => mot@,
            Noeud::Shem { mot, .. } => mot@,
            Noeud::Renvoi { libelle, .. } => libelle@,
            Noeud::Reference { libelle, .. } => libelle@,
            Noeud::Saut => seq![' '],
            _ => Seq::empty(),
        },
    }
}

/// Une suite de nœuds aplatie.
pub open spec fn plat(s: Seq<Arbre>) -> Seq<char>
    decreases s,
{
    if s.len() == 0 {
        Seq::empty()
    } else {
        plat(s.drop_last()) + plat_un(s.last())
    }
}

fn aplatir(noeuds: &[Noeud], sortie: &mut String)
    ensures
        final(sortie)@ == old(sortie)@ + plat(vues(noeuds@)),
    decreases noeuds@,
{
    let ghost debut = sortie@;
    let mut i: usize = 0;
    while i < noeuds.len()
        invariant
            i <= noeuds@.len(),
            sortie@ == debut + plat(vues(noeuds@.take(i as int))),
        decreases noeuds@.len() - i,
    {
        let n = &noeuds[i];
        proof {
            assert(decreases_to!(noeuds@ => noeuds@[i as int]));
            lemme_vues_take(noeuds@, i as int);
            let s = vues(noeuds@.take(i as int));
            assert(s.push(vue(*n)).drop_last() =~= s);
        }
        let ghost avant = sortie@;
        match n {
            Noeud::Texte(t) => sortie.append(t.as_str()),
            Noeud::Intraduisible { mot, .. } => sortie.append(mot.as_str()),
            Noeud::Shem { mot, .. } => sortie.append(mot.as_str()),
            Noeud::Renvoi { libelle, .. } => sortie.append(libelle.as_str()),
            Noeud::Reference { libelle, .. } => sortie.append(libelle.as_str()),
            Noeud::Accentuation(e) => aplatir(e.as_slice(), sortie),
            Noeud::Emphase(e) => aplatir(e.as_slice(), sortie),
            Noeud::Lien { enfants, .. } => aplatir(enfants.as_slice(), sortie),
            Noeud::Saut => crate::chaines::pousser(sortie, ' '),
            _ => {},
        }
        assert(sortie@ =~= avant + plat_un(vue(*n)));
        assert(debut + plat(vues(noeuds@.take(i + 1))) =~= debut + plat(vues(noeuds@.take(i as int)))
            + plat_un(vue(*n)));
        i = i + 1;
    }
    assert(noeuds@.take(noeuds@.len() as int) =~= noeuds@);
}

/// Le corps d'une suite de nœuds, en texte plat : ce qu'on cite hors de la
/// liseuse — les réglages nus, puis l'aplatissement.
pub fn corps(noeuds: &[Noeud]) -> (r: String)
    ensures
        r@ == plat(prepare(vues(noeuds@), Preferences::nu_spec())),
{
    let prepares = preparer(noeuds, Preferences::nu());
    let mut sortie = String::new();
    aplatir(prepares.as_slice(), &mut sortie);
    assert(sortie@ =~= plat(vues(prepares@)));
    sortie
}

} // verus!

verus! {

// ───────────────────────── les lois de la liseuse ───────────────────────────

proof fn lemme_plat_concat(a: Seq<Arbre>, b: Seq<Arbre>)
    ensures
        plat(a + b) == plat(a) + plat(b),
    decreases b.len(),
{
    if b.len() == 0 {
        assert(a + b =~= a);
    } else {
        lemme_plat_concat(a, b.drop_last());
        assert((a + b).drop_last() =~= a + b.drop_last());
        assert((a + b).last() == b.last());
    }
}

/// **Le corps garde chaque mot à sa place** : aplatir une suite où se trouve
/// un nœud donne l'aplati de ce qui le précède, puis ses mots, puis l'aplati
/// de ce qui le suit — un texte ses lettres, un intraduisible ou un Shem son
/// mot, un renvoi ou une référence son libellé (« comme il est dit en Genèse
/// 9:27. » reste une phrase), une accentuation, une emphase ou un lien leurs
/// enfants, un saut une espace ; une glose n'y laisse rien.
pub proof fn loi_le_corps_garde_chaque_mot(avant: Seq<Arbre>, x: Arbre, apres: Seq<Arbre>)
    ensures
        x matches Arbre::Texte(t) ==> plat(avant + seq![x] + apres) == plat(avant) + t + plat(apres),
        x matches Arbre::Feuille(Noeud::Reference { libelle, .. }) ==> plat(avant + seq![x] + apres)
            == plat(avant) + libelle@ + plat(apres),
        x matches Arbre::Feuille(Noeud::Renvoi { libelle, .. }) ==> plat(avant + seq![x] + apres)
            == plat(avant) + libelle@ + plat(apres),
        x matches Arbre::Feuille(Noeud::Intraduisible { mot, .. }) ==> plat(avant + seq![x]
            + apres) == plat(avant) + mot@ + plat(apres),
        x matches Arbre::Feuille(Noeud::Shem { mot, .. }) ==> plat(avant + seq![x] + apres) == plat(
            avant,
        ) + mot@ + plat(apres),
        x matches Arbre::Accentuation(e) ==> plat(avant + seq![x] + apres) == plat(avant) + plat(e)
            + plat(apres),
        x matches Arbre::Emphase(e) ==> plat(avant + seq![x] + apres) == plat(avant) + plat(e)
            + plat(apres),
        x matches Arbre::Lien(_, e) ==> plat(avant + seq![x] + apres) == plat(avant) + plat(e)
            + plat(apres),
        x matches Arbre::Feuille(Noeud::Saut) ==> plat(avant + seq![x] + apres) == plat(avant)
            + seq![' '] + plat(apres),
        x is Glose ==> plat(avant + seq![x] + apres) == plat(avant) + plat(apres),
{
    lemme_plat_concat(avant, seq![x]);
    lemme_plat_concat(avant + seq![x], apres);
    assert(seq![x].drop_last() =~= Seq::<Arbre>::empty());
    assert(seq![x].last() == x);
    assert(plat(Seq::<Arbre>::empty()) == Seq::<char>::empty());
    assert(Seq::<char>::empty() + plat_un(x) =~= plat_un(x));
    assert(plat(seq![x]) == plat_un(x));
}

/// **Les mots du corps survivent aux réglages nus** : le corps d'un verset
/// est l'aplati de ses nœuds préparés sans gloses ni hébreu, et cette
/// préparation garde, à toute profondeur hors des gloses, chaque nœud qui
/// n'est pas un texte — intraduisibles, Shem, renvois, références, sauts,
/// accentuations, emphases et liens —, dans son ordre.
pub proof fn loi_les_mots_du_corps_survivent(s: Seq<Arbre>)
    ensures
        charpente(prepare(s, Preferences::nu_spec())) == charpente(retire(s, false, false)),
        Preferences::nu_spec().gloses == false,
        Preferences::nu_spec().niveau_3 == false,
{
    loi_preparer_ne_retire_que_les_niveaux_eteints(s, Preferences::nu_spec());
}

/// Aucun nœud éteint par ces réglages, à aucune profondeur.
pub open spec fn propre_un(a: Arbre, gloses: bool, niveau_3: bool) -> bool
    decreases a,
{
    !eteint(a, gloses, niveau_3) && match a {
        Arbre::Glose(e) => propre(e, gloses, niveau_3),
        Arbre::Accentuation(e) => propre(e, gloses, niveau_3),
        Arbre::Emphase(e) => propre(e, gloses, niveau_3),
        Arbre::Lien(_, e) => propre(e, gloses, niveau_3),
        _ => true,
    }
}

/// Aucun nœud éteint par ces réglages dans la suite, à aucune profondeur.
pub open spec fn propre(s: Seq<Arbre>, gloses: bool, niveau_3: bool) -> bool
    decreases s,
{
    s.len() == 0 || (propre(s.drop_last(), gloses, niveau_3) && propre_un(
        s.last(),
        gloses,
        niveau_3,
    ))
}

proof fn lemme_propre_push(s: Seq<Arbre>, a: Arbre, g: bool, n3: bool)
    ensures
        propre(s.push(a), g, n3) == (propre(s, g, n3) && propre_un(a, g, n3)),
{
    assert(s.push(a).drop_last() =~= s);
}

proof fn lemme_propre_rang(s: Seq<Arbre>, g: bool, n3: bool)
    requires
        propre(s, g, n3),
    ensures
        forall|i: int| 0 <= i < s.len() ==> propre_un(#[trigger] s[i], g, n3),
    decreases s.len(),
{
    if s.len() > 0 {
        lemme_propre_rang(s.drop_last(), g, n3);
        assert forall|i: int| 0 <= i < s.len() implies propre_un(#[trigger] s[i], g, n3) by {
            if i < s.len() - 1 {
                assert(s.drop_last()[i] == s[i]);
            }
        }
    }
}

proof fn lemme_retire_propre(s: Seq<Arbre>, g: bool, n3: bool)
    ensures
        propre(retire(s, g, n3), g, n3),
    decreases s,
{
    if s.len() > 0 {
        lemme_retire_propre(s.drop_last(), g, n3);
        if !eteint(s.last(), g, n3) {
            lemme_retire_un_propre(s.last(), g, n3);
            lemme_propre_push(retire(s.drop_last(), g, n3), retire_un(s.last(), g, n3), g, n3);
        }
    }
}

proof fn lemme_retire_un_propre(a: Arbre, g: bool, n3: bool)
    requires
        !eteint(a, g, n3),
    ensures
        propre_un(retire_un(a, g, n3), g, n3),
    decreases a,
{
    match a {
        Arbre::Glose(e) => lemme_retire_propre(e, g, n3),
        Arbre::Accentuation(e) => lemme_retire_propre(e, g, n3),
        Arbre::Emphase(e) => lemme_retire_propre(e, g, n3),
        Arbre::Lien(_, e) => lemme_retire_propre(e, g, n3),
        _ => {},
    }
}

proof fn lemme_colle_propre(r: Seq<Arbre>, n: Arbre, g: bool, n3: bool)
    requires
        propre(r, g, n3),
        propre_un(n, g, n3),
    ensures
        propre(colle(r, n), g, n3),
{
    lemme_propre_push(r, n, g, n3);
    if r.len() > 0 {
        match (r.last(), n) {
            (Arbre::Texte(a), Arbre::Texte(b)) => {
                assert(r =~= r.drop_last().push(r.last()));
                lemme_propre_push(r.drop_last(), r.last(), g, n3);
                lemme_propre_push(r.drop_last(), Arbre::Texte(a + b), g, n3);
            },
            _ => {},
        }
    }
}

proof fn lemme_fond_propre(s: Seq<Arbre>, g: bool, n3: bool)
    requires
        propre(s, g, n3),
    ensures
        propre(fond(s), g, n3),
    decreases s,
{
    if s.len() > 0 {
        lemme_fond_propre(s.drop_last(), g, n3);
        lemme_fond_un_propre(s.last(), g, n3);
        lemme_colle_propre(fond(s.drop_last()), fond_un(s.last()), g, n3);
    }
}

proof fn lemme_fond_un_propre(a: Arbre, g: bool, n3: bool)
    requires
        propre_un(a, g, n3),
    ensures
        propre_un(fond_un(a), g, n3),
    decreases a,
{
    match a {
        Arbre::Glose(e) => lemme_fond_propre(e, g, n3),
        Arbre::Accentuation(e) => lemme_fond_propre(e, g, n3),
        Arbre::Emphase(e) => lemme_fond_propre(e, g, n3),
        Arbre::Lien(_, e) => lemme_fond_propre(e, g, n3),
        _ => {},
    }
}

proof fn lemme_resserre_pref_propre(s: Seq<Arbre>, k: nat, g: bool, n3: bool)
    requires
        propre(s, g, n3),
    ensures
        propre(resserre_pref(s, k), g, n3),
    decreases s, k,
{
    if k == 0 || k > s.len() {
    } else {
        lemme_resserre_pref_propre(s, (k - 1) as nat, g, n3);
        lemme_propre_rang(s, g, n3);
        let p = k - 1 == 0;
        let d = k - 1 == dernier_rang(s.len());
        lemme_resserre_un_propre(s[k - 1], p, d, g, n3);
        let x = resserre_un(s[k - 1], p, d);
        lemme_propre_push(resserre_pref(s, (k - 1) as nat), x, g, n3);
    }
}

proof fn lemme_resserre_un_propre(a: Arbre, premier: bool, dernier: bool, g: bool, n3: bool)
    requires
        propre_un(a, g, n3),
    ensures
        propre_un(resserre_un(a, premier, dernier), g, n3),
    decreases a, 0nat,
{
    match a {
        Arbre::Glose(e) => lemme_resserre_pref_propre(e, e.len(), g, n3),
        Arbre::Accentuation(e) => lemme_resserre_pref_propre(e, e.len(), g, n3),
        Arbre::Emphase(e) => lemme_resserre_pref_propre(e, e.len(), g, n3),
        Arbre::Lien(_, e) => lemme_resserre_pref_propre(e, e.len(), g, n3),
        _ => {},
    }
}

/// **Éteindre un niveau le retire partout.** Après les réglages, il ne reste
/// aucune glose si le niveau 2 est éteint, et aucun hébreu si le niveau 3
/// l'est — ni au premier niveau, ni dans une glose, une accentuation, une
/// emphase ou un lien.
pub proof fn loi_eteindre_retire_a_toute_profondeur(s: Seq<Arbre>, p: Preferences)
    ensures
        propre(prepare(s, p), p.gloses, p.niveau_3),
{
    lemme_retire_propre(s, p.gloses, p.niveau_3);
    lemme_fond_propre(retire(s, p.gloses, p.niveau_3), p.gloses, p.niveau_3);
    lemme_resserre_pref_propre(
        fond(retire(s, p.gloses, p.niveau_3)),
        fond(retire(s, p.gloses, p.niveau_3)).len(),
        p.gloses,
        p.niveau_3,
    );
}

/// Seuls les deux niveaux du texte comptent : la peau, la fonte, la taille,
/// le registre et la coulée des versets ne retirent rien.
pub proof fn loi_seuls_les_niveaux_retirent(s: Seq<Arbre>, p: Preferences, q: Preferences)
    requires
        p.gloses == q.gloses,
        p.niveau_3 == q.niveau_3,
    ensures
        prepare(s, p) == prepare(s, q),
{
}

/// Vrai pour un nœud qui porte une fiche : un intraduisible ou un Shem.
pub open spec fn est_marque(a: Arbre) -> bool {
    match a {
        Arbre::Feuille(Noeud::Intraduisible { .. }) => true,
        Arbre::Feuille(Noeud::Shem { .. }) => true,
        _ => false,
    }
}

/// Les nœuds qui portent une fiche, au premier niveau, dans l'ordre.
pub open spec fn marques(s: Seq<Arbre>) -> Seq<Arbre>
    decreases s.len(),
{
    if s.len() == 0 {
        Seq::empty()
    } else if est_marque(s.last()) {
        marques(s.drop_last()).push(s.last())
    } else {
        marques(s.drop_last())
    }
}

proof fn lemme_marques_pousse(s: Seq<Arbre>, a: Arbre)
    ensures
        marques(s.push(a)) == if est_marque(a) {
            marques(s).push(a)
        } else {
            marques(s)
        },
{
    assert(s.push(a).drop_last() =~= s);
}

proof fn lemme_marques_retire(s: Seq<Arbre>, g: bool, n3: bool)
    ensures
        marques(retire(s, g, n3)) == marques(s),
    decreases s.len(),
{
    if s.len() > 0 {
        let u = s.drop_last();
        let a = s.last();
        lemme_marques_retire(u, g, n3);
        assert(u.push(a) =~= s);
        lemme_retire_push(u, a, g, n3);
        lemme_marques_pousse(u, a);
        if !eteint(a, g, n3) {
            lemme_marques_pousse(retire(u, g, n3), retire_un(a, g, n3));
        }
    }
}

proof fn lemme_marques_fond(s: Seq<Arbre>)
    ensures
        marques(fond(s)) == marques(s),
    decreases s.len(),
{
    if s.len() > 0 {
        let u = s.drop_last();
        let a = s.last();
        lemme_marques_fond(u);
        let r = fond(u);
        let n = fond_un(a);
        assert(est_marque(n) == est_marque(a));
        assert(est_marque(a) ==> n == a);
        lemme_marques_pousse(u, a);
        assert(u.push(a) =~= s);
        if r.len() > 0 {
            match (r.last(), n) {
                (Arbre::Texte(x), Arbre::Texte(y)) => {
                    let d = r.drop_last();
                    assert(d.push(r.last()) =~= r);
                    lemme_marques_pousse(d, r.last());
                    lemme_marques_pousse(d, Arbre::Texte(x + y));
                },
                _ => {
                    lemme_marques_pousse(r, n);
                },
            }
        } else {
            lemme_marques_pousse(r, n);
        }
    }
}

proof fn lemme_marques_resserre(s: Seq<Arbre>, k: nat)
    requires
        k <= s.len(),
    ensures
        marques(resserre_pref(s, k)) == marques(s.take(k as int)),
    decreases k,
{
    if k > 0 {
        lemme_marques_resserre(s, (k - 1) as nat);
        let a = s[k - 1];
        let x = resserre_un(a, k - 1 == 0, k - 1 == dernier_rang(s.len()));
        assert(est_marque(a) ==> x == a);
        assert(texte_vide(x) ==> !est_marque(a));
        assert(est_marque(x) == est_marque(a));
        assert(s.take(k as int) =~= s.take(k - 1).push(a));
        lemme_marques_pousse(s.take(k - 1), a);
        lemme_marques_pousse(resserre_pref(s, (k - 1) as nat), x);
    } else {
        assert(s.take(0) =~= Seq::<Arbre>::empty());
    }
}

/// **Un intraduisible ne s'éteint jamais** : quels que soient les réglages,
/// les intraduisibles et les Shem du premier niveau restent, tous, dans leur
/// ordre — ils appartiennent au corps.
pub proof fn loi_un_intraduisible_ne_s_eteint_jamais(s: Seq<Arbre>, p: Preferences)
    ensures
        marques(prepare(s, p)) == marques(s),
{
    lemme_marques_retire(s, p.gloses, p.niveau_3);
    lemme_marques_fond(retire(s, p.gloses, p.niveau_3));
    let f = fond(retire(s, p.gloses, p.niveau_3));
    lemme_marques_resserre(f, f.len());
    assert(f.take(f.len() as int) =~= f);
}

/// La charpente d'un nœud : le nœud même, les enfants d'un conteneur réduits
/// à leur charpente.
pub open spec fn charpente_un(a: Arbre) -> Arbre
    decreases a,
{
    match a {
        Arbre::Glose(e) => Arbre::Glose(charpente(e)),
        Arbre::Accentuation(e) => Arbre::Accentuation(charpente(e)),
        Arbre::Emphase(e) => Arbre::Emphase(charpente(e)),
        Arbre::Lien(h, e) => Arbre::Lien(h, charpente(e)),
        _ => a,
    }
}

/// La charpente d'une suite : ses nœuds autres que les textes, dans l'ordre,
/// chacun réduit à sa charpente.
pub open spec fn charpente(s: Seq<Arbre>) -> Seq<Arbre>
    decreases s,
{
    if s.len() == 0 {
        Seq::empty()
    } else if s.last() is Texte {
        charpente(s.drop_last())
    } else {
        charpente(s.drop_last()).push(charpente_un(s.last()))
    }
}

proof fn lemme_charpente_pousse(s: Seq<Arbre>, a: Arbre)
    ensures
        charpente(s.push(a)) == if a is Texte {
            charpente(s)
        } else {
            charpente(s).push(charpente_un(a))
        },
{
    assert(s.push(a).drop_last() =~= s);
}

proof fn lemme_charpente_fond(s: Seq<Arbre>)
    ensures
        charpente(fond(s)) == charpente(s),
    decreases s,
{
    if s.len() > 0 {
        let u = s.drop_last();
        let a = s.last();
        lemme_charpente_fond(u);
        lemme_charpente_fond_un(a);
        let r = fond(u);
        let n = fond_un(a);
        assert(n is Texte <==> a is Texte);
        assert(u.push(a) =~= s);
        lemme_charpente_pousse(u, a);
        if r.len() > 0 {
            match (r.last(), n) {
                (Arbre::Texte(x), Arbre::Texte(y)) => {
                    let d = r.drop_last();
                    assert(d.push(r.last()) =~= r);
                    lemme_charpente_pousse(d, r.last());
                    lemme_charpente_pousse(d, Arbre::Texte(x + y));
                },
                _ => {
                    lemme_charpente_pousse(r, n);
                },
            }
        } else {
            lemme_charpente_pousse(r, n);
        }
    }
}

proof fn lemme_charpente_fond_un(a: Arbre)
    ensures
        charpente_un(fond_un(a)) == charpente_un(a),
    decreases a,
{
    match a {
        Arbre::Glose(e) => lemme_charpente_fond(e),
        Arbre::Accentuation(e) => lemme_charpente_fond(e),
        Arbre::Emphase(e) => lemme_charpente_fond(e),
        Arbre::Lien(_, e) => lemme_charpente_fond(e),
        _ => {},
    }
}

proof fn lemme_charpente_resserre(s: Seq<Arbre>, k: nat)
    requires
        k <= s.len(),
    ensures
        charpente(resserre_pref(s, k)) == charpente(s.take(k as int)),
    decreases s, k,
{
    if k > 0 {
        lemme_charpente_resserre(s, (k - 1) as nat);
        let a = s[k - 1];
        let p = k - 1 == 0;
        let d = k - 1 == dernier_rang(s.len());
        lemme_charpente_resserre_un(a, p, d);
        let x = resserre_un(a, p, d);
        assert(x is Texte <==> a is Texte);
        assert(texte_vide(x) ==> a is Texte);
        assert(s.take(k as int) =~= s.take(k - 1).push(a));
        lemme_charpente_pousse(s.take(k - 1), a);
        lemme_charpente_pousse(resserre_pref(s, (k - 1) as nat), x);
    } else {
        assert(s.take(0) =~= Seq::<Arbre>::empty());
    }
}

proof fn lemme_charpente_resserre_un(a: Arbre, premier: bool, dernier: bool)
    ensures
        !(a is Texte) ==> charpente_un(resserre_un(a, premier, dernier)) == charpente_un(a),
    decreases a, 0nat,
{
    match a {
        Arbre::Glose(e) => {
            lemme_charpente_resserre(e, e.len());
            assert(e.take(e.len() as int) =~= e);
            assert(resserre_un(a, premier, dernier) == Arbre::Glose(resserre_pref(e, e.len())));

        },
        Arbre::Accentuation(e) => {
            lemme_charpente_resserre(e, e.len());
            assert(e.take(e.len() as int) =~= e);
            assert(resserre_un(a, premier, dernier) == Arbre::Accentuation(resserre_pref(e, e.len())));
        },
        Arbre::Emphase(e) => {
            lemme_charpente_resserre(e, e.len());
            assert(e.take(e.len() as int) =~= e);
            assert(resserre_un(a, premier, dernier) == Arbre::Emphase(resserre_pref(e, e.len())));
        },
        Arbre::Lien(h, e) => {
            lemme_charpente_resserre(e, e.len());
            assert(e.take(e.len() as int) =~= e);
            assert(resserre_un(a, premier, dernier) == Arbre::Lien(h, resserre_pref(e, e.len())));
        },
        _ => {},
    }
}

/// **Préparer ne retire que les niveaux éteints** : à toute profondeur, les
/// nœuds autres que les textes qui ne sont ni éteints ni pris dans un nœud
/// éteint restent tous, dans leur ordre — la préparation ne touche qu'aux
/// textes.
pub proof fn loi_preparer_ne_retire_que_les_niveaux_eteints(s: Seq<Arbre>, p: Preferences)
    ensures
        charpente(prepare(s, p)) == charpente(retire(s, p.gloses, p.niveau_3)),
{
    let f = fond(retire(s, p.gloses, p.niveau_3));
    lemme_charpente_fond(retire(s, p.gloses, p.niveau_3));
    lemme_charpente_resserre(f, f.len());
    assert(f.take(f.len() as int) =~= f);
}

/// Vrai quand aucun blanc n'en suit un autre.
pub open spec fn sans_blanc_double(s: Seq<char>) -> bool {
    forall|i: int| 0 <= i < s.len() - 1 ==> !(blanc(#[trigger] s[i]) && blanc(s[i + 1]))
}

/// Vrai quand aucun blanc ne précède `, . ) ] …`.
pub open spec fn sans_blanc_devant_ferme(s: Seq<char>) -> bool {
    forall|i: int| 0 <= i < s.len() - 1 ==> (ferme(#[trigger] s[i + 1]) ==> !blanc(s[i]))
}

proof fn lemme_etat(t: Seq<char>, premier: bool)
    ensures
        sans_blanc_double(etat(t, premier).0),
        sans_blanc_devant_ferme(etat(t, premier).0),
        etat(t, premier).0.len() > 0 ==> !blanc(etat(t, premier).0.last()),
        premier && etat(t, premier).0.len() > 0 ==> !blanc(etat(t, premier).0[0]),
    decreases t.len(),
{
    if t.len() > 0 {
        lemme_etat(t.drop_last(), premier);
        let (s, attente) = etat(t.drop_last(), premier);
        let c = t.last();
        if !blanc(c) {
            if attente && !ferme(c) && !(premier && s.len() == 0) {
                let u = s.push(' ').push(c);
                assert(blanc(' '));
                assert forall|i: int| 0 <= i < u.len() - 1 implies !(blanc(#[trigger] u[i]) && blanc(
                    u[i + 1],
                )) by {
                    if i < s.len() - 1 {
                        assert(u[i] == s[i] && u[i + 1] == s[i + 1]);
                    } else if i == s.len() - 1 {
                        assert(u[i] == s.last());
                    } else {
                        assert(u[i + 1] == c);
                    }
                }
                assert forall|i: int| 0 <= i < u.len() - 1 implies (ferme(#[trigger] u[i + 1])
                    ==> !blanc(u[i])) by {
                    if i < s.len() - 1 {
                        assert(u[i] == s[i] && u[i + 1] == s[i + 1]);
                    } else if i == s.len() - 1 {
                        assert(u[i + 1] == ' ');
                    } else {
                        assert(u[i + 1] == c);
                    }
                }
                if s.len() > 0 {
                    assert(u[0] == s[0]);
                }
            } else {
                let u = s.push(c);
                assert forall|i: int| 0 <= i < u.len() - 1 implies !(blanc(#[trigger] u[i]) && blanc(
                    u[i + 1],
                )) by {
                    if i < s.len() - 1 {
                        assert(u[i] == s[i] && u[i + 1] == s[i + 1]);
                    } else {
                        assert(u[i + 1] == c);
                    }
                }
                assert forall|i: int| 0 <= i < u.len() - 1 implies (ferme(#[trigger] u[i + 1])
                    ==> !blanc(u[i])) by {
                    if i < s.len() - 1 {
                        assert(u[i] == s[i] && u[i + 1] == s[i + 1]);
                    } else {
                        assert(u[i] == s.last());
                    }
                }
                if s.len() > 0 {
                    assert(u[0] == s[0]);
                }
            }
        }
    }
}

/// Vrai quand tous les blancs du texte sont des espaces.
pub open spec fn blancs_en_espaces(s: Seq<char>) -> bool {
    forall|i: int| 0 <= i < s.len() ==> (blanc(#[trigger] s[i]) ==> s[i] == ' ')
}

/// Le parcours ne produit d'autre blanc que l'espace.
proof fn lemme_etat_espaces(t: Seq<char>, premier: bool)
    ensures
        blancs_en_espaces(etat(t, premier).0),
    decreases t.len(),
{
    if t.len() > 0 {
        lemme_etat_espaces(t.drop_last(), premier);
        let (s, attente) = etat(t.drop_last(), premier);
        let c = t.last();
        if !blanc(c) {
            let s2 = if attente && !ferme(c) && !(premier && s.len() == 0) {
                s.push(' ')
            } else {
                s
            };
            assert(blancs_en_espaces(s2)) by {
                assert forall|i: int| 0 <= i < s2.len() implies (blanc(#[trigger] s2[i]) ==> s2[i]
                    == ' ') by {
                    if i < s.len() {
                        assert(s2[i] == s[i]);
                    }
                }
            }
            let u = s2.push(c);
            assert forall|i: int| 0 <= i < u.len() implies (blanc(#[trigger] u[i]) ==> u[i] == ' ') by {
                if i < s2.len() {
                    assert(u[i] == s2[i]);
                }
            }
        }
    }
}

/// Un texte déjà propre — sans blanc double, sans blanc devant `, . ) ] …`,
/// ses blancs en espaces, et sans blanc de tête s'il ouvre la suite.
pub open spec fn texte_propre(u: Seq<char>, premier: bool) -> bool {
    &&& sans_blanc_double(u)
    &&& sans_blanc_devant_ferme(u)
    &&& blancs_en_espaces(u)
    &&& (premier && u.len() > 0 ==> !blanc(u[0]))
}

/// Parcourir un texte propre le rend tel quel, son espace final mis en
/// attente.
proof fn lemme_etat_propre(u: Seq<char>, premier: bool)
    requires
        texte_propre(u, premier),
    ensures
        etat(u, premier) == (if u.len() > 0 && u.last() == ' ' {
            (u.drop_last(), true)
        } else {
            (u, false)
        }),
    decreases u.len(),
{
    if u.len() > 0 {
        let v = u.drop_last();
        let c = u.last();
        assert(texte_propre(v, premier)) by {
            assert forall|i: int| 0 <= i < v.len() - 1 implies !(blanc(#[trigger] v[i]) && blanc(
                v[i + 1],
            )) by {
                assert(v[i] == u[i] && v[i + 1] == u[i + 1]);
            }
            assert forall|i: int| 0 <= i < v.len() - 1 implies (ferme(#[trigger] v[i + 1])
                ==> !blanc(v[i])) by {
                assert(v[i] == u[i] && v[i + 1] == u[i + 1]);
            }
            assert forall|i: int| 0 <= i < v.len() implies (blanc(#[trigger] v[i]) ==> v[i] == ' ') by {
                assert(v[i] == u[i]);
            }
            if v.len() > 0 {
                assert(v[0] == u[0]);
            }
        }
        lemme_etat_propre(v, premier);
        assert(u.len() >= 2 ==> u[u.len() - 2] == v.last());
        assert(c == u[u.len() - 1]);
        if blanc(c) {
            assert(c == ' ');
            if v.len() > 0 {
                assert(!(blanc(u[u.len() - 2]) && blanc(u[u.len() - 1])));
            }
        } else {
            if v.len() > 0 && v.last() == ' ' {
                assert(!ferme(c)) by {
                    assert(ferme(u[(u.len() - 2) + 1]) ==> !blanc(u[u.len() - 2]));
                }
                if premier && v.drop_last().len() == 0 {
                    assert(u[0] == ' ');
                }
                assert(v.drop_last().push(' ').push(c) =~= u);
            } else {
                assert(v.push(c) =~= u);
            }
        }
    } else {
    }
}

/// **Resserrer deux fois ne change rien** : un fragment resserré, resserré
/// de nouveau à la même place, reste tel quel.
pub proof fn loi_resserrer_deux_fois_ne_change_rien(t: Seq<char>, premier: bool, dernier: bool)
    ensures
        resserre_texte(resserre_texte(t, premier, dernier), premier, dernier) == resserre_texte(
            t,
            premier,
            dernier,
        ),
        blancs_en_espaces(resserre_texte(t, premier, dernier)),
{
    lemme_etat(t, premier);
    lemme_etat_espaces(t, premier);
    loi_aucun_blanc_double(t, premier, dernier);
    let (s0, attente) = etat(t, premier);
    let u = resserre_texte(t, premier, dernier);
    assert(blancs_en_espaces(u)) by {
        assert forall|i: int| 0 <= i < u.len() implies (blanc(#[trigger] u[i]) ==> u[i] == ' ') by {
            if i < s0.len() {
                assert(u[i] == s0[i]);
            }
        }
    }
    lemme_etat_propre(u, premier);
    if attente && !dernier && !(premier && s0.len() == 0) {
        assert(u == s0.push(' '));
        assert(u.drop_last() =~= s0);
    } else {
        assert(u == s0);
        if u.len() > 0 {
            assert(!blanc(u.last()));
        }
    }
}

/// **Le resserrement ne laisse aucun blanc double** : une suite de blancs
/// devient une espace au plus ; aucun blanc ne reste devant `, . ) ] …` ; le
/// premier fragment ne commence pas par un blanc, et le dernier ne finit pas
/// par un.
pub proof fn loi_aucun_blanc_double(t: Seq<char>, premier: bool, dernier: bool)
    ensures
        sans_blanc_double(resserre_texte(t, premier, dernier)),
        sans_blanc_devant_ferme(resserre_texte(t, premier, dernier)),
        premier && resserre_texte(t, premier, dernier).len() > 0 ==> !blanc(
            resserre_texte(t, premier, dernier)[0],
        ),
        dernier && resserre_texte(t, premier, dernier).len() > 0 ==> !blanc(
            resserre_texte(t, premier, dernier).last(),
        ),
{
    lemme_etat(t, premier);
    let (s, attente) = etat(t, premier);
    if attente && !dernier && !(premier && s.len() == 0) {
        let u = s.push(' ');
        assert forall|i: int| 0 <= i < u.len() - 1 implies !(blanc(#[trigger] u[i]) && blanc(
            u[i + 1],
        )) by {
            if i < s.len() - 1 {
                assert(u[i] == s[i] && u[i + 1] == s[i + 1]);
            } else {
                assert(u[i] == s.last());
            }
        }
        assert forall|i: int| 0 <= i < u.len() - 1 implies (ferme(#[trigger] u[i + 1]) ==> !blanc(
            u[i],
        )) by {
            if i < s.len() - 1 {
                assert(u[i] == s[i] && u[i + 1] == s[i + 1]);
            } else {
                assert(u[i + 1] == ' ');
            }
        }
        if s.len() > 0 {
            assert(u[0] == s[0]);
        }
    }
}


// ───────────────────────── préparer deux fois ───────────────────────────────

/// Resserré à sa place, un fragment le reste à toute place qui ne l'ouvre ni
/// ne le ferme davantage.
proof fn lemme_resserre_texte_fixe(t: Seq<char>, p: bool, d: bool, p2: bool, d2: bool)
    requires
        p2 ==> p,
        d2 ==> d,
    ensures
        resserre_texte(resserre_texte(t, p, d), p2, d2) == resserre_texte(t, p, d),
{
    lemme_etat(t, p);
    lemme_etat_espaces(t, p);
    loi_aucun_blanc_double(t, p, d);
    loi_resserrer_deux_fois_ne_change_rien(t, p, d);
    let (s0, attente) = etat(t, p);
    let u = resserre_texte(t, p, d);
    lemme_etat_propre(u, p2);
    if attente && !d && !(p && s0.len() == 0) {
        assert(u == s0.push(' '));
        assert(u.drop_last() =~= s0);
    } else {
        assert(u == s0);
        if u.len() > 0 {
            assert(!blanc(u.last()));
        }
    }
}

/// Sans nœud éteint, retirer ne change rien.
proof fn lemme_retire_fixe(s: Seq<Arbre>, g: bool, n3: bool)
    requires
        propre(s, g, n3),
    ensures
        retire(s, g, n3) == s,
    decreases s,
{
    if s.len() > 0 {
        lemme_retire_fixe(s.drop_last(), g, n3);
        lemme_retire_un_fixe(s.last(), g, n3);
        assert(propre(s.drop_last(), g, n3) && propre_un(s.last(), g, n3));
        assert(!eteint(s.last(), g, n3));
        assert(retire(s, g, n3) == retire(s.drop_last(), g, n3).push(retire_un(s.last(), g, n3)));
        assert(s.drop_last().push(s.last()) =~= s);
    }
}

proof fn lemme_retire_un_fixe(a: Arbre, g: bool, n3: bool)
    requires
        propre_un(a, g, n3),
    ensures
        retire_un(a, g, n3) == a,
    decreases a,
{
    match a {
        Arbre::Glose(e) => lemme_retire_fixe(e, g, n3),
        Arbre::Accentuation(e) => lemme_retire_fixe(e, g, n3),
        Arbre::Emphase(e) => lemme_retire_fixe(e, g, n3),
        Arbre::Lien(_, e) => lemme_retire_fixe(e, g, n3),
        _ => {},
    }
}

/// Vrai quand aucun fragment de texte n'en suit un autre, à aucune
/// profondeur.
pub open spec fn fondue(s: Seq<Arbre>) -> bool
    decreases s,
{
    s.len() == 0 || (fondue(s.drop_last()) && fondu_un(s.last()) && !(s.len() >= 2 && s[s.len()
        - 2] is Texte && s.last() is Texte))
}

/// Vrai quand les enfants du nœud sont fondus.
pub open spec fn fondu_un(a: Arbre) -> bool
    decreases a,
{
    match a {
        Arbre::Glose(e) => fondue(e),
        Arbre::Accentuation(e) => fondue(e),
        Arbre::Emphase(e) => fondue(e),
        Arbre::Lien(_, e) => fondue(e),
        _ => true,
    }
}

proof fn lemme_fondue_push(r: Seq<Arbre>, x: Arbre)
    ensures
        fondue(r.push(x)) == (fondue(r) && fondu_un(x) && !(r.len() > 0 && r.last() is Texte
            && x is Texte)),
{
    assert(r.push(x).drop_last() =~= r);
    if r.len() > 0 {
        assert(r.push(x)[r.len() - 1] == r.last());
    }
}

/// Fondre rend une suite fondue.
proof fn lemme_fond_fondue(s: Seq<Arbre>)
    ensures
        fondue(fond(s)),
    decreases s,
{
    if s.len() > 0 {
        lemme_fond_fondue(s.drop_last());
        lemme_fond_un_fondu(s.last());
        let f = fond(s.drop_last());
        let x = fond_un(s.last());
        if f.len() > 0 && f.last() is Texte && x is Texte {
            let g = f.drop_last();
            assert(f == g.push(f.last()));
            lemme_fondue_push(g, f.last());
            match (f.last(), x) {
                (Arbre::Texte(a), Arbre::Texte(b)) => lemme_fondue_push(g, Arbre::Texte(a + b)),
                _ => {},
            }
        } else {
            lemme_fondue_push(f, x);
        }
    }
}

proof fn lemme_fond_un_fondu(a: Arbre)
    ensures
        fondu_un(fond_un(a)),
    decreases a,
{
    match a {
        Arbre::Glose(e) => lemme_fond_fondue(e),
        Arbre::Accentuation(e) => lemme_fond_fondue(e),
        Arbre::Emphase(e) => lemme_fond_fondue(e),
        Arbre::Lien(_, e) => lemme_fond_fondue(e),
        _ => {},
    }
}

/// Une suite fondue se fond en elle-même.
proof fn lemme_fond_fixe(s: Seq<Arbre>)
    requires
        fondue(s),
    ensures
        fond(s) == s,
    decreases s,
{
    if s.len() > 0 {
        lemme_fond_fixe(s.drop_last());
        lemme_fond_un_fixe(s.last());
        if s.len() >= 2 {
            assert(s.drop_last().last() == s[s.len() - 2]);
        }
        assert(s.drop_last().push(s.last()) =~= s);
    }
}

proof fn lemme_fond_un_fixe(a: Arbre)
    requires
        fondu_un(a),
    ensures
        fond_un(a) == a,
    decreases a,
{
    match a {
        Arbre::Glose(e) => lemme_fond_fixe(e),
        Arbre::Accentuation(e) => lemme_fond_fixe(e),
        Arbre::Emphase(e) => lemme_fond_fixe(e),
        Arbre::Lien(_, e) => lemme_fond_fixe(e),
        _ => {},
    }
}


/// Ce que dit une suite fondue, rang par rang.
proof fn lemme_fondue_rangs(s: Seq<Arbre>)
    requires
        fondue(s),
    ensures
        forall|i: int| 0 <= i < s.len() ==> fondu_un(#[trigger] s[i]),
        forall|i: int|
            #![trigger s[i]]
            0 <= i < s.len() - 1 ==> !(s[i] is Texte && s[i + 1] is Texte),
    decreases s.len(),
{
    if s.len() > 0 {
        let v = s.drop_last();
        lemme_fondue_rangs(v);
        assert forall|i: int| 0 <= i < s.len() implies fondu_un(#[trigger] s[i]) by {
            if i < s.len() - 1 {
                assert(v[i] == s[i]);
            }
        }
        assert forall|i: int| #![trigger s[i]] 0 <= i < s.len() - 1 implies !(s[i] is Texte
            && s[i + 1] is Texte) by {
            if i < s.len() - 2 {
                assert(v[i] == s[i] && v[i + 1] == s[i + 1]);
            } else {
                assert(s[s.len() - 2] == v.last());
            }
        }
    }
}

/// Une suite dont chaque nœud est fondu et où aucun texte n'en suit un
/// autre est fondue.
proof fn lemme_fondue_de_rangs(s: Seq<Arbre>)
    requires
        forall|i: int| 0 <= i < s.len() ==> fondu_un(#[trigger] s[i]),
        forall|i: int|
            #![trigger s[i]]
            0 <= i < s.len() - 1 ==> !(s[i] is Texte && s[i + 1] is Texte),
    ensures
        fondue(s),
    decreases s.len(),
{
    if s.len() > 0 {
        let v = s.drop_last();
        assert forall|i: int| 0 <= i < v.len() implies fondu_un(#[trigger] v[i]) by {
            assert(v[i] == s[i]);
        }
        assert forall|i: int| #![trigger v[i]] 0 <= i < v.len() - 1 implies !(v[i] is Texte
            && v[i + 1] is Texte) by {
            assert(v[i] == s[i] && v[i + 1] == s[i + 1]);
        }
        lemme_fondue_de_rangs(v);
        assert(fondu_un(s[s.len() - 1]));
        if s.len() >= 2 {
            assert(!(s[s.len() - 2] is Texte && s[(s.len() - 2) + 1] is Texte));
        }
    }
}

/// D'où vient chaque nœud des `k` premiers resserrés d'une suite fondue :
/// son rang d'origine, et ce que la place de ce rang garantit.
spec fn origines(f: Seq<Arbre>, k: nat, r: Seq<Arbre>, o: Seq<int>) -> bool {
    let der = dernier_rang(f.len());
    &&& o.len() == r.len()
    &&& forall|j: int| 0 <= j < r.len() ==> 0 <= #[trigger] o[j] < k
    &&& forall|j: int|
        #![trigger r[j]]
        0 <= j < r.len() ==> r[j] == resserre_un(f[o[j]], o[j] == 0, o[j] == der)
    &&& forall|j: int| 0 <= j < r.len() - 1 ==> #[trigger] o[j] < k - 1
    &&& (r.len() > 0 && r[0] is Texte ==> o[0] == 0)
    &&& forall|j: int|
        #![trigger r[j]]
        0 <= j < r.len() && r[j] is Texte && o[j] < k - 1 ==> j < r.len() - 1
    &&& (k > 0 && !(f[k - 1] is Texte) ==> r.len() > 0 && o[r.len() - 1] == k - 1)
    &&& forall|j: int|
        #![trigger r[j]]
        0 <= j < r.len() - 1 ==> !(r[j] is Texte && r[j + 1] is Texte)
    &&& forall|j: int| 0 <= j < r.len() ==> !texte_vide(#[trigger] r[j])
}

proof fn lemme_origines(f: Seq<Arbre>, k: nat) -> (o: Seq<int>)
    requires
        fondue(f),
        k <= f.len(),
    ensures
        origines(f, k, resserre_pref(f, k), o),
    decreases k,
{
    if k == 0 {
        Seq::empty()
    } else {
        let o0 = lemme_origines(f, (k - 1) as nat);
        lemme_fondue_rangs(f);
        let der = dernier_rang(f.len());
        let r0 = resserre_pref(f, (k - 1) as nat);
        let i: int = k - 1;
        let x = resserre_un(f[i], i == 0, i == der);
        assert(x is Texte <==> f[i] is Texte);
        if i > 0 {
            assert(!(f[i - 1] is Texte && f[(i - 1) + 1] is Texte));
        }
        if texte_vide(x) {
            let r = r0;
            assert forall|j: int|
                #![trigger r[j]]
                0 <= j < r.len() && r[j] is Texte && o0[j] < k - 1 implies j < r.len() - 1 by {
                if o0[j] == i - 1 {
                    assert(r[j] == resserre_un(f[o0[j]], o0[j] == 0, o0[j] == der));
                }
            }
            assert forall|j: int| 0 <= j < r.len() - 1 implies #[trigger] o0[j] < k - 1 by {}
            o0
        } else {
            let o = o0.push(i);
            let r = r0.push(x);
            assert(resserre_pref(f, k) == r);
            assert forall|j: int| 0 <= j < r.len() implies 0 <= #[trigger] o[j] < k by {
                if j < r0.len() {
                    assert(o[j] == o0[j]);
                }
            }
            assert forall|j: int| #![trigger r[j]] 0 <= j < r.len() implies r[j] == resserre_un(
                f[o[j]],
                o[j] == 0,
                o[j] == der,
            ) by {
                if j < r0.len() {
                    assert(o[j] == o0[j] && r[j] == r0[j]);
                }
            }
            assert forall|j: int| 0 <= j < r.len() - 1 implies #[trigger] o[j] < k - 1 by {
                assert(o[j] == o0[j]);
            }
            if r[0] is Texte && r0.len() == 0 {
                assert(r[0] == x);
            }
            if r0.len() > 0 {
                assert(r[0] == r0[0] && o[0] == o0[0]);
            }
            assert forall|j: int|
                #![trigger r[j]]
                0 <= j < r.len() && r[j] is Texte && o[j] < k - 1 implies j < r.len() - 1 by {
                if j == r0.len() {
                    assert(o[j] == i);
                }
            }
            assert forall|j: int| #![trigger r[j]] 0 <= j < r.len() - 1 implies !(r[j] is Texte
                && r[j + 1] is Texte) by {
                if j < r0.len() - 1 {
                    assert(r[j] == r0[j] && r[j + 1] == r0[j + 1]);
                } else {
                    assert(r[j] == r0[r0.len() - 1] && r[j + 1] == x);
                    if x is Texte {
                        assert(o0[r0.len() - 1] == i - 1);
                        assert(r0[r0.len() - 1] == resserre_un(
                            f[o0[r0.len() - 1]],
                            o0[r0.len() - 1] == 0,
                            o0[r0.len() - 1] == der,
                        ));
                    }
                }
            }
            assert forall|j: int| 0 <= j < r.len() implies !texte_vide(#[trigger] r[j]) by {
                if j < r0.len() {
                    assert(r[j] == r0[j]);
                }
            }
            o
        }
    }
}

/// Un nœud bien espacé à sa place : un texte non vide et propre, sans blanc
/// final s'il ferme la suite ; les enfants d'un conteneur bien espacés.
pub open spec fn espace_un(a: Arbre, premier: bool, dernier: bool) -> bool
    decreases a, 0nat,
{
    match a {
        Arbre::Texte(t) => t.len() > 0 && texte_propre(t, premier) && (dernier ==> !blanc(t.last())),
        Arbre::Glose(e) => espacee_pref(e, e.len()),
        Arbre::Accentuation(e) => espacee_pref(e, e.len()),
        Arbre::Emphase(e) => espacee_pref(e, e.len()),
        Arbre::Lien(_, e) => espacee_pref(e, e.len()),
        _ => true,
    }
}

/// Les `k` premiers nœuds de la suite bien espacés, chacun à sa place.
pub open spec fn espacee_pref(s: Seq<Arbre>, k: nat) -> bool
    decreases s, k,
{
    if k == 0 || k > s.len() {
        true
    } else {
        espacee_pref(s, (k - 1) as nat) && espace_un(
            s[k - 1],
            k - 1 == 0,
            k - 1 == dernier_rang(s.len()),
        )
    }
}

proof fn lemme_espacee_de_rangs(r: Seq<Arbre>, k: nat)
    requires
        k <= r.len(),
        forall|j: int|
            #![trigger r[j]]
            0 <= j < r.len() ==> espace_un(r[j], j == 0, j == dernier_rang(r.len())),
    ensures
        espacee_pref(r, k),
    decreases k,
{
    if k > 0 {
        lemme_espacee_de_rangs(r, (k - 1) as nat);
        assert(espace_un(r[k - 1], k - 1 == 0, k - 1 == dernier_rang(r.len())));
    }
}

/// Resserrer un nœud déjà resserré, à une place qui ne l'ouvre ni ne le ferme
/// davantage, le laisse tel quel ; ses enfants restent fondus.
proof fn lemme_serre_un(a: Arbre, p: bool, d: bool, p2: bool, d2: bool)
    requires
        fondu_un(a),
        a is Texte ==> ((p2 ==> p) && (d2 ==> d)),
    ensures
        resserre_un(resserre_un(a, p, d), p2, d2) == resserre_un(a, p, d),
        fondu_un(resserre_un(a, p, d)),
        !texte_vide(resserre_un(a, p, d)) ==> espace_un(resserre_un(a, p, d), p2, d2),
    decreases a,
{
    match a {
        Arbre::Texte(t) => {
            lemme_resserre_texte_fixe(t, p, d, p2, d2);
            loi_aucun_blanc_double(t, p, d);
            loi_resserrer_deux_fois_ne_change_rien(t, p, d);
        },
        Arbre::Glose(e) => lemme_serre(e),
        Arbre::Accentuation(e) => lemme_serre(e),
        Arbre::Emphase(e) => lemme_serre(e),
        Arbre::Lien(_, e) => lemme_serre(e),
        _ => {},
    }
}

/// Une suite dont chaque nœud se resserre en lui-même à sa place, sans texte
/// vide, se resserre en elle-même.
proof fn lemme_fixe_pref(r: Seq<Arbre>, k: nat)
    requires
        k <= r.len(),
        forall|j: int|
            #![trigger r[j]]
            0 <= j < r.len() ==> resserre_un(r[j], j == 0, j == dernier_rang(r.len())) == r[j]
                && !texte_vide(r[j]),
    ensures
        resserre_pref(r, k) == r.take(k as int),
    decreases k,
{
    if k > 0 {
        lemme_fixe_pref(r, (k - 1) as nat);
        assert(r[k - 1] == r[k - 1]);
        assert(r.take(k as int) =~= r.take(k - 1).push(r[k - 1]));
    }
}

/// Une suite fondue, resserrée, est fondue et se resserre en elle-même.
proof fn lemme_serre(f: Seq<Arbre>)
    requires
        fondue(f),
    ensures
        resserre(resserre(f)) == resserre(f),
        fondue(resserre(f)),
        espacee_pref(resserre(f), resserre(f).len()),
    decreases f,
{
    let n = f.len();
    let r = resserre(f);
    let der = dernier_rang(n);
    let o = lemme_origines(f, n);
    lemme_fondue_rangs(f);
    assert forall|j: int| #![trigger r[j]] 0 <= j < r.len() implies resserre_un(
        r[j],
        j == 0,
        j == dernier_rang(r.len()),
    ) == r[j] && fondu_un(r[j]) && !texte_vide(r[j]) && espace_un(
        r[j],
        j == 0,
        j == dernier_rang(r.len()),
    ) by {
        let oj = o[j];
        assert(0 <= oj < n);
        assert(r[j] == resserre_un(f[oj], oj == 0, oj == der));
        assert(fondu_un(f[oj]));
        if f[oj] is Texte {
            assert(r[j] is Texte);
            if oj < n - 1 {
                assert(j < r.len() - 1);
            }
        }
        lemme_serre_un(f[oj], oj == 0, oj == der, j == 0, j == dernier_rang(r.len()));
    }
    lemme_fixe_pref(r, r.len());
    assert(r.take(r.len() as int) =~= r);
    lemme_fondue_de_rangs(r);
    lemme_espacee_de_rangs(r, r.len());
}

/// **Préparer deux fois ne change rien** : un arbre préparé selon des
/// réglages, préparé de nouveau selon les mêmes, reste tel quel — rien n'y
/// est plus éteint, aucun texte n'y suit un autre, et ses blancs sont déjà
/// resserrés à leur place.
pub proof fn loi_preparer_deux_fois_ne_change_rien(s: Seq<Arbre>, p: Preferences)
    ensures
        prepare(prepare(s, p), p) == prepare(s, p),
{
    let g = p.gloses;
    let n3 = p.niveau_3;
    let f = fond(retire(s, g, n3));
    let r = prepare(s, p);
    loi_eteindre_retire_a_toute_profondeur(s, p);
    lemme_retire_fixe(r, g, n3);
    lemme_fond_fondue(retire(s, g, n3));
    lemme_serre(f);
    lemme_fond_fixe(r);
}

/// **Une page préparée est bien espacée** : dans la suite préparée comme
/// parmi les enfants de chacun de ses conteneurs, aucun texte n'est vide ni
/// n'en suit un autre ; aucun blanc n'y est autre qu'une espace, n'en suit un
/// autre ni ne précède `, . ) ] …` ; le texte qui ouvre une suite ne commence
/// pas par un blanc, et celui qui la ferme ne finit pas par un.
pub proof fn loi_une_page_preparee_est_bien_espacee(s: Seq<Arbre>, p: Preferences)
    ensures
        fondue(prepare(s, p)),
        espacee_pref(prepare(s, p), prepare(s, p).len()),
{
    lemme_fond_fondue(retire(s, p.gloses, p.niveau_3));
    lemme_serre(fond(retire(s, p.gloses, p.niveau_3)));
}

} // verus!
