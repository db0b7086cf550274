//! Les surlignages du lecteur, et leur accord avec le serveur.
//!
//! La granularité est le verset, jamais un décalage de caractères : une
//! révision du texte déplacerait les caractères, un numéro de verset reste
//! juste. Et la fusion apparie comme le backend, par `(chapitre, verset)` et
//! non par identifiant : deux couleurs ne coexistent pas sur un verset.

use vstd::prelude::*;

use crate::chaines::meme_texte;

verus! {

/// Les cinq teintes, telles que l'app les nomme.
#[derive(Debug, Clone, Copy, PartialEq, Eq, Structural)]
pub enum Couleur {
    Gold,
    Olive,
    Sky,
    Rose,
    Violet,
}

impl Couleur {
    /// L'identifiant qui voyage.
    pub open spec fn cle_spec(self) -> Seq<char> {
        match self {
            Couleur::Gold => "gold"@,
            Couleur::Olive => "olive"@,
            Couleur::Sky => "sky"@,
            Couleur::Rose => "rose"@,
            Couleur::Violet => "violet"@,
        }
    }

    /// L'identifiant qui voyage.
    pub fn cle(self) -> (r: &'static str)
        ensures
            r@ == self.cle_spec(),
    {
        match self {
            Couleur::Gold => "gold",
            Couleur::Olive => "olive",
            Couleur::Sky => "sky",
            Couleur::Rose => "rose",
            Couleur::Violet => "violet",
        }
    }

    /// Ce qu'un lecteur d'écran annonce.
    pub open spec fn nom_spec(self) -> Seq<char> {
        match self {
            Couleur::Gold => "Or"@,
            Couleur::Olive => "Olive"@,
            Couleur::Sky => "Ciel"@,
            Couleur::Rose => "Rose"@,
            Couleur::Violet => "Violet"@,
        }
    }

    /// Ce qu'un lecteur d'écran annonce.
    pub fn nom(self) -> (r: &'static str)
        ensures
            r@ == self.nom_spec(),
    {
        match self {
            Couleur::Gold => "Or",
            Couleur::Olive => "Olive",
            Couleur::Sky => "Ciel",
            Couleur::Rose => "Rose",
            Couleur::Violet => "Violet",
        }
    }

    /// La teinte, telle que l'app la rend, quel que soit le thème.
    pub open spec fn teinte_spec(self) -> Seq<char> {
        match self {
            Couleur::Gold => "#E8C973"@,
            Couleur::Olive => "#B8C787"@,
            Couleur::Sky => "#9EC7DE"@,
            Couleur::Rose => "#EBADAD"@,
            Couleur::Violet => "#C7B3DE"@,
        }
    }

    /// La teinte, telle que l'app la rend.
    pub fn teinte(self) -> (r: &'static str)
        ensures
            r@ == self.teinte_spec(),
    {
        match self {
            Couleur::Gold => "#E8C973",
            Couleur::Olive => "#B8C787",
            Couleur::Sky => "#9EC7DE",
            Couleur::Rose => "#EBADAD",
            Couleur::Violet => "#C7B3DE",
        }
    }

    /// Toutes, dans l'ordre de l'app.
    pub fn toutes() -> (r: [Couleur; 5])
        ensures
            r@ == seq![Couleur::Gold, Couleur::Olive, Couleur::Sky, Couleur::Rose, Couleur::Violet],
    {
        let r = [Couleur::Gold, Couleur::Olive, Couleur::Sky, Couleur::Rose, Couleur::Violet];
        assert(r@ =~= seq![
            Couleur::Gold,
            Couleur::Olive,
            Couleur::Sky,
            Couleur::Rose,
            Couleur::Violet,
        ]);
        r
    }

    /// La couleur d'une clé, ou rien : une couleur inconnue vient d'une version
    /// plus récente de l'app, et l'on ignore la ligne plutôt que d'échouer.
    pub open spec fn depuis_cle_spec(cle: Seq<char>) -> Option<Couleur> {
        if cle == "gold"@ {
            Some(Couleur::Gold)
        } else if cle == "olive"@ {
            Some(Couleur::Olive)
        } else if cle == "sky"@ {
            Some(Couleur::Sky)
        } else if cle == "rose"@ {
            Some(Couleur::Rose)
        } else if cle == "violet"@ {
            Some(Couleur::Violet)
        } else {
            None
        }
    }

    /// La couleur d'une clé, ou rien.
    pub fn depuis_cle(cle: &str) -> (r: Option<Couleur>)
        ensures
            r == Couleur::depuis_cle_spec(cle@),
    {
        let toutes = Couleur::toutes();
        let mut i: usize = 0;
        while i < 5
            invariant
                i <= 5,
                toutes@ == seq![
                    Couleur::Gold,
                    Couleur::Olive,
                    Couleur::Sky,
                    Couleur::Rose,
                    Couleur::Violet,
                ],
                forall|j: int| 0 <= j < i ==> toutes@[j].cle_spec() != cle@,
            decreases 5 - i,
        {
            let c = toutes[i];
            if meme_texte(c.cle(), cle) {
                return Some(c);
            }
            i = i + 1;
        }
        assert(toutes@[0].cle_spec() != cle@);
        assert(toutes@[1].cle_spec() != cle@);
        assert(toutes@[2].cle_spec() != cle@);
        assert(toutes@[3].cle_spec() != cle@);
        assert(toutes@[4].cle_spec() != cle@);
        None
    }
}

/// **Chaque couleur se relit en elle-même** par sa clé.
pub proof fn loi_la_cle_de_couleur_se_relit(c: Couleur)
    ensures
        Couleur::depuis_cle_spec(c.cle_spec()) == Some(c),
{
    reveal_strlit("gold");
    reveal_strlit("olive");
    reveal_strlit("sky");
    reveal_strlit("rose");
    reveal_strlit("violet");
    assert("olive"@.len() != "gold"@.len());
    assert("sky"@.len() != "gold"@.len());
    assert("sky"@.len() != "olive"@.len());
    assert("rose"@[0] != "gold"@[0]);
    assert("rose"@.len() != "olive"@.len());
    assert("rose"@.len() != "sky"@.len());
    assert("violet"@.len() != "gold"@.len());
    assert("violet"@.len() != "olive"@.len());
    assert("violet"@.len() != "sky"@.len());
    assert("violet"@.len() != "rose"@.len());
}

/// Ce qu'on retient d'un verset marqué. Les noms des champs sont ceux du
/// backend, à la lettre.
#[derive(Debug, Clone, PartialEq, Eq)]
pub struct Surlignage {
    pub id: String,
    pub book_id: String,
    pub chapter_id: String,
    pub verse: u32,
    /// La couleur, en chaîne libre : une valeur inconnue doit survivre au
    /// voyage.
    pub color: String,
    pub note: Option<String>,
    /// Millisecondes depuis l'époque.
    pub updated_at: i64,
    /// La pierre tombale.
    pub deleted: bool,
}

/// La position de lecture : où le lecteur s'est arrêté.
#[derive(Debug, Clone, PartialEq, Eq)]
pub struct Position {
    pub book_id: String,
    pub chapter_id: String,
    pub chapter_title: String,
    pub verse: u32,
    /// Millisecondes depuis l'époque.
    pub updated_at: i64,
}

/// La clé de fusion d'un surlignage : son chapitre et son verset.
pub open spec fn cle_de(s: Surlignage) -> (Seq<char>, u32) {
    (s.chapter_id@, s.verse)
}

impl Surlignage {
    /// La clé qui identifie ce surlignage pour la fusion — `(chapitre,
    /// verset)`, et non `id`.
    pub fn cle(&self) -> (r: (String, u32))
        ensures
            r.0@ == self.chapter_id@,
            r.1 == self.verse,
    {
        (self.chapter_id.clone(), self.verse)
    }

    /// La couleur reconnue, ou rien.
    pub fn couleur(&self) -> (r: Option<Couleur>)
        ensures
            r == Couleur::depuis_cle_spec(self.color@),
    {
        Couleur::depuis_cle(self.color.as_str())
    }

    /// Vrai quand ce surlignage doit être montré : ni effacé, ni d'une couleur
    /// inconnue. Une pierre tombale traverse la synchronisation mais ne se
    /// dessine pas.
    pub open spec fn visible_spec(&self) -> bool {
        !self.deleted && Couleur::depuis_cle_spec(self.color@) is Some
    }

    /// Vrai quand ce surlignage doit être montré.
    pub fn visible(&self) -> (r: bool)
        ensures
            r == self.visible_spec(),
    {
        !self.deleted && self.couleur().is_some()
    }
}

/// Dernier écrit gagné, strictement : à égalité, le serveur garde sa version.
pub fn l_entrant_gagne(serveur: &Surlignage, entrant: &Surlignage) -> (r: bool)
    ensures
        r == (entrant.updated_at > serveur.updated_at),
{
    entrant.updated_at > serveur.updated_at
}

/// Le premier rang de la liste qui porte cette clé.
pub open spec fn rang_de(l: Seq<Surlignage>, c: (Seq<char>, u32)) -> Option<int>
    decreases l.len(),
{
    if l.len() == 0 {
        None
    } else {
        match rang_de(l.drop_last(), c) {
            Some(k) => Some(k),
            None => if cle_de(l.last()) == c {
                Some(l.len() - 1)
            } else {
                None
            },
        }
    }
}

/// Un surlignage entrant fondu dans la liste : il remplace celui de même clé
/// s'il est strictement plus récent, et s'ajoute au bout si la clé est neuve.
pub open spec fn fusion_un(l: Seq<Surlignage>, x: Surlignage) -> Seq<Surlignage> {
    match rang_de(l, cle_de(x)) {
        Some(k) => if x.updated_at > l[k].updated_at {
            l.update(k, x)
        } else {
            l
        },
        None => l.push(x),
    }
}

/// Les entrants fondus un à un, dans leur ordre.
pub open spec fn fusion(l: Seq<Surlignage>, entrants: Seq<Surlignage>) -> Seq<Surlignage>
    decreases entrants.len(),
{
    if entrants.len() == 0 {
        l
    } else {
        fusion_un(fusion(l, entrants.drop_last()), entrants.last())
    }
}

/// Ce que `rang_de` rend : le premier rang qui porte la clé.
pub proof fn lemme_rang_de(l: Seq<Surlignage>, c: (Seq<char>, u32))
    ensures
        rang_de(l, c) matches Some(k) ==> 0 <= k < l.len() && cle_de(l[k]) == c && forall|j: int|
            0 <= j < k ==> cle_de(#[trigger] l[j]) != c,
        rang_de(l, c) is None ==> forall|j: int| 0 <= j < l.len() ==> cle_de(#[trigger] l[j]) != c,
    decreases l.len(),
{
    if l.len() > 0 {
        let u = l.drop_last();
        lemme_rang_de(u, c);
        assert forall|j: int| 0 <= j < u.len() implies l[j] == u[j] by {}
        assert(l[l.len() - 1] == l.last());
    }
}

/// Le premier rang d'une clé dans la liste.
fn rang(l: &Vec<Surlignage>, chapitre: &str, verset: u32) -> (r: Option<usize>)
    ensures
        match r {
            Some(k) => k < l@.len() && rang_de(l@, (chapitre@, verset)) == Some(k as int),
            None => rang_de(l@, (chapitre@, verset)) is None,
        },
{
    proof {
        lemme_rang_de(l@, (chapitre@, verset));
    }
    let mut i: usize = 0;
    while i < l.len()
        invariant
            i <= l@.len(),
            forall|j: int| 0 <= j < i ==> cle_de(#[trigger] l@[j]) != (chapitre@, verset),
        decreases l@.len() - i,
    {
        if l[i].verse == verset && meme_texte(l[i].chapter_id.as_str(), chapitre) {
            assert(cle_de(l@[i as int]) == (chapitre@, verset));
            proof {
                lemme_rang_de(l@, (chapitre@, verset));
            }
            return Some(i);
        }
        i = i + 1;
    }
    None
}

/// Fusionne ce qui vient du serveur dans ce qu'on a, surlignage par
/// surlignage, jamais en bloc.
pub fn fusionner(locaux: &mut Vec<Surlignage>, entrants: Vec<Surlignage>)
    ensures
        final(locaux)@ == fusion(old(locaux)@, entrants@),
{
    let ghost debut = locaux@;
    let ghost tous = entrants@;
    let ghost mut n: int = 0;
    let mut reste = entrants;
    while reste.len() > 0
        invariant
            0 <= n <= tous.len(),
            reste@ == tous.skip(n),
            locaux@ == fusion(debut, tous.take(n)),
        decreases reste@.len(),
    {
        let entrant = reste.remove(0);
        assert(entrant == tous[n]);
        assert(tous.take(n + 1).drop_last() =~= tous.take(n));
        assert(tous.take(n + 1).last() == entrant);
        match rang(locaux, entrant.chapter_id.as_str(), entrant.verse) {
            Some(k) => {
                if l_entrant_gagne(&locaux[k], &entrant) {
                    locaux.set(k, entrant);
                }
            },
            None => {
                locaux.push(entrant);
            },
        }
        proof {
            n = n + 1;
            assert(reste@ =~= tous.skip(n));
        }
    }
    assert(tous.take(n) =~= tous);
}

// ───────────────────────── ce que la fusion garantit ────────────────────────

/// Vrai quand aucune clé ne paraît deux fois.
pub open spec fn cles_uniques(l: Seq<Surlignage>) -> bool {
    forall|i: int, j: int| 0 <= i < j < l.len() ==> cle_de(#[trigger] l[i]) != cle_de(#[trigger] l[j])
}

/// Vrai quand la liste porte un surlignage de cette clé.
pub open spec fn porte(l: Seq<Surlignage>, c: (Seq<char>, u32)) -> bool {
    exists|i: int| 0 <= i < l.len() && cle_de(#[trigger] l[i]) == c
}

/// Vrai quand le surlignage que la liste garde pour cette clé date au moins
/// de `t`.
pub open spec fn tient(l: Seq<Surlignage>, c: (Seq<char>, u32), t: i64) -> bool {
    match rang_de(l, c) {
        Some(k) => l[k].updated_at >= t,
        None => false,
    }
}

/// Deux listes aux mêmes clés, rang pour rang.
pub open spec fn memes_cles(a: Seq<Surlignage>, b: Seq<Surlignage>) -> bool {
    a.len() == b.len() && forall|i: int| 0 <= i < a.len() ==> cle_de(#[trigger] a[i]) == cle_de(b[i])
}

/// Le rang d'une clé ne dépend que des clés.
proof fn lemme_rang_memes_cles(a: Seq<Surlignage>, b: Seq<Surlignage>, c: (Seq<char>, u32))
    requires
        memes_cles(a, b),
    ensures
        rang_de(a, c) == rang_de(b, c),
    decreases a.len(),
{
    if a.len() > 0 {
        let a2 = a.drop_last();
        let b2 = b.drop_last();
        assert forall|i: int| 0 <= i < a2.len() implies cle_de(#[trigger] a2[i]) == cle_de(b2[i]) by {
            assert(a2[i] == a[i] && b2[i] == b[i]);
        }
        lemme_rang_memes_cles(a2, b2, c);
        assert(cle_de(a[a.len() - 1]) == cle_de(b[b.len() - 1]));
    }
}

/// Ajouter au bout ne change pas le rang d'une clé déjà présente.
proof fn lemme_rang_pousse(l: Seq<Surlignage>, x: Surlignage, c: (Seq<char>, u32))
    requires
        rang_de(l, c) is Some,
    ensures
        rang_de(l.push(x), c) == rang_de(l, c),
{
    assert(l.push(x).drop_last() =~= l);
}

/// Fondre un entrant ne laisse aucune clé moins récente qu'elle n'était.
proof fn lemme_fusion_un_garde(l: Seq<Surlignage>, x: Surlignage, c: (Seq<char>, u32), t: i64)
    requires
        tient(l, c, t),
    ensures
        tient(fusion_un(l, x), c, t),
        rang_de(fusion_un(l, x), c) == rang_de(l, c),
{
    let k = rang_de(l, c)->0;
    lemme_rang_de(l, c);
    lemme_rang_de(l, cle_de(x));
    match rang_de(l, cle_de(x)) {
        Some(k2) => {
            if x.updated_at > l[k2].updated_at {
                let m = l.update(k2, x);
                assert(memes_cles(m, l));
                lemme_rang_memes_cles(m, l, c);
            }
        },
        None => {
            lemme_rang_pousse(l, x, c);
            assert(l.push(x)[k] == l[k]);
        },
    }
}

/// Fondre des entrants ne laisse aucune clé moins récente qu'elle n'était.
proof fn lemme_fusion_garde(l: Seq<Surlignage>, e: Seq<Surlignage>, c: (Seq<char>, u32), t: i64)
    requires
        tient(l, c, t),
    ensures
        tient(fusion(l, e), c, t),
        rang_de(fusion(l, e), c) == rang_de(l, c),
    decreases e.len(),
{
    if e.len() > 0 {
        lemme_fusion_garde(l, e.drop_last(), c, t);
        lemme_fusion_un_garde(fusion(l, e.drop_last()), e.last(), c, t);
    }
}

/// Fondre un entrant le pose, ou laisse plus récent que lui.
proof fn lemme_fusion_un_pose(l: Seq<Surlignage>, x: Surlignage)
    ensures
        tient(fusion_un(l, x), cle_de(x), x.updated_at),
{
    lemme_rang_de(l, cle_de(x));
    match rang_de(l, cle_de(x)) {
        Some(k) => {
            if x.updated_at > l[k].updated_at {
                let m = l.update(k, x);
                assert(memes_cles(m, l));
                lemme_rang_memes_cles(m, l, cle_de(x));
            }
        },
        None => {
            let m = l.push(x);
            assert(m.drop_last() =~= l);
            assert(m.last() == x);
        },
    }
}

/// Après la fusion, chaque entrant est posé, ou plus récent que lui.
proof fn lemme_fusion_entrants(l: Seq<Surlignage>, e: Seq<Surlignage>)
    ensures
        forall|j: int|
            0 <= j < e.len() ==> tient(fusion(l, e), cle_de(#[trigger] e[j]), e[j].updated_at),
    decreases e.len(),
{
    if e.len() > 0 {
        let avant = e.drop_last();
        let r = fusion(l, avant);
        lemme_fusion_entrants(l, avant);
        assert forall|j: int| 0 <= j < e.len() implies tient(
            fusion(l, e),
            cle_de(#[trigger] e[j]),
            e[j].updated_at,
        ) by {
            if j < avant.len() {
                assert(e[j] == avant[j]);
                lemme_fusion_un_garde(r, e.last(), cle_de(e[j]), e[j].updated_at);
            } else {
                lemme_fusion_un_pose(r, e.last());
            }
        }
    }
}

/// **Le plus récent gagne.** Après la fusion, la marque gardée pour un verset
/// est au moins aussi récente que chacune de celles qui sont arrivées pour lui,
/// et que celle qu'on avait.
pub proof fn loi_le_plus_recent_gagne(locaux: Seq<Surlignage>, entrants: Seq<Surlignage>)
    ensures
        forall|j: int|
            0 <= j < entrants.len() ==> tient(
                fusion(locaux, entrants),
                cle_de(#[trigger] entrants[j]),
                entrants[j].updated_at,
            ),
        forall|i: int|
            0 <= i < locaux.len() && rang_de(locaux, cle_de(#[trigger] locaux[i])) == Some(i)
                ==> tient(fusion(locaux, entrants), cle_de(locaux[i]), locaux[i].updated_at),
{
    lemme_fusion_entrants(locaux, entrants);
    assert forall|i: int|
        0 <= i < locaux.len() && rang_de(locaux, cle_de(#[trigger] locaux[i])) == Some(i) implies tient(
        fusion(locaux, entrants),
        cle_de(locaux[i]),
        locaux[i].updated_at,
    ) by {
        lemme_fusion_garde(locaux, entrants, cle_de(locaux[i]), locaux[i].updated_at);
    }
}

/// **À égalité, l'existant reste.** Quand aucun entrant d'un verset n'est
/// strictement plus récent que la marque qu'on a pour lui, on la garde telle
/// quelle, à son rang.
pub proof fn loi_l_egalite_garde_l_existant(
    locaux: Seq<Surlignage>,
    entrants: Seq<Surlignage>,
    c: (Seq<char>, u32),
)
    requires
        rang_de(locaux, c) is Some,
        forall|j: int|
            0 <= j < entrants.len() && cle_de(#[trigger] entrants[j]) == c ==> entrants[j].updated_at
                <= locaux[rang_de(locaux, c)->0].updated_at,
    ensures
        rang_de(fusion(locaux, entrants), c) == rang_de(locaux, c),
        fusion(locaux, entrants)[rang_de(locaux, c)->0] == locaux[rang_de(locaux, c)->0],
    decreases entrants.len(),
{
    let k = rang_de(locaux, c)->0;
    if entrants.len() > 0 {
        let avant = entrants.drop_last();
        assert forall|j: int|
            0 <= j < avant.len() && cle_de(#[trigger] avant[j]) == c implies avant[j].updated_at
            <= locaux[k].updated_at by {
            assert(avant[j] == entrants[j]);
        }
        loi_l_egalite_garde_l_existant(locaux, avant, c);
        let r = fusion(locaux, avant);
        let x = entrants.last();
        assert(x == entrants[entrants.len() - 1]);
        lemme_rang_de(r, cle_de(x));
        lemme_rang_de(r, c);
        match rang_de(r, cle_de(x)) {
            Some(k2) => {
                if x.updated_at > r[k2].updated_at {
                    assert(k2 != k);
                    let m = r.update(k2, x);
                    assert(memes_cles(m, r));
                    lemme_rang_memes_cles(m, r, c);
                }
            },
            None => {
                lemme_rang_pousse(r, x, c);
                assert(r.push(x)[k] == r[k]);
            },
        }
    }
}

/// **Deux marques ne coexistent pas sur un verset** : fondre garde les clés
/// uniques.
pub proof fn loi_une_marque_par_verset(locaux: Seq<Surlignage>, entrants: Seq<Surlignage>)
    requires
        cles_uniques(locaux),
    ensures
        cles_uniques(fusion(locaux, entrants)),
    decreases entrants.len(),
{
    if entrants.len() > 0 {
        loi_une_marque_par_verset(locaux, entrants.drop_last());
        let r = fusion(locaux, entrants.drop_last());
        let x = entrants.last();
        lemme_rang_de(r, cle_de(x));
        match rang_de(r, cle_de(x)) {
            Some(k) => {
                if x.updated_at > r[k].updated_at {
                    let m = r.update(k, x);
                    assert(memes_cles(m, r));
                    assert forall|i: int, j: int| 0 <= i < j < m.len() implies cle_de(
                        #[trigger] m[i],
                    ) != cle_de(#[trigger] m[j]) by {
                        assert(cle_de(m[i]) == cle_de(r[i]));
                        assert(cle_de(m[j]) == cle_de(r[j]));
                    }
                }
            },
            None => {
                let m = r.push(x);
                assert forall|i: int, j: int| 0 <= i < j < m.len() implies cle_de(
                    #[trigger] m[i],
                ) != cle_de(#[trigger] m[j]) by {
                    if j == r.len() {
                        assert(m[i] == r[i]);
                    } else {
                        assert(m[i] == r[i] && m[j] == r[j]);
                    }
                }
            },
        }
    }
}

/// **Aucun verset ne se perd, aucun ne s'invente** : la fusion porte les
/// clés de ce qu'on avait et de ce qui est arrivé, et rien d'autre ; chaque
/// marque gardée est l'une d'elles.
pub proof fn loi_rien_ne_se_perd(
    locaux: Seq<Surlignage>,
    entrants: Seq<Surlignage>,
    c: (Seq<char>, u32),
)
    ensures
        porte(fusion(locaux, entrants), c) <==> (porte(locaux, c) || porte(entrants, c)),
        forall|i: int|
            0 <= i < fusion(locaux, entrants).len() ==> locaux.contains(
                #[trigger] fusion(locaux, entrants)[i],
            ) || entrants.contains(fusion(locaux, entrants)[i]),
    decreases entrants.len(),
{
    if entrants.len() > 0 {
        let avant = entrants.drop_last();
        loi_rien_ne_se_perd(locaux, avant, c);
        let r = fusion(locaux, avant);
        let x = entrants.last();
        assert(x == entrants[entrants.len() - 1]);
        assert(entrants.contains(x));
        lemme_rang_de(r, cle_de(x));
        let m = fusion(locaux, entrants);
        assert forall|i: int| 0 <= i < m.len() implies locaux.contains(#[trigger] m[i])
            || entrants.contains(m[i]) by {
            if m[i] != x {
                assert(m[i] == r[i]);
                if entrants.drop_last().contains(r[i]) {
                    let j = choose|j: int| 0 <= j < avant.len() && avant[j] == r[i];
                    assert(entrants[j] == r[i]);
                }
            }
        }
        if porte(avant, c) {
            let j = choose|j: int| 0 <= j < avant.len() && cle_de(#[trigger] avant[j]) == c;
            assert(entrants[j] == avant[j]);
        }
        if porte(entrants, c) && !porte(avant, c) {
            let j = choose|j: int| 0 <= j < entrants.len() && cle_de(#[trigger] entrants[j]) == c;
            if j < avant.len() {
                assert(avant[j] == entrants[j]);
            }
            assert(cle_de(x) == c);
        }
        match rang_de(r, cle_de(x)) {
            Some(k) => {
                if x.updated_at > r[k].updated_at {
                    assert(memes_cles(m, r));
                    if porte(m, c) {
                        let i = choose|i: int| 0 <= i < m.len() && cle_de(#[trigger] m[i]) == c;
                        assert(cle_de(r[i]) == c);
                    }
                    if porte(r, c) {
                        let i = choose|i: int| 0 <= i < r.len() && cle_de(#[trigger] r[i]) == c;
                        assert(cle_de(m[i]) == c);
                    }
                    if cle_de(x) == c {
                        assert(cle_de(m[k]) == c);
                    }
                } else {
                    if cle_de(x) == c {
                        assert(cle_de(r[k]) == c);
                    }
                }
            },
            None => {
                if porte(m, c) {
                    let i = choose|i: int| 0 <= i < m.len() && cle_de(#[trigger] m[i]) == c;
                    if i < r.len() {
                        assert(m[i] == r[i]);
                    }
                }
                if porte(r, c) {
                    let i = choose|i: int| 0 <= i < r.len() && cle_de(#[trigger] r[i]) == c;
                    assert(m[i] == r[i]);
                }
                if cle_de(x) == c {
                    assert(m[r.len() as int] == x);
                }
            },
        }
    }
}

/// Des entrants déjà tenus ne changent rien.
proof fn lemme_fusion_stable(r: Seq<Surlignage>, e: Seq<Surlignage>)
    requires
        forall|j: int| 0 <= j < e.len() ==> tient(r, cle_de(#[trigger] e[j]), e[j].updated_at),
    ensures
        fusion(r, e) == r,
    decreases e.len(),
{
    if e.len() > 0 {
        let avant = e.drop_last();
        assert forall|j: int| 0 <= j < avant.len() implies tient(
            r,
            cle_de(#[trigger] avant[j]),
            avant[j].updated_at,
        ) by {
            assert(avant[j] == e[j]);
        }
        lemme_fusion_stable(r, avant);
        assert(e.last() == e[e.len() - 1]);
        assert(tient(r, cle_de(e[e.len() - 1]), e[e.len() - 1].updated_at));
    }
}

/// **Fondre deux fois la même chose ne change rien de plus** : une
/// synchronisation rejouée laisse l'état tel que la première l'a laissé.
pub proof fn loi_rejouer_ne_change_rien(locaux: Seq<Surlignage>, entrants: Seq<Surlignage>)
    ensures
        fusion(fusion(locaux, entrants), entrants) == fusion(locaux, entrants),
{
    lemme_fusion_entrants(locaux, entrants);
    lemme_fusion_stable(fusion(locaux, entrants), entrants);
}

} // verus!
