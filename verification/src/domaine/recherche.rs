//! Le classement des résultats de recherche.
//!
//! Le pliage d'une chaîne — enlever les diacritiques, passer en minuscules —
//! est fait avant d'arriver ici. Le **classement**, lui, est une décision
//! éditoriale : un titre pèse plus qu'un corps, un mot entier plus qu'un
//! fragment, une glose moins que le texte. Les valeurs sont celles de l'app, à
//! l'unité près : un lecteur doit voir les mêmes résultats dans le même ordre
//! sur son téléphone et sur le site.
//!
//! Les positions se comptent en caractères.

use vstd::prelude::*;

use crate::chaines::{
    apparait_a, caracteres, commence, commence_par, contient, est_lettre, lemme_premiere, lettre,
    meme_texte, premiere, trouver,
};

verus! {

/// Où l'on cherche.
#[derive(Debug, Clone, Copy, PartialEq, Eq, Structural)]
pub enum Portee {
    /// « Dans le texte » — le corps de la traduction seul.
    Corps,
    /// « Dans les gloses » — le niveau 2 seul.
    Gloses,
    /// « Partout ».
    Partout,
}

impl Default for Portee {
    /// Partout.
    fn default() -> (r: Self)
        ensures
            r == Portee::Partout,
    {
        Portee::Partout
    }
}

impl Portee {
    /// Ce que porte l'adresse.
    pub open spec fn cle_spec(self) -> Seq<char> {
        match self {
            Portee::Corps => "corps"@,
            Portee::Gloses => "gloses"@,
            Portee::Partout => "partout"@,
        }
    }

    /// Ce que porte l'adresse.
    pub fn cle(self) -> (r: &'static str)
        ensures
            r@ == self.cle_spec(),
    {
        match self {
            Portee::Corps => "corps",
            Portee::Gloses => "gloses",
            Portee::Partout => "partout",
        }
    }

    /// Le libellé de l'app.
    pub open spec fn libelle_spec(self) -> Seq<char> {
        match self {
            Portee::Corps => "Dans le texte"@,
            Portee::Gloses => "Dans les gloses"@,
            Portee::Partout => "Partout"@,
        }
    }

    /// Le libellé de l'app, puisqu'il s'affiche.
    pub fn libelle(self) -> (r: &'static str)
        ensures
            r@ == self.libelle_spec(),
    {
        match self {
            Portee::Corps => "Dans le texte",
            Portee::Gloses => "Dans les gloses",
            Portee::Partout => "Partout",
        }
    }

    /// La portée qu'une clé désigne ; une clé inconnue vaut « partout ».
    pub open spec fn depuis_cle_spec(cle: Seq<char>) -> Portee {
        if cle == "corps"@ {
            Portee::Corps
        } else if cle == "gloses"@ {
            Portee::Gloses
        } else {
            Portee::Partout
        }
    }

    /// La portée qu'une clé désigne ; une clé inconnue vaut « partout ».
    pub fn depuis_cle(cle: &str) -> (r: Portee)
        ensures
            r == Portee::depuis_cle_spec(cle@),
    {
        if meme_texte(cle, "corps") {
            Portee::Corps
        } else if meme_texte(cle, "gloses") {
            Portee::Gloses
        } else {
            Portee::Partout
        }
    }

    /// Les trois portées, dans l'ordre du menu.
    pub fn toutes() -> (r: [Portee; 3])
        ensures
            r@ == seq![Portee::Partout, Portee::Corps, Portee::Gloses],
    {
        let r = [Portee::Partout, Portee::Corps, Portee::Gloses];
        assert(r@ =~= seq![Portee::Partout, Portee::Corps, Portee::Gloses]);
        r
    }
}

/// **Une clé se relit en sa portée** : ce que l'adresse porte désigne la
/// portée qui l'a écrite.
pub proof fn loi_la_cle_se_relit(p: Portee)
    ensures
        Portee::depuis_cle_spec(p.cle_spec()) == p,
{
    reveal_strlit("corps");
    reveal_strlit("gloses");
    reveal_strlit("partout");
    assert("gloses"@.len() != "corps"@.len());
    assert("partout"@.len() != "corps"@.len());
    assert("partout"@.len() != "gloses"@.len());
}

/// Le niveau où la trouvaille a eu lieu — le texte, ou sa glose.
#[derive(Debug, Clone, Copy, PartialEq, Eq, Structural)]
pub enum Niveau {
    Corps,
    Glose,
}

/// La longueur minimale d'une requête, en caractères.
pub const MINIMUM: usize = 2;

/// Le nombre de résultats rendus au plus.
pub const PLAFOND: usize = 300;

/// Vrai quand la trouvaille de `longueur` caractères au rang `debut` n'est
/// bordée de lettres d'aucun côté.
pub open spec fn entier(foin: Seq<char>, debut: int, longueur: int) -> bool {
    !(debut > 0 && lettre(foin[debut - 1])) && !(debut + longueur < foin.len() && lettre(
        foin[debut + longueur],
    ))
}

/// Les points d'un corps qui contient l'aiguille au rang `ou`.
pub open spec fn points_du_corps(
    corps: Seq<char>,
    aiguille: Seq<char>,
    ou: int,
    est_titre: bool,
) -> i32 {
    (300 + (if commence_par(corps, aiguille) {
        60int
    } else {
        0int
    }) + (if entier(corps, ou, aiguille.len() as int) {
        40int
    } else {
        0int
    }) + (if est_titre {
        30int
    } else {
        0int
    })) as i32
}

/// Ce qu'un enregistrement vaut pour une requête.
///
/// Trois voies, exclusives dans cet ordre : l'hébreu, s'il est cherché, seul ;
/// sinon le corps puis la glose, qui peuvent répondre ensemble ; et le lemme
/// seulement si rien d'autre n'a répondu. Le lemme répond pour le texte : la
/// portée « dans les gloses » ne l'entend pas.
pub open spec fn jugement(
    corps: Seq<char>,
    glose: Seq<char>,
    hebreu: Seq<char>,
    lemmes: Seq<Seq<char>>,
    est_titre: bool,
    aiguille: Seq<char>,
    hebraique: Option<Seq<char>>,
    lemme: Option<Seq<char>>,
    portee: Portee,
) -> Seq<(Niveau, i32)> {
    match hebraique {
        Some(h) => if contient(hebreu, h) {
            seq![(Niveau::Corps, 500i32)]
        } else {
            Seq::empty()
        },
        None => {
            let du_corps = if portee != Portee::Gloses && premiere(corps, aiguille) is Some {
                seq![
                    (Niveau::Corps, points_du_corps(
                        corps,
                        aiguille,
                        premiere(corps, aiguille)->0,
                        est_titre,
                    )),
                ]
            } else {
                Seq::empty()
            };
            let trouves = if portee != Portee::Corps && glose.len() > 0 && contient(
                glose,
                aiguille,
            ) {
                du_corps.push((Niveau::Glose, 150i32))
            } else {
                du_corps
            };
            if trouves.len() == 0 && portee != Portee::Gloses {
                match lemme {
                    Some(l) => if lemmes.contains(l) {
                        seq![(Niveau::Corps, 100i32)]
                    } else {
                        Seq::empty()
                    },
                    None => Seq::empty(),
                }
            } else {
                trouves
            }
        },
    }
}

/// La suite de caractères d'un texte facultatif.
pub open spec fn vue_option(o: Option<&str>) -> Option<Seq<char>> {
    match o {
        Some(s) => Some(s@),
        None => None,
    }
}

/// Vrai quand un lemme de la liste est ce texte.
fn porte_lemme(lemmes: &[String], lemme: &str) -> (r: bool)
    ensures
        r == lemmes@.map_values(|l: String| l@).contains(lemme@),
{
    let ghost vues = lemmes@.map_values(|l: String| l@);
    let mut i: usize = 0;
    while i < lemmes.len()
        invariant
            i <= lemmes@.len(),
            vues == lemmes@.map_values(|l: String| l@),
            forall|j: int| 0 <= j < i ==> vues[j] != lemme@,
        decreases lemmes@.len() - i,
    {
        if meme_texte(lemmes[i].as_str(), lemme) {
            assert(vues[i as int] == lemme@);
            return true;
        }
        i = i + 1;
    }
    assert(!vues.contains(lemme@)) by {
        if vues.contains(lemme@) {
            let k = choose|k: int| 0 <= k < vues.len() && vues[k] == lemme@;
            assert(vues[k] != lemme@);
        }
    }
    false
}

/// Vrai quand la trouvaille, comptée en caractères, est bordée de non-lettres
/// des deux côtés.
pub fn mot_entier(foin: &str, debut: usize, longueur: usize) -> (r: bool)
    requires
        debut + longueur <= foin@.len(),
    ensures
        r == entier(foin@, debut as int, longueur as int),
{
    let c = caracteres(foin);
    let avant = debut > 0 && est_lettre(c[debut - 1]);
    let apres = debut + longueur < c.len() && est_lettre(c[debut + longueur]);
    !avant && !apres
}

fn mot_entier_de(c: &[char], debut: usize, longueur: usize) -> (r: bool)
    requires
        debut + longueur <= c@.len(),
    ensures
        r == entier(c@, debut as int, longueur as int),
{
    let avant = debut > 0 && est_lettre(c[debut - 1]);
    let apres = debut + longueur < c.len() && est_lettre(c[debut + longueur]);
    !avant && !apres
}

/// Ce qu'un enregistrement vaut pour une requête, ou rien s'il ne dit rien.
pub fn juger(
    corps_plie: &str,
    glose_pliee: &str,
    hebreu_nu: &str,
    lemmes: &[String],
    est_titre: bool,
    aiguille: &str,
    aiguille_hebraique: Option<&str>,
    aiguille_lemme: Option<&str>,
    portee: Portee,
) -> (r: Vec<(Niveau, i32)>)
    ensures
        r@ == jugement(
            corps_plie@,
            glose_pliee@,
            hebreu_nu@,
            lemmes@.map_values(|l: String| l@),
            est_titre,
            aiguille@,
            vue_option(aiguille_hebraique),
            vue_option(aiguille_lemme),
            portee,
        ),
{
    if let Some(hebraique) = aiguille_hebraique {
        let h = caracteres(hebreu_nu);
        let a = caracteres(hebraique);
        let mut r: Vec<(Niveau, i32)> = Vec::new();
        if trouver(h.as_slice(), a.as_slice()).is_some() {
            r.push((Niveau::Corps, 500));
            assert(r@ =~= seq![(Niveau::Corps, 500i32)]);
        }
        return r;
    }
    let corps = caracteres(corps_plie);
    let glose = caracteres(glose_pliee);
    let a = caracteres(aiguille);
    let mut trouves: Vec<(Niveau, i32)> = Vec::new();
    if portee != Portee::Gloses {
        if let Some(ou) = trouver(corps.as_slice(), a.as_slice()) {
            proof {
                lemme_premiere(corps@, a@);
            }
            let mut points: i32 = 300;
            if commence(corps.as_slice(), a.as_slice()) {
                points = points + 60;
            }
            if mot_entier_de(corps.as_slice(), ou, a.len()) {
                points = points + 40;
            }
            if est_titre {
                points = points + 30;
            }
            trouves.push((Niveau::Corps, points));
        }
    }
    let ghost du_corps = trouves@;
    if portee != Portee::Corps && glose.len() > 0 && trouver(glose.as_slice(), a.as_slice()).is_some() {
        trouves.push((Niveau::Glose, 150));
    }
    if trouves.len() == 0 && portee != Portee::Gloses {
        if let Some(lemme) = aiguille_lemme {
            if porte_lemme(lemmes, lemme) {
                trouves.push((Niveau::Corps, 100));
            }
        }
    }
    proof {
        let attendu = jugement(
            corps_plie@,
            glose_pliee@,
            hebreu_nu@,
            lemmes@.map_values(|l: String| l@),
            est_titre,
            aiguille@,
            vue_option(aiguille_hebraique),
            vue_option(aiguille_lemme),
            portee,
        );
        assert(trouves@ =~= attendu);
    }
    trouves
}

/// Vrai quand l'hébreu est cherché et trouvé.
pub open spec fn hebreu_trouve(hebreu: Seq<char>, hebraique: Option<Seq<char>>) -> bool {
    match hebraique {
        Some(h) => contient(hebreu, h),
        None => false,
    }
}

/// **Une portée écarte vraiment ce qu'elle exclut.** Chercher dans le texte ne
/// rend jamais de glose ; chercher dans les gloses ne rend que des gloses — le
/// lemme n'y répond pas. Seul l'hébreu, qui passe avant toute portée, peut
/// encore y répondre pour le texte, quand la requête est en hébreu.
pub proof fn loi_une_portee_ecarte_ce_qu_elle_exclut(
    corps: Seq<char>,
    glose: Seq<char>,
    hebreu: Seq<char>,
    lemmes: Seq<Seq<char>>,
    est_titre: bool,
    aiguille: Seq<char>,
    hebraique: Option<Seq<char>>,
    lemme: Option<Seq<char>>,
)
    ensures
        forall|i: int|
            0 <= i < jugement(
                corps,
                glose,
                hebreu,
                lemmes,
                est_titre,
                aiguille,
                hebraique,
                lemme,
                Portee::Corps,
            ).len() ==> (#[trigger] jugement(
                corps,
                glose,
                hebreu,
                lemmes,
                est_titre,
                aiguille,
                hebraique,
                lemme,
                Portee::Corps,
            )[i]).0 == Niveau::Corps,
        !hebreu_trouve(hebreu, hebraique) ==> forall|i: int|
            0 <= i < jugement(
                corps,
                glose,
                hebreu,
                lemmes,
                est_titre,
                aiguille,
                hebraique,
                lemme,
                Portee::Gloses,
            ).len() ==> (#[trigger] jugement(
                corps,
                glose,
                hebreu,
                lemmes,
                est_titre,
                aiguille,
                hebraique,
                lemme,
                Portee::Gloses,
            )[i]).0 == Niveau::Glose,
{
}

/// **Le lemme ne double pas une trouvaille** : un enregistrement répond au
/// plus deux fois, et la réponse du lemme vient seule.
pub proof fn loi_le_lemme_ne_double_rien(
    corps: Seq<char>,
    glose: Seq<char>,
    hebreu: Seq<char>,
    lemmes: Seq<Seq<char>>,
    est_titre: bool,
    aiguille: Seq<char>,
    hebraique: Option<Seq<char>>,
    lemme: Option<Seq<char>>,
    portee: Portee,
)
    ensures
        ({
            let r = jugement(
                corps,
                glose,
                hebreu,
                lemmes,
                est_titre,
                aiguille,
                hebraique,
                lemme,
                portee,
            );
            &&& r.len() <= 2
            &&& forall|i: int| 0 <= i < r.len() && (#[trigger] r[i]).1 == 100 ==> r.len() == 1
        }),
{
}

/// **Le barème de l'app** : cent pour un lemme, cent cinquante pour une
/// glose, cinq cents pour l'hébreu, et pour le texte trois cents, plus
/// soixante au début, quarante pour un mot entier, trente pour un titre.
pub proof fn loi_le_bareme(
    corps: Seq<char>,
    glose: Seq<char>,
    hebreu: Seq<char>,
    lemmes: Seq<Seq<char>>,
    est_titre: bool,
    aiguille: Seq<char>,
    hebraique: Option<Seq<char>>,
    lemme: Option<Seq<char>>,
    portee: Portee,
)
    ensures
        forall|i: int|
            0 <= i < jugement(
                corps,
                glose,
                hebreu,
                lemmes,
                est_titre,
                aiguille,
                hebraique,
                lemme,
                portee,
            ).len() ==> {
                let (n, p) = #[trigger] jugement(
                    corps,
                    glose,
                    hebreu,
                    lemmes,
                    est_titre,
                    aiguille,
                    hebraique,
                    lemme,
                    portee,
                )[i];
                ||| p == 100 && n == Niveau::Corps
                ||| p == 150 && n == Niveau::Glose
                ||| p == 500 && n == Niveau::Corps
                ||| 300 <= p <= 430 && n == Niveau::Corps
            },
{
}

/// **L'hébreu ne concourt pas avec la traduction : il la remplace.** Quand
/// l'hébreu est cherché, ni le corps, ni la glose, ni les lemmes, ni la
/// portée ne changent la réponse.
pub proof fn loi_l_hebreu_remplace_la_traduction(
    corps: Seq<char>,
    glose: Seq<char>,
    lemmes: Seq<Seq<char>>,
    est_titre: bool,
    aiguille: Seq<char>,
    lemme: Option<Seq<char>>,
    portee: Portee,
    autre_corps: Seq<char>,
    autre_glose: Seq<char>,
    autres_lemmes: Seq<Seq<char>>,
    autre_titre: bool,
    autre_aiguille: Seq<char>,
    autre_lemme: Option<Seq<char>>,
    autre_portee: Portee,
    hebreu: Seq<char>,
    hebraique: Seq<char>,
)
    ensures
        jugement(
            corps,
            glose,
            hebreu,
            lemmes,
            est_titre,
            aiguille,
            Some(hebraique),
            lemme,
            portee,
        ) == jugement(
            autre_corps,
            autre_glose,
            hebreu,
            autres_lemmes,
            autre_titre,
            autre_aiguille,
            Some(hebraique),
            autre_lemme,
            autre_portee,
        ),
{
}


/// **L'hébreu se trouve où qu'il soit dans le verset** : une requête en hébreu
/// `h` répond pour le texte, à cinq cents points, dès que `h` paraît à un rang
/// quelconque de l'hébreu nu de l'enregistrement — au début, au milieu ou à la
/// fin —, et ne rend rien quand `h` n'y paraît nulle part.
pub proof fn loi_l_hebreu_se_trouve_ou_qu_il_soit(
    corps: Seq<char>,
    glose: Seq<char>,
    hebreu: Seq<char>,
    lemmes: Seq<Seq<char>>,
    est_titre: bool,
    aiguille: Seq<char>,
    h: Seq<char>,
    lemme: Option<Seq<char>>,
    portee: Portee,
    rang: int,
)
    ensures
        apparait_a(hebreu, h, rang) ==> jugement(
            corps,
            glose,
            hebreu,
            lemmes,
            est_titre,
            aiguille,
            Some(h),
            lemme,
            portee,
        ) == seq![(Niveau::Corps, 500i32)],
        (forall|i: int| !apparait_a(hebreu, h, i)) ==> jugement(
            corps,
            glose,
            hebreu,
            lemmes,
            est_titre,
            aiguille,
            Some(h),
            lemme,
            portee,
        ).len() == 0,
{
    lemme_premiere(hebreu, h);
}
} // verus!
