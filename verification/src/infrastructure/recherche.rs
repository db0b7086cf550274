//! La requête posée à l'index de recherche.
//!
//! Le pliage de la requête — diacritiques ôtés, minuscules — et la forme nue de
//! l'hébreu viennent du pipeline, qui a produit l'index avec eux : l'appelant
//! les donne. Ce module décide du reste : la longueur minimale, la voie de
//! l'hébreu, le lemme, le barème de chaque enregistrement, et l'ordre — les
//! meilleurs d'abord, à points égaux par identifiant d'unité croissant, comme
//! l'app.

use vstd::prelude::*;

use crate::chaines::{avant, caracteres, lemme_precede_ordre, lemme_precede_transitif, meme_texte, precede, rogne, rogner};
use crate::domaine::recherche::{
    jugement, juger, loi_une_portee_ecarte_ce_qu_elle_exclut, vue_option, Niveau, Portee, MINIMUM,
    PLAFOND,
};

verus! {

/// Un enregistrement de l'index, tel que le pipeline l'a produit.
#[derive(Debug, Clone, PartialEq, Eq)]
pub struct Enregistrement {
    /// Le livre.
    pub livre: String,
    /// L'unité.
    pub unite: String,
    /// Le verset.
    pub verset: u32,
    /// L'extrait affiché.
    pub extrait: String,
    /// Le corps, plié.
    pub corps: String,
    /// La glose, pliée.
    pub glose: String,
    /// L'hébreu, nu.
    pub hebreu: String,
    /// Les lemmes que l'enregistrement porte.
    pub lemmes: Vec<String>,
    /// Vrai pour un titre.
    pub est_titre: bool,
}

/// Une trouvaille, telle que la page l'affiche.
#[derive(Debug, Clone, PartialEq, Eq)]
pub struct Trouvaille {
    pub livre_id: String,
    pub unite_id: String,
    pub verset: u32,
    pub extrait: String,
    pub niveau: Niveau,
    pub points: i32,
}

/// Vrai quand `a` passe devant `b` : plus de points, ou autant et une unité
/// qui vient avant.
pub open spec fn devance(a: Trouvaille, b: Trouvaille) -> bool {
    a.points > b.points || (a.points == b.points && precede(a.unite_id@, b.unite_id@))
}

/// La liste triée `t`, augmentée de `x` après tout ce qu'il ne devance pas —
/// le tri stable.
pub open spec fn place(t: Seq<Trouvaille>, x: Trouvaille) -> Seq<Trouvaille>
    decreases t.len(),
{
    if t.len() == 0 {
        seq![x]
    } else if devance(x, t.last()) {
        place(t.drop_last(), x).push(t.last())
    } else {
        t.push(x)
    }
}

/// Les trouvailles triées, les meilleures d'abord, de façon stable.
pub open spec fn classe(s: Seq<Trouvaille>) -> Seq<Trouvaille>
    decreases s.len(),
{
    if s.len() == 0 {
        Seq::empty()
    } else {
        place(classe(s.drop_last()), s.last())
    }
}

/// Les trouvailles d'un enregistrement, une par réponse de son barème.
pub open spec fn pour(r: Enregistrement, juges: Seq<(Niveau, i32)>) -> Seq<Trouvaille> {
    juges.map_values(
        |p: (Niveau, i32)|
            Trouvaille {
                livre_id: r.livre,
                unite_id: r.unite,
                verset: r.verset,
                extrait: r.extrait,
                niveau: p.0,
                points: p.1,
            },
    )
}

/// Les trouvailles de l'index, enregistrement après enregistrement.
pub open spec fn trouvailles(
    index: Seq<Enregistrement>,
    aiguille: Seq<char>,
    hebraique: Option<Seq<char>>,
    lemme: Option<Seq<char>>,
    portee: Portee,
) -> Seq<Trouvaille>
    decreases index.len(),
{
    if index.len() == 0 {
        Seq::empty()
    } else {
        let r = index.last();
        trouvailles(index.drop_last(), aiguille, hebraique, lemme, portee) + pour(
            r,
            jugement(
                r.corps@,
                r.glose@,
                r.hebreu@,
                r.lemmes@.map_values(|l: String| l@),
                r.est_titre,
                aiguille,
                hebraique,
                lemme,
                portee,
            ),
        )
    }
}

/// Vrai quand le texte porte au moins un caractère du bloc hébreu.
pub open spec fn hebreu_dans(s: Seq<char>) -> bool {
    exists|i: int| 0 <= i < s.len() && '\u{0590}' <= #[trigger] s[i] <= '\u{05FF}'
}

/// Vrai quand un enregistrement de l'index porte ce lemme.
pub open spec fn lemme_connu(index: Seq<Enregistrement>, lemme: Seq<char>) -> bool {
    exists|i: int, j: int|
        0 <= i < index.len() && 0 <= j < index[i].lemmes@.len() && (#[trigger] index[i].lemmes@[j])@
            == lemme
}

/// Ce que rend une recherche : rien pour une requête trop courte ; sinon les
/// trouvailles de l'index, classées, au plus `PLAFOND`.
pub open spec fn recherche(
    requete: Seq<char>,
    aiguille: Seq<char>,
    hebraique_nue: Seq<char>,
    portee: Portee,
    index: Seq<Enregistrement>,
) -> Seq<Trouvaille> {
    let brut = rogne(requete);
    if brut.len() < MINIMUM {
        Seq::empty()
    } else {
        let t = classe(
            trouvailles(
                index,
                aiguille,
                if hebreu_dans(brut) {
                    Some(hebraique_nue)
                } else {
                    None
                },
                if lemme_connu(index, aiguille) {
                    Some(aiguille)
                } else {
                    None
                },
                portee,
            ),
        );
        if t.len() <= PLAFOND {
            t
        } else {
            t.take(PLAFOND as int)
        }
    }
}

/// Vrai si la chaîne porte au moins un caractère du bloc hébreu : un seul
/// suffit, on ne tape pas une lettre hébraïque par accident.
pub fn est_hebreu(chaine: &str) -> (r: bool)
    ensures
        r == hebreu_dans(chaine@),
{
    let c = caracteres(chaine);
    let mut i: usize = 0;
    while i < c.len()
        invariant
            i <= c@.len(),
            c@ == chaine@,
            forall|j: int| 0 <= j < i ==> !('\u{0590}' <= #[trigger] c@[j] <= '\u{05FF}'),
        decreases c@.len() - i,
    {
        if '\u{0590}' <= c[i] && c[i] <= '\u{05FF}' {
            return true;
        }
        i = i + 1;
    }
    false
}

fn porte_le_lemme(index: &[Enregistrement], lemme: &str) -> (r: bool)
    ensures
        r == lemme_connu(index@, lemme@),
{
    let mut i: usize = 0;
    while i < index.len()
        invariant
            i <= index@.len(),
            forall|a: int, b: int|
                0 <= a < i && 0 <= b < index@[a].lemmes@.len() ==> (
                #[trigger] index@[a].lemmes@[b])@ != lemme@,
        decreases index@.len() - i,
    {
        let lemmes = &index[i].lemmes;
        let mut j: usize = 0;
        while j < lemmes.len()
            invariant
                i < index@.len(),
                *lemmes == index@[i as int].lemmes,
                j <= lemmes@.len(),
                forall|b: int| 0 <= b < j ==> (#[trigger] lemmes@[b])@ != lemme@,
            decreases lemmes@.len() - j,
        {
            if meme_texte(lemmes[j].as_str(), lemme) {
                return true;
            }
            j = j + 1;
        }
        i = i + 1;
    }
    false
}

/// Vrai quand `a` passe devant `b`.
fn devance_de(a: &Trouvaille, b: &Trouvaille) -> (r: bool)
    ensures
        r == devance(*a, *b),
{
    if a.points != b.points {
        return a.points > b.points;
    }
    let x = caracteres(a.unite_id.as_str());
    let y = caracteres(b.unite_id.as_str());
    avant(x.as_slice(), y.as_slice())
}

/// Placer après ce qu'il ne devance pas : la suite reprend la fin de la liste.
proof fn lemme_place_partiel(t: Seq<Trouvaille>, x: Trouvaille, k: int)
    requires
        0 <= k <= t.len(),
        forall|j: int| k <= j < t.len() ==> devance(x, #[trigger] t[j]),
    ensures
        place(t, x) == place(t.take(k), x) + t.skip(k),
    decreases t.len() - k,
{
    if k < t.len() {
        lemme_place_partiel(t, x, k + 1);
        let u = t.take(k + 1);
        assert(u.drop_last() =~= t.take(k));
        assert(u.last() == t[k]);
        assert(place(u, x) == place(t.take(k), x).push(t[k]));
        assert(place(t.take(k), x).push(t[k]) + t.skip(k + 1) =~= place(t.take(k), x) + t.skip(k));
    } else {
        assert(t.take(k) =~= t);
        assert(t.skip(k) =~= Seq::<Trouvaille>::empty());
        assert(place(t, x) + Seq::<Trouvaille>::empty() =~= place(t, x));
    }
}

/// Place une trouvaille dans la liste triée, après tout ce qu'elle ne
/// devance pas.
fn placer(v: &mut Vec<Trouvaille>, x: Trouvaille)
    ensures
        final(v)@ == place(old(v)@, x),
{
    let mut k: usize = v.len();
    while k > 0 && devance_de(&x, &v[k - 1])
        invariant
            k <= v@.len(),
            v@ == old(v)@,
            forall|j: int| k <= j < v@.len() ==> devance(x, #[trigger] v@[j]),
        decreases k,
    {
        k = k - 1;
    }
    proof {
        lemme_place_partiel(v@, x, k as int);
        let u = v@.take(k as int);
        if k > 0 {
            assert(u.last() == v@[k - 1]);
            assert(place(u, x) == u.push(x));
        } else {
            assert(u =~= Seq::<Trouvaille>::empty());
        }
    }
    let ghost avant_insertion = v@;
    v.insert(k, x);
    assert(v@ =~= avant_insertion.take(k as int).push(x) + avant_insertion.skip(k as int));
}

/// Cherche, et rend les meilleurs d'abord.
///
/// `aiguille` est la requête rognée puis pliée par le pipeline, et
/// `hebraique_nue` sa forme hébraïque nue ; la voie de l'hébreu n'est prise que
/// si la requête porte une lettre hébraïque, et le lemme ne compte que si
/// l'index le connaît.
pub fn chercher(
    requete: &str,
    aiguille: &str,
    hebraique_nue: &str,
    portee: Portee,
    index: &[Enregistrement],
) -> (r: Vec<Trouvaille>)
    ensures
        r@ == recherche(requete@, aiguille@, hebraique_nue@, portee, index@),
{
    let c = caracteres(requete);
    let brut = rogner(c.as_slice());
    if brut.len() < MINIMUM {
        return Vec::new();
    }
    let mut hebreu = false;
    let mut k: usize = 0;
    while k < brut.len()
        invariant
            k <= brut@.len(),
            hebreu == exists|j: int| 0 <= j < k && '\u{0590}' <= #[trigger] brut@[j] <= '\u{05FF}',
        decreases brut@.len() - k,
    {
        if '\u{0590}' <= brut[k] && brut[k] <= '\u{05FF}' {
            hebreu = true;
        }
        k = k + 1;
    }
    let hebraique: Option<&str> = if hebreu {
        Some(hebraique_nue)
    } else {
        None
    };
    let lemme: Option<&str> = if porte_le_lemme(index, aiguille) {
        Some(aiguille)
    } else {
        None
    };
    let ghost h = vue_option(hebraique);
    let ghost l = vue_option(lemme);
    let mut classees: Vec<Trouvaille> = Vec::new();
    let mut i: usize = 0;
    while i < index.len()
        invariant
            i <= index@.len(),
            h == vue_option(hebraique),
            l == vue_option(lemme),
            classees@ == classe(trouvailles(index@.take(i as int), aiguille@, h, l, portee)),
        decreases index@.len() - i,
    {
        let e = &index[i];
        let juges = juger(
            e.corps.as_str(),
            e.glose.as_str(),
            e.hebreu.as_str(),
            e.lemmes.as_slice(),
            e.est_titre,
            aiguille,
            hebraique,
            lemme,
            portee,
        );
        let ghost debut = trouvailles(index@.take(i as int), aiguille@, h, l, portee);
        let ghost nouvelles = pour(*e, juges@);
        assert(index@.take(i + 1).drop_last() =~= index@.take(i as int));
        assert(index@.take(i + 1).last() == *e);
        assert(trouvailles(index@.take(i + 1), aiguille@, h, l, portee) == debut + nouvelles);
        let mut j: usize = 0;
        while j < juges.len()
            invariant
                j <= juges@.len(),
                nouvelles == pour(*e, juges@),
                classees@ == classe(debut + nouvelles.take(j as int)),
            decreases juges@.len() - j,
        {
            let (niveau, points) = juges[j];
            let t = Trouvaille {
                livre_id: e.livre.clone(),
                unite_id: e.unite.clone(),
                verset: e.verset,
                extrait: e.extrait.clone(),
                niveau,
                points,
            };
            assert(t == nouvelles[j as int]);
            let ghost s = debut + nouvelles.take(j as int);
            assert((debut + nouvelles.take(j + 1)).drop_last() =~= s);
            assert((debut + nouvelles.take(j + 1)).last() == t);
            placer(&mut classees, t);
            j = j + 1;
        }
        assert(nouvelles.take(nouvelles.len() as int) =~= nouvelles);
        i = i + 1;
    }
    assert(index@.take(index@.len() as int) =~= index@);
    proof {
        assert(hebreu == hebreu_dans(rogne(requete@)));
    }
    if classees.len() > PLAFOND {
        classees.truncate(PLAFOND);
    }
    classees
}

// ───────────────────────── les meilleurs d'abord ─────────────────────────────

/// Vrai quand aucune trouvaille n'en devance une qui la précède.
pub open spec fn en_ordre(t: Seq<Trouvaille>) -> bool {
    forall|i: int, j: int| 0 <= i < j < t.len() ==> !devance(#[trigger] t[j], #[trigger] t[i])
}

/// Ne pas devancer est transitif ; devancer est asymétrique.
proof fn lemme_devance(a: Trouvaille, b: Trouvaille, c: Trouvaille)
    ensures
        devance(a, b) ==> !devance(b, a),
        !devance(a, b) && !devance(b, c) ==> !devance(a, c),
{
    lemme_precede_ordre(a.unite_id@, b.unite_id@);
    lemme_precede_ordre(b.unite_id@, c.unite_id@);
    lemme_precede_ordre(a.unite_id@, c.unite_id@);
    if !devance(a, b) && !devance(b, c) && a.points == c.points && precede(
        a.unite_id@,
        c.unite_id@,
    ) {
        if precede(c.unite_id@, b.unite_id@) {
            lemme_precede_transitif(c.unite_id@, b.unite_id@, a.unite_id@);
        }
        if precede(b.unite_id@, a.unite_id@) {
            lemme_precede_transitif(c.unite_id@, b.unite_id@, a.unite_id@);
        }
    }
}

/// Placer garde ce qu'on avait, et ajoute la trouvaille.
proof fn lemme_place_porte(t: Seq<Trouvaille>, x: Trouvaille, e: Trouvaille)
    ensures
        place(t, x).contains(e) <==> (t.contains(e) || e == x),
        place(t, x).len() == t.len() + 1,
    decreases t.len(),
{
    if t.len() == 0 {
        if e == x {
            assert(seq![x][0] == e);
        }
    } else {
        let u = t.drop_last();
        let l = t.last();
        assert(t[t.len() - 1] == l);
        if devance(x, l) {
            lemme_place_porte(u, x, e);
            let p = place(u, x);
            if p.push(l).contains(e) {
                let k = choose|k: int| 0 <= k < p.push(l).len() && p.push(l)[k] == e;
                if k < p.len() {
                    assert(p[k] == e);
                    if u.contains(e) {
                        let m = choose|m: int| 0 <= m < u.len() && u[m] == e;
                        assert(t[m] == e);
                    }
                }
            }
            if t.contains(e) {
                let k = choose|k: int| 0 <= k < t.len() && t[k] == e;
                if k < t.len() - 1 {
                    assert(u[k] == e);
                    assert(p.contains(e));
                    let m = choose|m: int| 0 <= m < p.len() && p[m] == e;
                    assert(p.push(l)[m] == e);
                } else {
                    assert(p.push(l)[p.len() as int] == e);
                }
            }
            if e == x {
                assert(p.contains(e));
                let m = choose|m: int| 0 <= m < p.len() && p[m] == e;
                assert(p.push(l)[m] == e);
            }
        } else {
            if t.push(x).contains(e) {
                let k = choose|k: int| 0 <= k < t.push(x).len() && t.push(x)[k] == e;
                if k < t.len() {
                    assert(t[k] == e);
                }
            }
            if t.contains(e) {
                let k = choose|k: int| 0 <= k < t.len() && t[k] == e;
                assert(t.push(x)[k] == e);
            }
            if e == x {
                assert(t.push(x)[t.len() as int] == e);
            }
        }
    }
}

/// Placer dans une liste en ordre la garde en ordre.
proof fn lemme_place_en_ordre(t: Seq<Trouvaille>, x: Trouvaille)
    requires
        en_ordre(t),
    ensures
        en_ordre(place(t, x)),
    decreases t.len(),
{
    if t.len() > 0 {
        let u = t.drop_last();
        let l = t.last();
        assert(t[t.len() - 1] == l);
        assert(en_ordre(u)) by {
            assert forall|i: int, j: int| 0 <= i < j < u.len() implies !devance(
                #[trigger] u[j],
                #[trigger] u[i],
            ) by {
                assert(u[i] == t[i] && u[j] == t[j]);
            }
        }
        if devance(x, l) {
            lemme_place_en_ordre(u, x);
            let p = place(u, x);
            lemme_place_porte(u, x, x);
            assert forall|i: int, j: int| 0 <= i < j < p.push(l).len() implies !devance(
                #[trigger] p.push(l)[j],
                #[trigger] p.push(l)[i],
            ) by {
                if j == p.len() {
                    let e = p[i];
                    assert(p.contains(e));
                    lemme_place_porte(u, x, e);
                    if e == x {
                        lemme_devance(x, l, x);
                    } else {
                        let m = choose|m: int| 0 <= m < u.len() && u[m] == e;
                        assert(t[m] == e);
                        assert(!devance(t[t.len() - 1], t[m]));
                    }
                } else {
                    assert(p.push(l)[i] == p[i] && p.push(l)[j] == p[j]);
                }
            }
        } else {
            assert forall|i: int, j: int| 0 <= i < j < t.push(x).len() implies !devance(
                #[trigger] t.push(x)[j],
                #[trigger] t.push(x)[i],
            ) by {
                if j == t.len() {
                    if i < t.len() - 1 {
                        assert(!devance(t[t.len() - 1], t[i]));
                        lemme_devance(x, l, t[i]);
                    }
                } else {
                    assert(t.push(x)[i] == t[i] && t.push(x)[j] == t[j]);
                }
            }
        }
    }
}

/// Le classement est en ordre.
proof fn lemme_classe_en_ordre(s: Seq<Trouvaille>)
    ensures
        en_ordre(classe(s)),
    decreases s.len(),
{
    if s.len() > 0 {
        lemme_classe_en_ordre(s.drop_last());
        lemme_place_en_ordre(classe(s.drop_last()), s.last());
    }
}

/// **Une requête trop courte ne cherche pas** : moins de `MINIMUM`
/// caractères, blancs des bouts ôtés, ne trouvent rien — une lettre
/// rendrait tout le corpus.
pub proof fn loi_une_requete_trop_courte_ne_cherche_pas(
    requete: Seq<char>,
    aiguille: Seq<char>,
    hebraique_nue: Seq<char>,
    portee: Portee,
    index: Seq<Enregistrement>,
)
    requires
        rogne(requete).len() < MINIMUM,
    ensures
        recherche(requete, aiguille, hebraique_nue, portee, index) == Seq::<Trouvaille>::empty(),
{
}

/// **Les meilleurs viennent d'abord, et le plafond est tenu** : aucune
/// trouvaille rendue n'en devance une qui la précède — plus de points d'abord,
/// à points égaux l'unité qui vient avant —, et il n'y en a jamais plus de
/// `PLAFOND`.
pub proof fn loi_les_meilleurs_viennent_d_abord(
    requete: Seq<char>,
    aiguille: Seq<char>,
    hebraique_nue: Seq<char>,
    portee: Portee,
    index: Seq<Enregistrement>,
)
    ensures
        en_ordre(recherche(requete, aiguille, hebraique_nue, portee, index)),
        recherche(requete, aiguille, hebraique_nue, portee, index).len() <= PLAFOND,
{
    let brut = rogne(requete);
    if brut.len() >= MINIMUM {
        let s = trouvailles(
            index,
            aiguille,
            if hebreu_dans(brut) {
                Some(hebraique_nue)
            } else {
                None
            },
            if lemme_connu(index, aiguille) {
                Some(aiguille)
            } else {
                None
            },
            portee,
        );
        lemme_classe_en_ordre(s);
        let t = classe(s);
        if t.len() > PLAFOND {
            let u = t.take(PLAFOND as int);
            assert forall|i: int, j: int| 0 <= i < j < u.len() implies !devance(
                #[trigger] u[j],
                #[trigger] u[i],
            ) by {
                assert(u[i] == t[i] && u[j] == t[j]);
            }
        }
    }
}


/// Vrai quand toutes les trouvailles sont de ce niveau.
pub open spec fn toutes_de(s: Seq<Trouvaille>, n: Niveau) -> bool {
    forall|i: int| 0 <= i < s.len() ==> (#[trigger] s[i]).niveau == n
}

proof fn lemme_place_toutes_de(t: Seq<Trouvaille>, x: Trouvaille, n: Niveau)
    requires
        toutes_de(t, n),
        x.niveau == n,
    ensures
        toutes_de(place(t, x), n),
    decreases t.len(),
{
    if t.len() > 0 {
        if devance(x, t.last()) {
            let u = t.drop_last();
            assert(toutes_de(u, n)) by {
                assert forall|i: int| 0 <= i < u.len() implies (#[trigger] u[i]).niveau == n by {
                    assert(u[i] == t[i]);
                }
            }
            lemme_place_toutes_de(u, x, n);
            let r = place(u, x).push(t.last());
            assert forall|i: int| 0 <= i < r.len() implies (#[trigger] r[i]).niveau == n by {
                if i < r.len() - 1 {
                    assert(r[i] == place(u, x)[i]);
                }
            }
        } else {
            let r = t.push(x);
            assert forall|i: int| 0 <= i < r.len() implies (#[trigger] r[i]).niveau == n by {
                if i < t.len() {
                    assert(r[i] == t[i]);
                }
            }
        }
    }
}

proof fn lemme_classe_toutes_de(s: Seq<Trouvaille>, n: Niveau)
    requires
        toutes_de(s, n),
    ensures
        toutes_de(classe(s), n),
    decreases s.len(),
{
    if s.len() > 0 {
        let u = s.drop_last();
        assert(toutes_de(u, n)) by {
            assert forall|i: int| 0 <= i < u.len() implies (#[trigger] u[i]).niveau == n by {
                assert(u[i] == s[i]);
            }
        }
        lemme_classe_toutes_de(u, n);
        assert(s.last() == s[s.len() - 1]);
        lemme_place_toutes_de(classe(u), s.last(), n);
    }
}

proof fn lemme_trouvailles_de_la_portee(
    index: Seq<Enregistrement>,
    aiguille: Seq<char>,
    hebraique: Option<Seq<char>>,
    lemme: Option<Seq<char>>,
    portee: Portee,
)
    requires
        portee == Portee::Corps || (portee == Portee::Gloses && hebraique is None),
    ensures
        toutes_de(
            trouvailles(index, aiguille, hebraique, lemme, portee),
            if portee == Portee::Corps {
                Niveau::Corps
            } else {
                Niveau::Glose
            },
        ),
    decreases index.len(),
{
    if index.len() > 0 {
        let n = if portee == Portee::Corps {
            Niveau::Corps
        } else {
            Niveau::Glose
        };
        let r = index.last();
        lemme_trouvailles_de_la_portee(index.drop_last(), aiguille, hebraique, lemme, portee);
        let lemmes = r.lemmes@.map_values(|l: String| l@);
        loi_une_portee_ecarte_ce_qu_elle_exclut(
            r.corps@,
            r.glose@,
            r.hebreu@,
            lemmes,
            r.est_titre,
            aiguille,
            hebraique,
            lemme,
        );
        let j = jugement(
            r.corps@,
            r.glose@,
            r.hebreu@,
            lemmes,
            r.est_titre,
            aiguille,
            hebraique,
            lemme,
            portee,
        );
        let a = trouvailles(index.drop_last(), aiguille, hebraique, lemme, portee);
        let b = pour(r, j);
        assert forall|i: int| 0 <= i < (a + b).len() implies (#[trigger] (a + b)[i]).niveau == n by {
            if i < a.len() {
                assert((a + b)[i] == a[i]);
            } else {
                assert((a + b)[i] == b[i - a.len()]);
                assert(j[i - a.len()].0 == n);
            }
        }
    }
}

/// **Une portée se tient dans la recherche entière** : chercher dans le texte
/// ne rend que des trouvailles du texte ; chercher dans les gloses une
/// requête qui n'est pas en hébreu ne rend que des gloses.
pub proof fn loi_la_recherche_tient_sa_portee(
    requete: Seq<char>,
    aiguille: Seq<char>,
    hebraique_nue: Seq<char>,
    index: Seq<Enregistrement>,
)
    ensures
        toutes_de(recherche(requete, aiguille, hebraique_nue, Portee::Corps, index), Niveau::Corps),
        !hebreu_dans(rogne(requete)) ==> toutes_de(
            recherche(requete, aiguille, hebraique_nue, Portee::Gloses, index),
            Niveau::Glose,
        ),
{
    let brut = rogne(requete);
    if brut.len() >= MINIMUM {
        let h = if hebreu_dans(brut) {
            Some(hebraique_nue)
        } else {
            None
        };
        let l = if lemme_connu(index, aiguille) {
            Some(aiguille)
        } else {
            None
        };
        lemme_trouvailles_de_la_portee(index, aiguille, h, l, Portee::Corps);
        lemme_classe_toutes_de(trouvailles(index, aiguille, h, l, Portee::Corps), Niveau::Corps);
        let t = classe(trouvailles(index, aiguille, h, l, Portee::Corps));
        if t.len() > PLAFOND {
            let u = t.take(PLAFOND as int);
            assert forall|i: int| 0 <= i < u.len() implies (#[trigger] u[i]).niveau == Niveau::Corps by {
                assert(u[i] == t[i]);
            }
        }
        if !hebreu_dans(brut) {
            lemme_trouvailles_de_la_portee(index, aiguille, h, l, Portee::Gloses);
            lemme_classe_toutes_de(trouvailles(index, aiguille, h, l, Portee::Gloses), Niveau::Glose);
            let g = classe(trouvailles(index, aiguille, h, l, Portee::Gloses));
            if g.len() > PLAFOND {
                let u = g.take(PLAFOND as int);
                assert forall|i: int| 0 <= i < u.len() implies (#[trigger] u[i]).niveau == Niveau::Glose by {
                    assert(u[i] == g[i]);
                }
            }
        }
    }
}


/// Le classement garde chaque trouvaille, et n'en ajoute aucune.
proof fn lemme_classe_porte(s: Seq<Trouvaille>, e: Trouvaille)
    ensures
        classe(s).contains(e) <==> s.contains(e),
        classe(s).len() == s.len(),
    decreases s.len(),
{
    if s.len() > 0 {
        let u = s.drop_last();
        lemme_classe_porte(u, e);
        lemme_place_porte(classe(u), s.last(), e);
        assert(s =~= u.push(s.last()));
        if s.contains(e) {
            let k = choose|k: int| 0 <= k < s.len() && s[k] == e;
            if k < u.len() {
                assert(u[k] == e);
            }
        }
        if u.contains(e) {
            let k = choose|k: int| 0 <= k < u.len() && u[k] == e;
            assert(s[k] == e);
        }
        if e == s.last() {
            assert(s[s.len() - 1] == e);
        }
    }
}

/// **Le plafond garde les meilleurs** : une recherche rend autant de
/// trouvailles que l'index en donne, au plus `PLAFOND` ; chacune est une
/// trouvaille de l'index ; et aucune trouvaille de l'index laissée de côté ne
/// devance une trouvaille rendue — quand il y en a trop, ce sont les moins
/// bonnes qui tombent : la recherche rend le début du classement, et la
/// première rendue est la meilleure de tout l'index.
pub proof fn loi_le_plafond_garde_les_meilleurs(
    requete: Seq<char>,
    aiguille: Seq<char>,
    hebraique_nue: Seq<char>,
    portee: Portee,
    index: Seq<Enregistrement>,
)
    requires
        rogne(requete).len() >= MINIMUM,
    ensures
        ({
            let s = trouvailles(
                index,
                aiguille,
                if hebreu_dans(rogne(requete)) {
                    Some(hebraique_nue)
                } else {
                    None
                },
                if lemme_connu(index, aiguille) {
                    Some(aiguille)
                } else {
                    None
                },
                portee,
            );
            let r = recherche(requete, aiguille, hebraique_nue, portee, index);
            &&& r.len() == if s.len() <= PLAFOND {
                s.len()
            } else {
                PLAFOND as nat
            }
            &&& r == classe(s).take(r.len() as int)
            &&& forall|i: int| 0 <= i < r.len() ==> s.contains(#[trigger] r[i])
            &&& forall|x: Trouvaille, i: int|
                s.contains(x) && !r.contains(x) && 0 <= i < r.len() ==> !#[trigger] devance(
                    x,
                    r[i],
                )
            &&& forall|x: Trouvaille| s.contains(x) && r.len() > 0 ==> !#[trigger] devance(x, r[0])
        }),
{
    let s = trouvailles(
        index,
        aiguille,
        if hebreu_dans(rogne(requete)) {
            Some(hebraique_nue)
        } else {
            None
        },
        if lemme_connu(index, aiguille) {
            Some(aiguille)
        } else {
            None
        },
        portee,
    );
    let t = classe(s);
    let r = recherche(requete, aiguille, hebraique_nue, portee, index);
    lemme_classe_en_ordre(s);
    assert(t.len() == s.len()) by {
        if s.len() > 0 {
            lemme_classe_porte(s, s[0]);
        }
    }
    assert(r == if t.len() <= PLAFOND {
        t
    } else {
        t.take(PLAFOND as int)
    });
    assert(r =~= t.take(r.len() as int));
    assert forall|i: int| 0 <= i < r.len() implies s.contains(#[trigger] r[i]) by {
        assert(r[i] == t[i]);
        lemme_classe_porte(s, t[i]);
    }
    assert forall|x: Trouvaille, i: int|
        s.contains(x) && 0 <= i < r.len() && (!r.contains(x) || i == 0) implies !#[trigger] devance(
        x,
        r[i],
    ) by {
        lemme_classe_porte(s, x);
        let k = choose|k: int| 0 <= k < t.len() && t[k] == x;
        assert(r[i] == t[i]);
        if k < r.len() {
            assert(r[k] == x);
        }
        if i < k {
            assert(!devance(t[k], t[i]));
        } else if i == k {
            lemme_devance(x, x, x);
        } else {
            assert(i == 0);
        }
    }
}
} // verus!
