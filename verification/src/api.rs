//! La frontière client ↔ serveur, réduite à ce qu'elle calcule : les
//! transports qu'on bâtit à partir du domaine, les marques qu'on envoie, et la
//! session qu'on relit dans son cookie.

use vstd::prelude::*;

use vstd::utf8::{
    decode_utf8, encode_utf8, encode_utf8_decode_utf8, encode_utf8_valid_utf8,
    is_ascii_chars, is_ascii_chars_encode_utf8, valid_utf8,
};

use crate::chaines::{
    blanc, caracteres, chaine, decimal, ecrire_decimal, lemme_coupe_concat,
    lemme_morceaux_sans_separateur, lemme_rogne_sans_bouts, meme_texte, morceaux, prolonger, rogne,
    rogner, coupe,
};
use crate::domaine::corpus::{
    rang_de_l_unite, rang_du_verset, somme_des_versets, versets_des, Chapitre, Entree, Livre,
    Statut,
};
use crate::domaine::surlignage::{Couleur, Surlignage};
use crate::domaine::texte::Verset;
use crate::domaine::vivier::VersetQuotidien;
use crate::interface::compte::{
    cookie_lu, encode, encode_octet, encode_octets, hexa, lire_cookie, sur, valeur_parmi,
    COOKIE_SESSION,
};

verus! {

// ───────────────────────── relire un cookie encodé ──────────────────────────

/// Ce que `String::from_utf8_lossy` rend pour ces octets.
pub uninterp spec fn lossy(octets: Seq<u8>) -> Seq<char>;

/// `String::from_utf8_lossy`, rendu en chaîne possédée.
///
/// Affirme que le résultat est celui que nomme `lossy`, et, comme la
/// documentation le dit, que des octets UTF-8 valides se lisent tels quels.
/// Ce qu'il fait des octets invalides n'est pas redit.
#[verifier::external_body]
fn texte_lossy(octets: &[u8]) -> (r: String)
    ensures
        r@ == lossy(octets@),
        valid_utf8(octets@) ==> r@ == decode_utf8(octets@),
{
    String::from_utf8_lossy(octets).into_owned()
}

/// La valeur d'un chiffre hexadécimal, majuscule ou minuscule.
pub open spec fn valeur_hexa(b: u8) -> Option<u8> {
    if 48 <= b <= 57 {
        Some((b - 48) as u8)
    } else if 65 <= b <= 70 {
        Some((b - 55) as u8)
    } else if 97 <= b <= 102 {
        Some((b - 87) as u8)
    } else {
        None
    }
}

/// L'octet qu'écrivent deux octets en base seize, comme les lit
/// `u8::from_str_radix` : deux chiffres, ou un `+` suivi d'un chiffre.
pub open spec fn paire_hexa(b1: u8, b2: u8) -> Option<u8> {
    if b1 == 43 {
        valeur_hexa(b2)
    } else {
        match (valeur_hexa(b1), valeur_hexa(b2)) {
            (Some(h), Some(l)) => Some((16 * h + l) as u8),
            _ => None,
        }
    }
}

/// Des octets décodés de gauche à droite : un `%` suivi de deux octets qui se
/// lisent en base seize devient l'octet qu'ils écrivent ; tout le reste passe.
pub open spec fn decode_octets(o: Seq<u8>) -> Seq<u8>
    decreases o.len(),
{
    if o.len() == 0 {
        Seq::empty()
    } else if o[0] == 37 && o.len() >= 3 && paire_hexa(o[1], o[2]) is Some {
        seq![paire_hexa(o[1], o[2])->0] + decode_octets(o.skip(3))
    } else {
        seq![o[0]] + decode_octets(o.skip(1))
    }
}

/// Le texte décodé : ses octets décodés, relus en UTF-8 — les séquences
/// invalides remplacées, s'il y en a.
pub open spec fn decode_texte(t: Seq<char>) -> Seq<char> {
    let d = decode_octets(encode_utf8(t));
    if valid_utf8(d) {
        decode_utf8(d)
    } else {
        lossy(d)
    }
}

fn valeur_hexa_de(b: u8) -> (r: Option<u8>)
    ensures
        r == valeur_hexa(b),
{
    if 48 <= b && b <= 57 {
        Some(b - 48)
    } else if 65 <= b && b <= 70 {
        Some(b - 55)
    } else if 97 <= b && b <= 102 {
        Some(b - 87)
    } else {
        None
    }
}

fn paire_hexa_de(b1: u8, b2: u8) -> (r: Option<u8>)
    ensures
        r == paire_hexa(b1, b2),
{
    if b1 == 43 {
        valeur_hexa_de(b2)
    } else {
        match (valeur_hexa_de(b1), valeur_hexa_de(b2)) {
            (Some(h), Some(l)) => Some(16 * h + l),
            _ => None,
        }
    }
}

/// Décode un texte encodé pour une adresse : `%XX` redevient l'octet qu'il
/// écrit, le reste passe, et les octets se relisent en UTF-8, les invalides
/// remplacés.
pub fn percent_decode(valeur: &str) -> (r: String)
    ensures
        r@ == decode_texte(valeur@),
{
    let o = valeur.as_bytes();
    let mut sortie: Vec<u8> = Vec::new();
    let mut i: usize = 0;
    assert(o@.skip(0) =~= o@);
    assert(sortie@ + decode_octets(o@.skip(0)) =~= decode_octets(o@));
    while i < o.len()
        invariant
            i <= o@.len(),
            o@ == encode_utf8(valeur@),
            decode_octets(o@) == sortie@ + decode_octets(o@.skip(i as int)),
        decreases o@.len() - i,
    {
        let ghost reste = o@.skip(i as int);
        assert(reste[0] == o@[i as int]);
        let mut lu: Option<u8> = None;
        if o[i] == 37 && o.len() - i > 2 {
            assert(reste[1] == o@[i + 1] && reste[2] == o@[i + 2]);
            lu = paire_hexa_de(o[i + 1], o[i + 2]);
        }
        match lu {
            Some(b) => {
                assert(reste.skip(3) =~= o@.skip(i + 3));
                assert(sortie@.push(b) + decode_octets(reste.skip(3)) =~= sortie@ + (seq![b]
                    + decode_octets(reste.skip(3))));
                sortie.push(b);
                i = i + 3;
            },
            None => {
                assert(reste.skip(1) =~= o@.skip(i + 1));
                assert(sortie@.push(o@[i as int]) + decode_octets(reste.skip(1)) =~= sortie@ + (
                seq![o@[i as int]] + decode_octets(reste.skip(1))));
                sortie.push(o[i]);
                i = i + 1;
            },
        }
    }
    assert(o@.skip(o@.len() as int) =~= Seq::<u8>::empty());
    assert(decode_octets(Seq::<u8>::empty()) =~= Seq::<u8>::empty());
    assert(sortie@ + Seq::<u8>::empty() =~= sortie@);
    texte_lossy(sortie.as_slice())
}

/// Les octets d'un texte ASCII, un par caractère.
pub open spec fn octets_ascii(e: Seq<char>) -> Seq<u8> {
    Seq::new(e.len(), |i: int| e[i] as u8)
}

/// Un texte encodé n'a que des caractères ASCII.
proof fn lemme_encode_ascii(o: Seq<u8>)
    ensures
        is_ascii_chars(encode_octets(o)),
    decreases o.len(),
{
    if o.len() > 0 {
        lemme_encode_ascii(o.skip(1));
        let u = encode_octet(o[0]);
        let r = encode_octets(o.skip(1));
        let b = o[0];
        assert(is_ascii_chars(u)) by {
            if sur(b) {
                assert(u[0] == (b as u32) as char);
            } else {
                assert(u[0] == '%');
                assert(u[1] == hexa((b / 16) as nat));
                assert(u[2] == hexa((b % 16) as nat));
            }
        }
        assert forall|i: int| 0 <= i < (u + r).len() implies '\0' <= #[trigger] (u + r)[i] <= '\u{7f}' by {
            if i < u.len() {
                assert((u + r)[i] == u[i]);
            } else {
                assert((u + r)[i] == r[i - u.len()]);
            }
        }
    }
}

/// Décoder un octet encodé rend l'octet, et laisse la suite intacte.
proof fn lemme_decode_un(b: u8, suite: Seq<u8>)
    ensures
        decode_octets(octets_ascii(encode_octet(b)) + suite) == seq![b] + decode_octets(suite),
{
    let u = octets_ascii(encode_octet(b));
    let x = u + suite;
    if sur(b) {
        assert(u =~= seq![b]);
        assert(x[0] == b);
        assert(b != 37);
        assert(x.skip(1) =~= suite);
    } else {
        let hi = (b / 16) as nat;
        let lo = (b % 16) as nat;
        let h = hexa(hi) as u8;
        let l = hexa(lo) as u8;
        assert(u =~= seq![37u8, h, l]);
        assert(x[0] == 37 && x[1] == h && x[2] == l);
        assert(valeur_hexa(h) == Some(hi as u8));
        assert(valeur_hexa(l) == Some(lo as u8));
        assert(h != 43);
        assert(16 * hi + lo == b);
        assert(paire_hexa(h, l) == Some(b));
        assert(x.skip(3) =~= suite);
    }
}

/// Décoder ce qu'on a encodé rend les octets.
proof fn lemme_decode_encode(o: Seq<u8>)
    ensures
        decode_octets(octets_ascii(encode_octets(o))) == o,
    decreases o.len(),
{
    if o.len() == 0 {
        assert(octets_ascii(encode_octets(o)) =~= Seq::<u8>::empty());
    } else {
        lemme_decode_encode(o.skip(1));
        let u = encode_octet(o[0]);
        let r = encode_octets(o.skip(1));
        assert(octets_ascii(u + r) =~= octets_ascii(u) + octets_ascii(r));
        lemme_decode_un(o[0], octets_ascii(r));
        assert(seq![o[0]] + o.skip(1) =~= o);
    }
}

/// **Ce qu'on encode se décode** : les octets d'un texte encodé pour une
/// adresse se décodent en ceux du texte, qui sont de l'UTF-8 valide et se
/// relisent en lui — la session qu'un cookie porte revient telle qu'on l'a
/// posée.
pub proof fn loi_ce_qui_est_encode_se_decode(s: Seq<char>)
    ensures
        decode_octets(encode_utf8(encode(s))) == encode_utf8(s),
        valid_utf8(encode_utf8(s)),
        decode_utf8(encode_utf8(s)) == s,
{
    let o = encode_utf8(s);
    let e = encode_octets(o);
    lemme_encode_ascii(o);
    is_ascii_chars_encode_utf8(e);
    assert(encode_utf8(e) =~= octets_ascii(e));
    lemme_decode_encode(o);
    encode_utf8_valid_utf8(s);
    encode_utf8_decode_utf8(s);
}

/// Un texte encodé ne porte ni `;`, ni `=`, ni blanc : il tient dans un
/// cookie tel quel.
proof fn lemme_encode_tient_dans_un_cookie(o: Seq<u8>)
    ensures
        forall|k: int|
            0 <= k < encode_octets(o).len() ==> #[trigger] encode_octets(o)[k] != ';'
                && encode_octets(o)[k] != '=' && !blanc(encode_octets(o)[k]),
    decreases o.len(),
{
    if o.len() > 0 {
        lemme_encode_tient_dans_un_cookie(o.skip(1));
        let u = encode_octet(o[0]);
        let r = encode_octets(o.skip(1));
        let b = o[0];
        assert forall|k: int| 0 <= k < u.len() implies #[trigger] u[k] != ';' && u[k] != '='
            && !blanc(u[k]) by {
            if sur(b) {
                assert(u[0] == (b as u32) as char);
            } else {
                assert(u[0] == '%');
                assert(u[1] == hexa((b / 16) as nat));
                assert(u[2] == hexa((b % 16) as nat));
            }
        }
        assert forall|k: int| 0 <= k < (u + r).len() implies #[trigger] (u + r)[k] != ';' && (u
            + r)[k] != '=' && !blanc((u + r)[k]) by {
            if k < u.len() {
                assert((u + r)[k] == u[k]);
            } else {
                assert((u + r)[k] == r[k - u.len()]);
            }
        }
    }
}

/// L'en-tête `Cookie` qu'un navigateur renvoie quand il porte la session
/// posée après l'ouverture.
pub open spec fn entete_de_session(serialisee: Seq<char>) -> Seq<char> {
    COOKIE_SESSION@ + seq!['='] + encode(serialisee)
}

/// **La session posée se relit** : l'en-tête qui porte le cookie de session
/// rend la session sérialisée telle qu'on l'a posée, quels que soient ses
/// caractères.
pub proof fn loi_la_session_posee_se_relit(serialisee: Seq<char>)
    ensures
        session_du_cookie_spec(entete_de_session(serialisee)) == Some(serialisee),
{
    reveal_strlit("ont_session");
    let nom = COOKIE_SESSION@;
    let e = encode(serialisee);
    let h = entete_de_session(serialisee);
    assert(nom =~= seq!['o', 'n', 't', '_', 's', 'e', 's', 's', 'i', 'o', 'n']);
    lemme_encode_tient_dans_un_cookie(encode_utf8(serialisee));
    assert(!h.contains(';')) by {
        if h.contains(';') {
            let k = choose|k: int| 0 <= k < h.len() && h[k] == ';';
            if k < nom.len() {
                assert(h[k] == nom[k]);
            } else if k > nom.len() {
                assert(h[k] == e[k - nom.len() - 1]);
            }
        }
    }
    assert(!nom.contains('=')) by {
        if nom.contains('=') {
            let k = choose|k: int| 0 <= k < nom.len() && nom[k] == '=';
        }
    }
    lemme_morceaux_sans_separateur(h, ';');
    assert(h[0] == 'o');
    assert(!blanc(h.last())) by {
        if e.len() > 0 {
            assert(h.last() == e[e.len() - 1]);
        } else {
            assert(h.last() == '=');
        }
    }
    lemme_rogne_sans_bouts(h);
    lemme_coupe_concat(nom, '=', e);
    assert(coupe(rogne(h), '=') == Some((nom, e)));
    assert(valeur_parmi(Seq::<Seq<char>>::empty(), nom) is None);
    assert(seq![h].drop_last() =~= Seq::<Seq<char>>::empty());
    assert(seq![h].last() == h);
    assert(valeur_parmi(seq![h], nom) == Some(e));
    assert(morceaux(h, ';') == seq![h]);
    assert(cookie_lu(h, nom) == Some(e));
    loi_ce_qui_est_encode_se_decode(serialisee);
}

// ───────────────────────── le verset du jour ────────────────────────────────

/// Le verset du jour tel qu'il voyage.
#[derive(Debug, Clone, PartialEq, Eq)]
pub struct VersetDuJourDto {
    pub renvoi: String,
    pub texte: String,
    pub chemin: String,
}

/// Le transport d'un verset du jour : son renvoi, son texte, et son chemin.
pub fn dto_du_verset(v: &VersetQuotidien) -> (r: VersetDuJourDto)
    ensures
        r.renvoi@ == v.renvoi@,
        r.texte@ == v.texte@,
        r.chemin@ == v.chemin_spec(),
{
    VersetDuJourDto { renvoi: v.renvoi.clone(), texte: v.texte.clone(), chemin: v.chemin() }
}

// ───────────────────────── la liseuse ───────────────────────────────────────

/// Une unité du sommaire d'un livre, telle qu'elle voyage.
#[derive(Debug, Clone, PartialEq, Eq)]
pub struct UniteDto {
    pub id: String,
    pub titre: String,
    pub numero: u32,
    pub reference: Option<String>,
    pub brouillon: bool,
    pub versets: u32,
}

/// Un livre tel qu'il voyage vers sa page.
#[derive(Debug, Clone, PartialEq, Eq)]
pub struct LivreDto {
    pub id: String,
    pub titre: String,
    pub francais: String,
    pub hebreu: String,
    pub unites: Vec<UniteDto>,
    pub versets: u32,
}

/// Les unités dans l'ordre de lecture : l'introduction d'abord.
pub open spec fn ordre_de_lecture(l: Livre) -> Seq<Chapitre> {
    let tete: Seq<Chapitre> = match l.intro {
        Some(c) => seq![c],
        None => Seq::empty(),
    };
    tete + l.chapitres@
}

/// Vrai quand le transport dit cette unité.
pub open spec fn unite_dite(u: UniteDto, c: Chapitre) -> bool {
    &&& u.id@ == c.id@
    &&& u.titre@ == c.titre@
    &&& u.numero == c.numero
    &&& u.reference == match c.sous_titre {
        Some(s) => s.reference,
        None => None,
    }
    &&& u.brouillon == (c.statut == Statut::Brouillon)
    &&& u.versets == c.nombre_de_versets
}

fn dto_de_l_unite(c: &Chapitre) -> (r: UniteDto)
    ensures
        unite_dite(r, *c),
{
    let reference = match &c.sous_titre {
        Some(s) => s.reference.clone(),
        None => None,
    };
    UniteDto {
        id: c.id.clone(),
        titre: c.titre.clone(),
        numero: c.numero,
        reference,
        brouillon: c.statut.est_provisoire(),
        versets: c.nombre_de_versets,
    }
}

/// Le transport d'un livre : ses unités dans l'ordre de lecture,
/// l'introduction d'abord, et son nombre de versets.
pub fn dto_du_livre(l: &Livre) -> (r: LivreDto)
    requires
        somme_des_versets(l.chapitres@) <= u32::MAX,
    ensures
        r.id@ == l.id@,
        r.titre@ == l.titre@,
        r.francais@ == l.francais@,
        r.hebreu@ == l.hebreu@,
        r.versets == somme_des_versets(l.chapitres@),
        r.unites@.len() == ordre_de_lecture(*l).len(),
        forall|k: int|
            0 <= k < r.unites@.len() ==> unite_dite(#[trigger] r.unites@[k], ordre_de_lecture(*l)[k]),
{
    let mut unites: Vec<UniteDto> = Vec::new();
    let ghost ordre = ordre_de_lecture(*l);
    let ghost decalage: int = 0;
    match &l.intro {
        Some(intro) => {
            unites.push(dto_de_l_unite(intro));
            proof {
                decalage = 1;
            }
        },
        None => {},
    }
    let mut i: usize = 0;
    while i < l.chapitres.len()
        invariant
            i <= l.chapitres@.len(),
            ordre == ordre_de_lecture(*l),
            decalage == ordre.len() - l.chapitres@.len(),
            0 <= decalage <= 1,
            unites@.len() == decalage + i,
            forall|k: int| 0 <= k < unites@.len() ==> unite_dite(#[trigger] unites@[k], ordre[k]),
        decreases l.chapitres@.len() - i,
    {
        assert(ordre[decalage + i] == l.chapitres@[i as int]);
        unites.push(dto_de_l_unite(&l.chapitres[i]));
        i = i + 1;
    }
    LivreDto {
        id: l.id.clone(),
        titre: l.titre.clone(),
        francais: l.francais.clone(),
        hebreu: l.hebreu.clone(),
        unites,
        versets: l.nombre_de_versets(),
    }
}

/// Une unité voisine, telle qu'elle voyage.
#[derive(Debug, Clone, PartialEq, Eq)]
pub struct VoisinDto {
    pub chemin: String,
    pub titre: String,
    pub numero: u32,
}

/// Le chemin d'une unité dans la liseuse.
pub open spec fn chemin_d_unite(livre: Seq<char>, unite: Seq<char>) -> Seq<char> {
    "/fr/lire/"@ + livre + "/"@ + unite
}

/// Vrai quand le transport dit cette unité voisine.
pub open spec fn voisin_dit(v: VoisinDto, livre: Seq<char>, c: Chapitre) -> bool {
    v.chemin@ == chemin_d_unite(livre, c.id@) && v.titre@ == c.titre@ && v.numero == c.numero
}

fn dto_du_voisin(livre: &str, c: &Chapitre) -> (r: VoisinDto)
    ensures
        voisin_dit(r, livre@, *c),
{
    let mut v = caracteres("/fr/lire/");
    let l = caracteres(livre);
    prolonger(&mut v, l.as_slice());
    let barre = caracteres("/");
    prolonger(&mut v, barre.as_slice());
    let u = caracteres(c.id.as_str());
    prolonger(&mut v, u.as_slice());
    assert(v@ =~= chemin_d_unite(livre@, c.id@));
    VoisinDto { chemin: chaine(v.as_slice()), titre: c.titre.clone(), numero: c.numero }
}

/// Les voisins d'une unité dans l'ordre de lecture : celle d'avant, celle
/// d'après, s'il y en a — rien si l'unité n'est pas du livre.
pub fn voisins(ouvrage: &Livre, livre: &str, unite: &str) -> (r: (Option<VoisinDto>, Option<VoisinDto>))
    ensures
        match rang_de_l_unite(ordre_de_lecture(*ouvrage), unite@) {
            Some(k) => (if k > 0 {
                r.0 matches Some(v) && voisin_dit(v, livre@, ordre_de_lecture(*ouvrage)[k - 1])
            } else {
                r.0 is None
            }) && (if k + 1 < ordre_de_lecture(*ouvrage).len() {
                r.1 matches Some(v) && voisin_dit(v, livre@, ordre_de_lecture(*ouvrage)[k + 1])
            } else {
                r.1 is None
            }),
            None => r.0 is None && r.1 is None,
        },
{
    let mut ordre: Vec<&Chapitre> = Vec::new();
    match &ouvrage.intro {
        Some(intro) => {
            ordre.push(intro);
        },
        None => {},
    }
    let ghost tous = ordre_de_lecture(*ouvrage);
    let ghost decalage: int = ordre@.len() as int;
    let mut i: usize = 0;
    while i < ouvrage.chapitres.len()
        invariant
            i <= ouvrage.chapitres@.len(),
            tous == ordre_de_lecture(*ouvrage),
            decalage == tous.len() - ouvrage.chapitres@.len(),
            0 <= decalage <= 1,
            ordre@.len() == decalage + i,
            forall|k: int| 0 <= k < ordre@.len() ==> *ordre@[k] == tous[k],
        decreases ouvrage.chapitres@.len() - i,
    {
        ordre.push(&ouvrage.chapitres[i]);
        i = i + 1;
    }
    assert(ordre@.len() == tous.len());
    proof {
        crate::domaine::corpus::lemme_rang_de_l_unite(tous, unite@);
    }
    let mut rang: usize = 0;
    let mut trouve = false;
    while rang < ordre.len() && !trouve
        invariant
            ordre@.len() == tous.len(),
            forall|k: int| 0 <= k < ordre@.len() ==> *ordre@[k] == tous[k],
            rang <= ordre@.len(),
            trouve ==> rang < ordre@.len() && tous[rang as int].id@ == unite@,
            forall|j: int| 0 <= j < rang ==> (#[trigger] tous[j]).id@ != unite@,
        decreases ordre@.len() - rang, if trouve { 0int } else { 1int },
    {
        if meme_texte(ordre[rang].id.as_str(), unite) {
            trouve = true;
        } else {
            rang = rang + 1;
        }
    }
    proof {
        crate::domaine::corpus::lemme_rang_de_l_unite(tous, unite@);
        if rang < ordre@.len() {
            assert(tous[rang as int].id@ == unite@);
            if rang_de_l_unite(tous, unite@) is Some {
                let k = rang_de_l_unite(tous, unite@)->0;
                assert(!(k < rang));
                assert(!(k > rang));
            }
        } else if rang_de_l_unite(tous, unite@) is Some {
            let k = rang_de_l_unite(tous, unite@)->0;
            assert(tous[k].id@ == unite@);
        }
    }
    if rang == ordre.len() {
        return (None, None);
    }
    let precedent = if rang > 0 {
        Some(dto_du_voisin(livre, ordre[rang - 1]))
    } else {
        None
    };
    let suivant = if rang + 1 < ordre.len() {
        Some(dto_du_voisin(livre, ordre[rang + 1]))
    } else {
        None
    };
    (precedent, suivant)
}

/// Les versets de ces numéros, dans l'ordre des numéros et non dans celui du
/// chapitre ; un numéro sans verset est sauté.
pub open spec fn choisis(tous: Seq<Verset>, numeros: Seq<u32>) -> Seq<Verset>
    decreases numeros.len(),
{
    if numeros.len() == 0 {
        Seq::empty()
    } else {
        choisis(tous, numeros.drop_last()) + match rang_du_verset(tous, numeros.last()) {
            Some(k) => seq![tous[k]],
            None => Seq::empty(),
        }
    }
}

/// Les versets de ces numéros, dans l'ordre que la démonstration demande.
pub fn versets_choisis<'a>(chapitre: &'a Chapitre, numeros: &[u32]) -> (r: Vec<&'a Verset>)
    ensures
        r@.len() == choisis(versets_des(chapitre.blocs@), numeros@).len(),
        forall|k: int|
            0 <= k < r@.len() ==> *r@[k] == choisis(versets_des(chapitre.blocs@), numeros@)[k],
{
    let ghost tous = versets_des(chapitre.blocs@);
    let mut r: Vec<&'a Verset> = Vec::new();
    let mut i: usize = 0;
    while i < numeros.len()
        invariant
            i <= numeros@.len(),
            tous == versets_des(chapitre.blocs@),
            r@.len() == choisis(tous, numeros@.take(i as int)).len(),
            forall|k: int| 0 <= k < r@.len() ==> *r@[k] == choisis(tous, numeros@.take(i as int))[k],
        decreases numeros@.len() - i,
    {
        let ghost avant = choisis(tous, numeros@.take(i as int));
        assert(numeros@.take(i + 1).drop_last() =~= numeros@.take(i as int));
        assert(numeros@.take(i + 1).last() == numeros@[i as int]);
        match chapitre.verset(numeros[i]) {
            Some(v) => {
                r.push(v);
                let ghost apres = choisis(tous, numeros@.take(i + 1));
                assert forall|k: int| 0 <= k < r@.len() implies *r@[k] == apres[k] by {
                    if k < avant.len() {
                        assert(apres[k] == avant[k]);
                    }
                }
            },
            None => {
                assert(choisis(tous, numeros@.take(i + 1)) =~= avant);
            },
        }
        i = i + 1;
    }
    assert(numeros@.take(numeros@.len() as int) =~= numeros@);
    r
}

/// Une fiche du lexique, résumée pour la liste.
#[derive(Debug, Clone, PartialEq, Eq)]
pub struct ResumeDto {
    pub lemme: String,
    pub titre: String,
    pub hebreu: String,
    pub rendu: String,
}

/// Le résumé d'une fiche : son lemme, son titre, son hébreu, son rendu.
pub fn resume(e: &Entree) -> (r: ResumeDto)
    ensures
        r.lemme@ == e.lemme@,
        r.titre@ == e.titre@,
        r.hebreu@ == e.hebreu@,
        r.rendu@ == e.rendu@,
{
    ResumeDto {
        lemme: e.lemme.clone(),
        titre: e.titre.clone(),
        hebreu: e.hebreu.clone(),
        rendu: e.rendu.clone(),
    }
}

// ───────────────────────── le compte ────────────────────────────────────────

/// L'état du compte, tel que la page le voit.
#[derive(Debug, Clone, Copy, PartialEq, Eq)]
pub struct EtatDuCompte {
    pub connecte: bool,
}

impl Default for EtatDuCompte {
    /// Déconnecté.
    fn default() -> (r: Self)
        ensures
            !r.connecte,
    {
        EtatDuCompte { connecte: false }
    }
}

/// Le contenu du cookie de session, décodé, s'il est là.
pub open spec fn session_du_cookie_spec(cookies: Seq<char>) -> Option<Seq<char>> {
    match cookie_lu(cookies, COOKIE_SESSION@) {
        Some(brut) => Some(decode_texte(brut)),
        None => None,
    }
}

/// Le contenu du cookie de session, décodé, dans un en-tête `Cookie`.
pub fn session_du_cookie(cookies: &str) -> (r: Option<String>)
    ensures
        match r {
            Some(s) => session_du_cookie_spec(cookies@) == Some(s@),
            None => session_du_cookie_spec(cookies@) is None,
        },
{
    match lire_cookie(cookies, COOKIE_SESSION) {
        Some(brut) => Some(percent_decode(brut.as_str())),
        None => None,
    }
}

/// Les surlignages d'une unité qui se dessinent : ni d'une autre unité, ni
/// effacés, ni d'une couleur inconnue.
pub open spec fn visibles_spec(s: Seq<Surlignage>, unite: Seq<char>) -> Seq<Surlignage>
    decreases s.len(),
{
    if s.len() == 0 {
        Seq::empty()
    } else if s.last().chapter_id@ == unite && s.last().visible_spec() {
        visibles_spec(s.drop_last(), unite).push(s.last())
    } else {
        visibles_spec(s.drop_last(), unite)
    }
}

/// Les surlignages d'une unité qui se dessinent, dans leur ordre.
pub fn visibles_de_l_unite(surlignages: Vec<Surlignage>, unite: &str) -> (r: Vec<Surlignage>)
    ensures
        r@ == visibles_spec(surlignages@, unite@),
{
    let ghost tous = surlignages@;
    let ghost mut n: int = 0;
    let mut reste = surlignages;
    let mut r: Vec<Surlignage> = Vec::new();
    while reste.len() > 0
        invariant
            0 <= n <= tous.len(),
            reste@ == tous.skip(n),
            r@ == visibles_spec(tous.take(n), unite@),
        decreases reste@.len(),
    {
        let s = reste.remove(0);
        assert(s == tous[n]);
        assert(tous.take(n + 1).drop_last() =~= tous.take(n));
        assert(tous.take(n + 1).last() == s);
        if meme_texte(s.chapter_id.as_str(), unite) && s.visible() {
            r.push(s);
        }
        proof {
            n = n + 1;
            assert(reste@ =~= tous.skip(n));
        }
    }
    assert(tous.take(n) =~= tous);
    r
}

/// Vrai quand ce surlignage est la marque posée sur ce verset : identifiant
/// composé de l'unité et du verset, couleur donnée ou l'or, note gardée si
/// elle n'est pas que des blancs, effacé quand aucune couleur n'est donnée.
pub open spec fn marque_posee(
    m: Surlignage,
    livre: Seq<char>,
    unite: Seq<char>,
    verset: u32,
    couleur: Option<Seq<char>>,
    note: Option<Seq<char>>,
    maintenant: i64,
) -> bool {
    &&& m.id@ == unite + seq!['-'] + decimal(verset as nat)
    &&& m.book_id@ == livre
    &&& m.chapter_id@ == unite
    &&& m.verse == verset
    &&& m.color@ == match couleur {
        Some(c) => c,
        None => Couleur::Gold.cle_spec(),
    }
    &&& (match m.note {
        Some(n) => Some(n@),
        None => None,
    }) == match note {
        Some(n) => if rogne(n).len() > 0 {
            Some(n)
        } else {
            None
        },
        None => None,
    }
    &&& m.updated_at == maintenant
    &&& m.deleted == couleur is None
}

fn marque(
    livre: &str,
    unite: &str,
    verset: u32,
    couleur: Option<&str>,
    note: Option<&str>,
    maintenant: i64,
) -> (r: Surlignage)
    ensures
        marque_posee(
            r,
            livre@,
            unite@,
            verset,
            crate::interface::compte::vue_option(couleur),
            crate::interface::compte::vue_option(note),
            maintenant,
        ),
{
    let mut id = caracteres(unite);
    id.push('-');
    ecrire_decimal(verset as u64, &mut id);
    assert(id@ =~= unite@ + seq!['-'] + decimal(verset as nat));
    let color = match couleur {
        Some(c) => c.to_owned(),
        None => Couleur::Gold.cle().to_owned(),
    };
    let note = match note {
        Some(n) => {
            let c = caracteres(n);
            if rogner(c.as_slice()).len() > 0 {
                Some(n.to_owned())
            } else {
                None
            }
        },
        None => None,
    };
    Surlignage {
        id: chaine(id.as_slice()),
        book_id: livre.to_owned(),
        chapter_id: unite.to_owned(),
        verse: verset,
        color,
        note,
        updated_at: maintenant,
        deleted: couleur.is_none(),
    }
}

/// Les marques à envoyer pour ces versets, une par verset, dans leur ordre.
pub fn marques(
    livre: &str,
    unite: &str,
    versets: &[u32],
    couleur: Option<&str>,
    note: Option<&str>,
    maintenant: i64,
) -> (r: Vec<Surlignage>)
    ensures
        r@.len() == versets@.len(),
        forall|k: int|
            0 <= k < r@.len() ==> marque_posee(
                #[trigger] r@[k],
                livre@,
                unite@,
                versets@[k],
                crate::interface::compte::vue_option(couleur),
                crate::interface::compte::vue_option(note),
                maintenant,
            ),
{
    let mut r: Vec<Surlignage> = Vec::new();
    let mut i: usize = 0;
    while i < versets.len()
        invariant
            i <= versets@.len(),
            r@.len() == i,
            forall|k: int|
                0 <= k < i ==> marque_posee(
                    #[trigger] r@[k],
                    livre@,
                    unite@,
                    versets@[k],
                    crate::interface::compte::vue_option(couleur),
                    crate::interface::compte::vue_option(note),
                    maintenant,
                ),
        decreases versets@.len() - i,
    {
        r.push(marque(livre, unite, versets[i], couleur, note, maintenant));
        i = i + 1;
    }
    r
}

} // verus!
