//! Les routes de connexion, réduites à ce qu'elles décident.
//!
//! Le flux est celui d'OAuth : le site conduit le lecteur chez le
//! fournisseur, reçoit un code au retour, et le passe au backend qui l'échange
//! contre une session. Entre l'aller et le retour, un cookie de courte durée
//! retient le fournisseur et le vérificateur PKCE.

use vstd::prelude::*;

use crate::chaines::{
    blanc, caracteres, chaine, coupe, couper, decimal, decouper, ecrire_entier, entier_ecrit,
    lemme_coupe_concat, lemme_morceaux_sans_separateur, lemme_rogne_sans_bouts, meme_texte, memes,
    morceaux, prolonger, rogne, rogner,
};
use crate::application::ports::ErreurDeCompte;
use crate::domaine::compte::{loi_la_cle_du_fournisseur_se_relit, Fournisseur};
use crate::infrastructure::comptes::{alphabet_url, pkce_conforme, tire_de_96_octets, Pkce};
use crate::interface::compte_public::disponible_spec;
use crate::interface::tete::ORIGINE;

verus! {

/// Le cookie qui porte la session.
pub const COOKIE_SESSION: &'static str = "ont_session";

/// Le cookie de l'aller : le fournisseur et le vérificateur, le temps d'un
/// aller-retour.
pub const COOKIE_ALLER: &'static str = "ont_aller";

/// L'identifiant de service d'Apple pour le site.
pub const SERVICES_ID_APPLE: &'static str = "com.labibleont.ont.webapp";

// ───────────────────────── l'encodage des adresses ──────────────────────────

/// Vrai pour un octet qui passe tel quel dans une adresse : lettres, chiffres,
/// et `-_.~`.
pub open spec fn sur(b: u8) -> bool {
    (65 <= b <= 90) || (97 <= b <= 122) || (48 <= b <= 57) || b == 45 || b == 95 || b == 46 || b
        == 126
}

/// Le chiffre hexadécimal majuscule d'une valeur de 0 à 15.
pub open spec fn hexa(d: nat) -> char {
    if d < 10 {
        ((48 + d) as u32) as char
    } else {
        ((55 + d) as u32) as char
    }
}

/// Un octet encodé : lui-même s'il est sûr, sinon `%` et ses deux chiffres.
pub open spec fn encode_octet(b: u8) -> Seq<char> {
    if sur(b) {
        seq![(b as u32) as char]
    } else {
        seq!['%', hexa((b / 16) as nat), hexa((b % 16) as nat)]
    }
}

/// Des octets encodés, un à un.
pub open spec fn encode_octets(o: Seq<u8>) -> Seq<char>
    decreases o.len(),
{
    if o.len() == 0 {
        Seq::empty()
    } else {
        encode_octet(o[0]) + encode_octets(o.skip(1))
    }
}

/// Un texte encodé pour une adresse : ses octets UTF-8, encodés un à un.
pub open spec fn encode(s: Seq<char>) -> Seq<char> {
    encode_octets(vstd::utf8::encode_utf8(s))
}

/// Encoder bout à bout, c'est encoder le tout.
pub proof fn lemme_encode_concat(a: Seq<u8>, b: Seq<u8>)
    ensures
        encode_octets(a + b) == encode_octets(a) + encode_octets(b),
    decreases a.len(),
{
    if a.len() > 0 {
        lemme_encode_concat(a.skip(1), b);
        assert((a + b).skip(1) =~= a.skip(1) + b);
        assert((a + b)[0] == a[0]);
        assert(encode_octet(a[0]) + (encode_octets(a.skip(1)) + encode_octets(b)) =~= (
        encode_octet(a[0]) + encode_octets(a.skip(1))) + encode_octets(b));
    } else {
        assert(a + b =~= b);
    }
}

/// Le chiffre hexadécimal majuscule.
fn chiffre_hexa(d: u8) -> (c: char)
    requires
        d < 16,
    ensures
        c == hexa(d as nat),
{
    match d {
        0 => '0',
        1 => '1',
        2 => '2',
        3 => '3',
        4 => '4',
        5 => '5',
        6 => '6',
        7 => '7',
        8 => '8',
        9 => '9',
        10 => 'A',
        11 => 'B',
        12 => 'C',
        13 => 'D',
        14 => 'E',
        _ => 'F',
    }
}

/// Encode un texte pour une adresse : tout octet hors des lettres, des
/// chiffres et de `-_.~` devient `%` suivi de ses deux chiffres majuscules.
pub fn encoder(valeur: &str) -> (r: String)
    ensures
        r@ == encode(valeur@),
{
    let o = valeur.as_bytes();
    let mut v: Vec<char> = Vec::new();
    let mut i: usize = 0;
    while i < o.len()
        invariant
            i <= o@.len(),
            o@ == vstd::utf8::encode_utf8(valeur@),
            v@ == encode_octets(o@.take(i as int)),
        decreases o@.len() - i,
    {
        let b = o[i];
        proof {
            lemme_encode_concat(o@.take(i as int), seq![b]);
            assert(o@.take(i + 1) =~= o@.take(i as int) + seq![b]);
            assert(seq![b].skip(1) =~= Seq::<u8>::empty());
            assert(encode_octets(Seq::<u8>::empty()) =~= Seq::<char>::empty());
            assert(seq![b][0] == b);
            assert(encode_octets(seq![b]) =~= encode_octet(b));
        }
        if (65 <= b && b <= 90) || (97 <= b && b <= 122) || (48 <= b && b <= 57) || b == 45 || b
            == 95 || b == 46 || b == 126 {
            v.push(b as char);
        } else {
            v.push('%');
            v.push(chiffre_hexa(b / 16));
            v.push(chiffre_hexa(b % 16));
        }
        i = i + 1;
    }
    assert(o@.take(o@.len() as int) =~= o@);
    chaine(v.as_slice())
}

// ───────────────────────── les cookies ──────────────────────────────────────

/// Les attributs de tout cookie du site : tout le site, jamais lu par le
/// script, jamais en clair, et renvoyé au retour d'une redirection.
pub open spec fn attributs() -> Seq<char> {
    "; Path=/; HttpOnly; Secure; SameSite=Lax"@
}

/// Un cookie posé pour `duree_s` secondes.
pub open spec fn cookie_spec(nom: Seq<char>, valeur: Seq<char>, duree_s: int) -> Seq<char> {
    nom + seq!['='] + valeur + "; Max-Age="@ + entier_ecrit(duree_s) + attributs()
}

/// Un cookie effacé : vide, d'une durée nulle, avec les mêmes attributs.
pub open spec fn cookie_efface_spec(nom: Seq<char>) -> Seq<char> {
    nom + "=; Max-Age=0"@ + attributs()
}

/// **Effacer, c'est reposer le même cookie, vide et périmé** : les mêmes
/// attributs qu'à la pose, une valeur vide, une durée nulle — un navigateur
/// qui ne reconnaîtrait pas les attributs garderait l'ancien.
pub proof fn loi_effacer_repose_le_meme_cookie(nom: Seq<char>)
    ensures
        cookie_efface_spec(nom) == cookie_spec(nom, Seq::empty(), 0),
{
    reveal_strlit("=; Max-Age=0");
    reveal_strlit("; Max-Age=");
    assert(entier_ecrit(0) == seq!['0']);
    assert(cookie_efface_spec(nom) =~= cookie_spec(nom, Seq::empty(), 0));
}

/// Un cookie posé pour `duree_s` secondes.
pub fn cookie(nom: &str, valeur: &str, duree_s: i64) -> (r: String)
    ensures
        r@ == cookie_spec(nom@, valeur@, duree_s as int),
{
    let mut v = caracteres(nom);
    v.push('=');
    let w = caracteres(valeur);
    prolonger(&mut v, w.as_slice());
    let m = caracteres("; Max-Age=");
    prolonger(&mut v, m.as_slice());
    ecrire_entier(duree_s, &mut v);
    let a = caracteres("; Path=/; HttpOnly; Secure; SameSite=Lax");
    prolonger(&mut v, a.as_slice());
    assert(v@ =~= cookie_spec(nom@, valeur@, duree_s as int));
    chaine(v.as_slice())
}

/// Un cookie effacé, avec les mêmes attributs que quand on l'a posé : un
/// navigateur n'efface que le cookie qui a le même chemin.
pub fn cookie_efface(nom: &str) -> (r: String)
    ensures
        r@ == cookie_efface_spec(nom@),
{
    let mut v = caracteres(nom);
    let m = caracteres("=; Max-Age=0");
    prolonger(&mut v, m.as_slice());
    let a = caracteres("; Path=/; HttpOnly; Secure; SameSite=Lax");
    prolonger(&mut v, a.as_slice());
    assert(v@ =~= cookie_efface_spec(nom@));
    chaine(v.as_slice())
}

/// La valeur du premier cookie de ce nom parmi des morceaux `nom=valeur`.
pub open spec fn valeur_parmi(morceaux: Seq<Seq<char>>, nom: Seq<char>) -> Option<Seq<char>>
    decreases morceaux.len(),
{
    if morceaux.len() == 0 {
        None
    } else {
        match valeur_parmi(morceaux.drop_last(), nom) {
            Some(v) => Some(v),
            None => match coupe(rogne(morceaux.last()), '=') {
                Some((cle, valeur)) => if cle == nom {
                    Some(valeur)
                } else {
                    None
                },
                None => None,
            },
        }
    }
}

/// La valeur du cookie de ce nom dans un en-tête `Cookie`.
pub open spec fn cookie_lu(entete: Seq<char>, nom: Seq<char>) -> Option<Seq<char>> {
    valeur_parmi(morceaux(entete, ';'), nom)
}

/// Relit un cookie dans l'en-tête `Cookie` : les morceaux séparés par `;`,
/// rognés, coupés au premier `=`, et le premier dont la clé est ce nom.
pub fn lire_cookie(entete: &str, nom: &str) -> (r: Option<String>)
    ensures
        match r {
            Some(v) => cookie_lu(entete@, nom@) == Some(v@),
            None => cookie_lu(entete@, nom@) is None,
        },
{
    let c = caracteres(entete);
    let n = caracteres(nom);
    let parts = decouper(c.as_slice(), ';');
    let ghost p = morceaux(entete@, ';');
    let mut i: usize = 0;
    while i < parts.len()
        invariant
            i <= parts@.len(),
            parts@.map_values(|w: Vec<char>| w@) == p,
            p == morceaux(entete@, ';'),
            n@ == nom@,
            valeur_parmi(p.take(i as int), nom@) is None,
        decreases parts@.len() - i,
    {
        assert(parts@.map_values(|w: Vec<char>| w@)[i as int] == parts@[i as int]@);
        assert(p.take(i + 1).drop_last() =~= p.take(i as int));
        assert(p.take(i + 1).last() == p[i as int]);
        let morceau = rogner(parts[i].as_slice());
        match couper(morceau.as_slice(), '=') {
            Some((cle, valeur)) => {
                if memes(cle.as_slice(), n.as_slice()) {
                    proof {
                        assert(valeur_parmi(p.take(i + 1), nom@) == Some(valeur@));
                        lemme_valeur_parmi_prefixe(p, i as int + 1, nom@);
                    }
                    return Some(chaine(valeur.as_slice()));
                }
            },
            None => {},
        }
        i = i + 1;
    }
    assert(p.take(p.len() as int) =~= p);
    None
}

/// Ce que trouvent les premiers morceaux, le tout le trouve.
proof fn lemme_valeur_parmi_prefixe(p: Seq<Seq<char>>, i: int, nom: Seq<char>)
    requires
        0 <= i <= p.len(),
        valeur_parmi(p.take(i), nom) is Some,
    ensures
        valeur_parmi(p, nom) == valeur_parmi(p.take(i), nom),
    decreases p.len() - i,
{
    if i < p.len() {
        assert(p.take(i + 1).drop_last() =~= p.take(i));
        lemme_valeur_parmi_prefixe(p, i + 1, nom);
    } else {
        assert(p.take(i) =~= p);
    }
}

// ───────────────────────── les fournisseurs ─────────────────────────────────

/// L'adresse où le fournisseur renvoie le lecteur.
pub open spec fn adresse_de_retour_spec() -> Seq<char> {
    ORIGINE@ + "/fr/compte/retour"@
}

/// L'adresse où le fournisseur renvoie le lecteur — absolue, et exactement
/// celle que le fournisseur a enregistrée.
pub fn adresse_de_retour() -> (r: String)
    ensures
        r@ == adresse_de_retour_spec(),
{
    let mut v = caracteres(ORIGINE);
    let s = caracteres("/fr/compte/retour");
    prolonger(&mut v, s.as_slice());
    chaine(v.as_slice())
}

/// La page d'autorisation du fournisseur.
pub open spec fn autorisation_spec(f: Fournisseur) -> Seq<char> {
    match f {
        Fournisseur::Google => "https://accounts.google.com/o/oauth2/v2/auth"@,
        Fournisseur::Apple => "https://appleid.apple.com/auth/authorize"@,
        Fournisseur::Github => "https://github.com/login/oauth/authorize"@,
    }
}

/// La page d'autorisation du fournisseur.
pub fn autorisation(f: Fournisseur) -> (r: &'static str)
    ensures
        r@ == autorisation_spec(f),
{
    match f {
        Fournisseur::Google => "https://accounts.google.com/o/oauth2/v2/auth",
        Fournisseur::Apple => "https://appleid.apple.com/auth/authorize",
        Fournisseur::Github => "https://github.com/login/oauth/authorize",
    }
}

/// Ce qu'on demande au fournisseur : le moins possible.
pub open spec fn portees_spec(f: Fournisseur) -> Seq<char> {
    match f {
        Fournisseur::Google => "openid email"@,
        Fournisseur::Apple => "email"@,
        Fournisseur::Github => ""@,
    }
}

/// Ce qu'on demande au fournisseur : le moins possible.
pub fn portees(f: Fournisseur) -> (r: &'static str)
    ensures
        r@ == portees_spec(f),
{
    match f {
        Fournisseur::Google => "openid email",
        Fournisseur::Apple => "email",
        Fournisseur::Github => "",
    }
}

/// L'identifiant du client chez le fournisseur, quand il est branché.
pub open spec fn identifiant_client_spec(f: Fournisseur) -> Option<Seq<char>> {
    match f {
        Fournisseur::Google => Some(
            "154337904456-de9o2u3res51203irei6o0ggk1lvlkq5.apps.googleusercontent.com"@,
        ),
        Fournisseur::Apple => Some(SERVICES_ID_APPLE@),
        Fournisseur::Github => None,
    }
}

/// L'identifiant du client chez le fournisseur, quand il est branché.
pub fn identifiant_client(f: Fournisseur) -> (r: Option<&'static str>)
    ensures
        match r {
            Some(c) => identifiant_client_spec(f) == Some(c@),
            None => identifiant_client_spec(f) is None,
        },
{
    match f {
        Fournisseur::Google => Some(
            "154337904456-de9o2u3res51203irei6o0ggk1lvlkq5.apps.googleusercontent.com",
        ),
        Fournisseur::Apple => Some(SERVICES_ID_APPLE),
        Fournisseur::Github => None,
    }
}

/// **La page et la route s'accordent sur les fournisseurs** : un bouton
/// proposé mène à un client branché, et un client branché a son bouton.
pub proof fn loi_la_page_et_la_route_s_accordent(f: Fournisseur)
    ensures
        disponible_spec(f) == identifiant_client_spec(f) is Some,
{
}

// ───────────────────────── l'aller et le retour ─────────────────────────────

/// Une redirection : où aller, et les cookies à poser en chemin.
#[derive(Debug, Clone, PartialEq, Eq)]
pub struct Redirection {
    pub vers: String,
    pub cookies: Vec<String>,
}

/// Ce que le retour décide : rediriger tout de suite, ou ouvrir une session
/// auprès du backend avec ce code, cette adresse de retour et ce vérificateur.
#[derive(Debug, Clone, PartialEq, Eq)]
pub enum Etape {
    Rediriger(Redirection),
    Ouvrir { fournisseur: Fournisseur, code: String, verificateur: Option<String> },
}

/// La page de compte, avec l'erreur à montrer.
pub open spec fn page_d_erreur(quoi: Seq<char>) -> Seq<char> {
    "/fr/compte?erreur="@ + quoi
}

/// La page de compte, avec l'erreur à montrer.
fn vers_erreur(quoi: &str) -> (r: String)
    ensures
        r@ == page_d_erreur(quoi@),
{
    let mut v = caracteres("/fr/compte?erreur=");
    let q = caracteres(quoi);
    prolonger(&mut v, q.as_slice());
    chaine(v.as_slice())
}

/// Vrai quand la redirection mène là, avec ces cookies.
pub open spec fn redirige_vers(r: Redirection, vers: Seq<char>, cookies: Seq<Seq<char>>) -> bool {
    r.vers@ == vers && r.cookies@.map_values(|c: String| c@) == cookies
}

fn redirige(vers: &str, cookie: Option<String>) -> (r: Redirection)
    ensures
        r.vers@ == vers@,
        r.cookies@.map_values(|c: String| c@) == match cookie {
            Some(c) => seq![c@],
            None => Seq::<Seq<char>>::empty(),
        },
{
    let mut cookies: Vec<String> = Vec::new();
    match cookie {
        Some(c) => {
            cookies.push(c);
        },
        None => {},
    }
    let r = Redirection { vers: vers.to_owned(), cookies };
    assert(r.cookies@.map_values(|c: String| c@) =~= match cookie {
        Some(c) => seq![c@],
        None => Seq::<Seq<char>>::empty(),
    });
    r
}

/// L'adresse d'autorisation chez le fournisseur : le client, l'adresse de
/// retour, le type de réponse ; les portées s'il y en a ; le défi PKCE si le
/// fournisseur l'exige.
pub open spec fn adresse_d_autorisation(f: Fournisseur, client: Seq<char>, defi: Seq<char>) -> Seq<
    char,
> {
    autorisation_spec(f) + "?client_id="@ + encode(client) + "&redirect_uri="@ + encode(
        adresse_de_retour_spec(),
    ) + "&response_type=code"@ + (if portees_spec(f).len() > 0 {
        "&scope="@ + encode(portees_spec(f))
    } else {
        Seq::empty()
    }) + (if f != Fournisseur::Apple {
        "&code_challenge="@ + encode(defi) + "&code_challenge_method=S256"@
    } else {
        Seq::empty()
    })
}

/// Ce que retient le cookie de l'aller : le fournisseur et le vérificateur.
pub open spec fn memoire_de_l_aller(f: Fournisseur, verificateur: Seq<char>) -> Seq<char> {
    f.cle_spec() + seq!['|'] + verificateur
}

/// L'aller vers un fournisseur branché, pour un couple PKCE donné : la page
/// d'autorisation, et le cookie de l'aller pour dix minutes.
pub fn aller_avec(fournisseur: Fournisseur, client: &str, pkce: &Pkce) -> (r: Redirection)
    ensures
        redirige_vers(
            r,
            adresse_d_autorisation(fournisseur, client@, pkce.defi@),
            seq![
                cookie_spec(
                    COOKIE_ALLER@,
                    memoire_de_l_aller(fournisseur, pkce.verificateur@),
                    600,
                ),
            ],
        ),
{
    let retour = adresse_de_retour();
    let mut memoire = caracteres(fournisseur.cle());
    memoire.push('|');
    let v = caracteres(pkce.verificateur.as_str());
    prolonger(&mut memoire, v.as_slice());
    assert(memoire@ =~= memoire_de_l_aller(fournisseur, pkce.verificateur@));
    let memoire = chaine(memoire.as_slice());

    let mut a = caracteres(autorisation(fournisseur));
    let s = caracteres("?client_id=");
    prolonger(&mut a, s.as_slice());
    let c = caracteres(encoder(client).as_str());
    prolonger(&mut a, c.as_slice());
    let s = caracteres("&redirect_uri=");
    prolonger(&mut a, s.as_slice());
    let e = caracteres(encoder(retour.as_str()).as_str());
    prolonger(&mut a, e.as_slice());
    let s = caracteres("&response_type=code");
    prolonger(&mut a, s.as_slice());
    let ghost base = a@;
    let p = portees(fournisseur);
    if !p.is_empty() {
        let s = caracteres("&scope=");
        prolonger(&mut a, s.as_slice());
        let e = caracteres(encoder(p).as_str());
        prolonger(&mut a, e.as_slice());
    }
    let ghost avec_portees = a@;
    if fournisseur.exige_pkce() {
        let s = caracteres("&code_challenge=");
        prolonger(&mut a, s.as_slice());
        let e = caracteres(encoder(pkce.defi.as_str()).as_str());
        prolonger(&mut a, e.as_slice());
        let s = caracteres("&code_challenge_method=S256");
        prolonger(&mut a, s.as_slice());
    }
    assert(a@ =~= adresse_d_autorisation(fournisseur, client@, pkce.defi@));
    let adresse = chaine(a.as_slice());
    redirige(adresse.as_str(), Some(cookie(COOKIE_ALLER, memoire.as_str(), 600)))
}

/// Ce que l'aller décide pour une clé de fournisseur, hors du couple PKCE :
/// une clé inconnue, ou un fournisseur qui n'est pas branché, renvoie à la
/// page de compte avec l'erreur.
pub open spec fn aller_refuse(cle: Seq<char>) -> Option<Seq<char>> {
    match Fournisseur::depuis_cle_spec(cle) {
        None => Some(page_d_erreur("fournisseur"@)),
        Some(f) => if identifiant_client_spec(f) is None {
            Some(page_d_erreur("indisponible"@))
        } else {
            None
        },
    }
}

/// L'aller vers le fournisseur de cette clé, avec un couple PKCE neuf.
pub fn aller(cle: &str) -> (r: Redirection)
    ensures
        match aller_refuse(cle@) {
            Some(vers) => redirige_vers(r, vers, Seq::empty()),
            None => exists|p: Pkce|
                #![trigger p.defi]
                pkce_conforme(p) && tire_de_96_octets(p.verificateur@) && redirige_vers(
                    r,
                    adresse_d_autorisation(
                        Fournisseur::depuis_cle_spec(cle@)->0,
                        identifiant_client_spec(Fournisseur::depuis_cle_spec(cle@)->0)->0,
                        p.defi@,
                    ),
                    seq![
                        cookie_spec(
                            COOKIE_ALLER@,
                            memoire_de_l_aller(
                                Fournisseur::depuis_cle_spec(cle@)->0,
                                p.verificateur@,
                            ),
                            600,
                        ),
                    ],
                ),
        },
{
    let fournisseur = match Fournisseur::depuis_cle(cle) {
        Some(f) => f,
        None => {
            return redirige(vers_erreur("fournisseur").as_str(), None);
        },
    };
    let client = match identifiant_client(fournisseur) {
        Some(c) => c,
        None => {
            return redirige(vers_erreur("indisponible").as_str(), None);
        },
    };
    let pkce = Pkce::neuf();
    aller_avec(fournisseur, client, &pkce)
}

/// Ce que le retour décide, de ce que le fournisseur a rendu et du cookie de
/// l'aller : refusé, sans code, expiré, fournisseur inconnu — ou ouvrir.
pub open spec fn retour_spec(erreur: bool, code: Option<Seq<char>>, cookies: Option<Seq<char>>) -> (
    Option<(Seq<char>, bool)>,
    Option<(Fournisseur, Seq<char>, Option<Seq<char>>)>,
) {
    if erreur {
        (Some((page_d_erreur("refus"@), true)), None)
    } else if code is None {
        (Some((page_d_erreur("reponse"@), true)), None)
    } else {
        let aller = match cookies {
            Some(e) => cookie_lu(e, COOKIE_ALLER@),
            None => None,
        };
        match aller {
            None => (Some((page_d_erreur("expire"@), false)), None),
            Some(a) => match coupe(a, '|') {
                None => (Some((page_d_erreur("expire"@), true)), None),
                Some((cle, verificateur)) => match Fournisseur::depuis_cle_spec(cle) {
                    None => (Some((page_d_erreur("fournisseur"@), true)), None),
                    Some(f) => (
                        None,
                        Some(
                            (
                                f,
                                code->0,
                                if f != Fournisseur::Apple {
                                    Some(verificateur)
                                } else {
                                    None
                                },
                            ),
                        ),
                    ),
                },
            },
        }
    }
}

/// L'en-tête `Cookie` qu'un navigateur renvoie quand il porte le cookie de
/// l'aller.
pub open spec fn entete_de_l_aller(f: Fournisseur, verificateur: Seq<char>) -> Seq<char> {
    COOKIE_ALLER@ + seq!['='] + memoire_de_l_aller(f, verificateur)
}

/// **Le retour relit ce que l'aller a retenu** : quand le navigateur rend le
/// cookie de l'aller, le retour ouvre la session chez le fournisseur de
/// l'aller, avec le code reçu et le vérificateur retenu — sauf pour Apple,
/// qui s'en passe. Cela vaut pour tout vérificateur écrit dans l'alphabet
/// des adresses, comme le PKCE l'écrit.
pub proof fn loi_le_retour_relit_l_aller(f: Fournisseur, verificateur: Seq<char>, code: Seq<char>)
    requires
        forall|i: int| 0 <= i < verificateur.len() ==> alphabet_url(#[trigger] verificateur[i]),
    ensures
        retour_spec(false, Some(code), Some(entete_de_l_aller(f, verificateur))) == (
            None::<(Seq<char>, bool)>,
            Some(
                (
                    f,
                    code,
                    if f != Fournisseur::Apple {
                        Some(verificateur)
                    } else {
                        None::<Seq<char>>
                    },
                ),
            ),
        ),
{
    reveal_strlit("ont_aller");
    reveal_strlit("google");
    reveal_strlit("apple");
    reveal_strlit("github");
    let cle = f.cle_spec();
    let m = memoire_de_l_aller(f, verificateur);
    let h = entete_de_l_aller(f, verificateur);
    let nom = COOKIE_ALLER@;
    assert(nom =~= seq!['o', 'n', 't', '_', 'a', 'l', 'l', 'e', 'r']);
    // Ni `;`, ni `=` dans le nom ; ni `;`, ni `|` dans la clé ; ni `;` dans le
    // vérificateur.
    assert(forall|i: int| 0 <= i < cle.len() ==> 'a' <= #[trigger] cle[i] <= 'z');
    assert(!h.contains(';')) by {
        if h.contains(';') {
            let k = choose|k: int| 0 <= k < h.len() && h[k] == ';';
            if k < nom.len() {
                assert(h[k] == nom[k]);
            } else if k == nom.len() {
            } else if k < nom.len() + 1 + cle.len() {
                assert(h[k] == cle[k - nom.len() - 1]);
            } else if k == nom.len() + 1 + cle.len() {
            } else {
                assert(h[k] == verificateur[k - nom.len() - 2 - cle.len()]);
                assert(alphabet_url(verificateur[k - nom.len() - 2 - cle.len()]));
            }
        }
    }
    assert(!nom.contains('=')) by {
        if nom.contains('=') {
            let k = choose|k: int| 0 <= k < nom.len() && nom[k] == '=';
        }
    }
    assert(!cle.contains('|')) by {
        if cle.contains('|') {
            let k = choose|k: int| 0 <= k < cle.len() && cle[k] == '|';
        }
    }
    // L'en-tête n'a qu'un morceau, qui n'a pas de blanc aux bouts.
    lemme_morceaux_sans_separateur(h, ';');
    assert(h[0] == 'o');
    assert(!blanc(h.last())) by {
        if verificateur.len() > 0 {
            assert(h.last() == verificateur.last());
            assert(alphabet_url(verificateur[verificateur.len() - 1]));
        } else {
            assert(h.last() == '|');
        }
    }
    lemme_rogne_sans_bouts(h);
    assert(seq![h].drop_last() =~= Seq::<Seq<char>>::empty());
    assert(seq![h].last() == h);
    assert(h =~= nom + seq!['='] + m);
    lemme_coupe_concat(nom, '=', m);
    assert(coupe(rogne(h), '=') == Some((nom, m)));
    assert(valeur_parmi(Seq::<Seq<char>>::empty(), nom) is None);
    assert(valeur_parmi(seq![h], nom) == Some(m));
    assert(morceaux(h, ';') == seq![h]);
    assert(cookie_lu(h, COOKIE_ALLER@) == Some(m));
    assert(m =~= cle + seq!['|'] + verificateur);
    lemme_coupe_concat(cle, '|', verificateur);
    loi_la_cle_du_fournisseur_se_relit(f);
}

/// Le retour de chez le fournisseur : `erreur` dit si le fournisseur a rendu
/// une erreur, `code` le code qu'il a rendu, `cookies` l'en-tête `Cookie` de
/// la requête. Une redirection d'échec efface le cookie de l'aller, sauf quand
/// il manquait déjà.
pub fn retour(erreur: bool, code: Option<&str>, cookies: Option<&str>) -> (r: Etape)
    ensures
        match retour_spec(erreur, vue_option(code), vue_option(cookies)) {
            (Some((vers, effacer)), _) => r matches Etape::Rediriger(red) && redirige_vers(
                red,
                vers,
                if effacer {
                    seq![cookie_efface_spec(COOKIE_ALLER@)]
                } else {
                    Seq::empty()
                },
            ),
            (None, Some((f, c, v))) => r matches Etape::Ouvrir { fournisseur, code, verificateur }
                && fournisseur == f && code@ == c && vue_option_string(verificateur) == v,
            (None, None) => false,
        },
{
    if erreur {
        return Etape::Rediriger(
            redirige(vers_erreur("refus").as_str(), Some(cookie_efface(COOKIE_ALLER))),
        );
    }
    let code = match code {
        Some(c) => c,
        None => {
            return Etape::Rediriger(
                redirige(vers_erreur("reponse").as_str(), Some(cookie_efface(COOKIE_ALLER))),
            );
        },
    };
    let aller = match cookies {
        Some(e) => lire_cookie(e, COOKIE_ALLER),
        None => None,
    };
    let aller = match aller {
        Some(a) => a,
        None => {
            return Etape::Rediriger(redirige(vers_erreur("expire").as_str(), None));
        },
    };
    let a = caracteres(aller.as_str());
    let (cle, verificateur) = match couper(a.as_slice(), '|') {
        Some(paire) => paire,
        None => {
            return Etape::Rediriger(
                redirige(vers_erreur("expire").as_str(), Some(cookie_efface(COOKIE_ALLER))),
            );
        },
    };
    let cle = chaine(cle.as_slice());
    let fournisseur = match Fournisseur::depuis_cle(cle.as_str()) {
        Some(f) => f,
        None => {
            return Etape::Rediriger(
                redirige(vers_erreur("fournisseur").as_str(), Some(cookie_efface(COOKIE_ALLER))),
            );
        },
    };
    let verificateur = if fournisseur.exige_pkce() {
        Some(chaine(verificateur.as_slice()))
    } else {
        None
    };
    Etape::Ouvrir { fournisseur, code: code.to_owned(), verificateur }
}

/// La suite de caractères d'un texte facultatif.
pub open spec fn vue_option(o: Option<&str>) -> Option<Seq<char>> {
    match o {
        Some(s) => Some(s@),
        None => None,
    }
}

/// La suite de caractères d'une chaîne facultative.
pub open spec fn vue_option_string(o: Option<String>) -> Option<Seq<char>> {
    match o {
        Some(s) => Some(s@),
        None => None,
    }
}

/// Le mot d'erreur de la page de compte pour une erreur du backend.
pub open spec fn mot_d_erreur(e: ErreurDeCompte) -> Seq<char> {
    match e {
        ErreurDeCompte::Refuse => "refus"@,
        ErreurDeCompte::Indisponible => "indisponible"@,
        ErreurDeCompte::ContratRompu(_) => "interne"@,
    }
}

/// La durée du cookie de session, en secondes : soixante jours.
pub const DUREE_DE_SESSION_S: i64 = 5_184_000;

/// Ce qui suit l'échange du code : la session, sérialisée, part dans son
/// cookie, encodée, et le cookie de l'aller s'efface ; une erreur renvoie à la
/// page de compte avec son mot. Une session qui n'a pu être sérialisée vient
/// ici comme une rupture de contrat.
pub fn apres_ouverture(issue: Result<String, ErreurDeCompte>) -> (r: Redirection)
    ensures
        match issue {
            Ok(s) => redirige_vers(
                r,
                "/fr/compte"@,
                seq![
                    cookie_efface_spec(COOKIE_ALLER@),
                    cookie_spec(COOKIE_SESSION@, encode(s@), DUREE_DE_SESSION_S as int),
                ],
            ),
            Err(e) => redirige_vers(
                r,
                page_d_erreur(mot_d_erreur(e)),
                seq![cookie_efface_spec(COOKIE_ALLER@)],
            ),
        },
{
    match issue {
        Ok(serialisee) => {
            let mut cookies: Vec<String> = Vec::new();
            cookies.push(cookie_efface(COOKIE_ALLER));
            let valeur = encoder(serialisee.as_str());
            cookies.push(cookie(COOKIE_SESSION, valeur.as_str(), DUREE_DE_SESSION_S));
            let r = Redirection { vers: "/fr/compte".to_owned(), cookies };
            assert(r.cookies@.map_values(|c: String| c@) =~= seq![
                cookie_efface_spec(COOKIE_ALLER@),
                cookie_spec(COOKIE_SESSION@, encode(serialisee@), DUREE_DE_SESSION_S as int),
            ]);
            r
        },
        Err(e) => {
            let quoi = match e {
                ErreurDeCompte::Refuse => "refus",
                ErreurDeCompte::Indisponible => "indisponible",
                ErreurDeCompte::ContratRompu(_) => "interne",
            };
            let vers = vers_erreur(quoi);
            redirige(vers.as_str(), Some(cookie_efface(COOKIE_ALLER)))
        },
    }
}

/// Se déconnecter : retour à l'accueil, le cookie de session effacé.
pub fn partir() -> (r: Redirection)
    ensures
        redirige_vers(r, "/fr"@, seq![cookie_efface_spec(COOKIE_SESSION@)]),
{
    redirige("/fr", Some(cookie_efface(COOKIE_SESSION)))
}

} // verus!
