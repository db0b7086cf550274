//! Les comptes auprès du backend de l'app : le PKCE de l'aller, et ce que le
//! site conclut des réponses du backend.

use vstd::prelude::*;

use base64::Engine;
use rand::RngCore;
use sha2::{Digest, Sha256};

use crate::application::ports::ErreurDeCompte;
use crate::domaine::compte::Fournisseur;
use crate::chaines::{caracteres, chaine, ecrire_entier, entier_ecrit, prolonger};

verus! {

/// Le signe de l'alphabet base64 `URL_SAFE` d'une valeur de six bits : `A`
/// à `Z`, `a` à `z`, `0` à `9`, puis `-` et `_`.
pub open spec fn signe_url(v: int) -> char {
    if v < 26 {
        ((65 + v) as u32) as char
    } else if v < 52 {
        ((97 + (v - 26)) as u32) as char
    } else if v < 62 {
        ((48 + (v - 52)) as u32) as char
    } else if v == 62 {
        '-'
    } else {
        '_'
    }
}

/// L'encodage base64 `URL_SAFE` sans remplissage (RFC 4648, §5) : chaque
/// groupe de trois octets donne quatre signes de six bits ; un groupe final
/// d'un octet en donne deux, de deux octets trois, les bits manquants à zéro.
pub open spec fn base64_url(o: Seq<u8>) -> Seq<char>
    decreases o.len(),
{
    if o.len() == 0 {
        Seq::empty()
    } else if o.len() == 1 {
        seq![signe_url(o[0] as int / 4), signe_url((o[0] as int % 4) * 16)]
    } else if o.len() == 2 {
        seq![
            signe_url(o[0] as int / 4),
            signe_url((o[0] as int % 4) * 16 + o[1] as int / 16),
            signe_url((o[1] as int % 16) * 4),
        ]
    } else {
        seq![
            signe_url(o[0] as int / 4),
            signe_url((o[0] as int % 4) * 16 + o[1] as int / 16),
            signe_url((o[1] as int % 16) * 4 + o[2] as int / 64),
            signe_url(o[2] as int % 64),
        ] + base64_url(o.skip(3))
    }
}

/// L'empreinte SHA-256 de ces octets.
pub uninterp spec fn empreinte_sha256(octets: Seq<u8>) -> Seq<u8>;

/// Vrai pour un caractère de l'alphabet base64 « sûr pour les adresses » :
/// lettres, chiffres, `-` et `_`.
pub open spec fn alphabet_url(c: char) -> bool {
    ('A' <= c <= 'Z') || ('a' <= c <= 'z') || ('0' <= c <= '9') || c == '-' || c == '_'
}

/// La longueur d'un encodage base64 sans remplissage de `n` octets.
pub open spec fn longueur_base64(n: nat) -> nat {
    (n / 3) * 4 + if n % 3 == 0 {
        0
    } else {
        n % 3 + 1
    }
}

/// Un encodage base64 sans remplissage a la longueur qu'en dit
/// `longueur_base64`, et ne porte que des signes de l'alphabet des adresses.
pub proof fn lemme_base64_url(o: Seq<u8>)
    ensures
        base64_url(o).len() == longueur_base64(o.len()),
        forall|i: int| 0 <= i < base64_url(o).len() ==> alphabet_url(#[trigger] base64_url(o)[i]),
    decreases o.len(),
{
    assert forall|v: int| 0 <= v < 64 implies alphabet_url(#[trigger] signe_url(v)) by {
        if v < 26 {
            assert(((65 + v) as u32) as char as int == 65 + v);
        } else if v < 52 {
            assert(((97 + (v - 26)) as u32) as char as int == 97 + (v - 26));
        } else if v < 62 {
            assert(((48 + (v - 52)) as u32) as char as int == 48 + (v - 52));
        }
    }
    let r = base64_url(o);
    if o.len() >= 3 {
        lemme_base64_url(o.skip(3));
        let tete = seq![
            signe_url(o[0] as int / 4),
            signe_url((o[0] as int % 4) * 16 + o[1] as int / 16),
            signe_url((o[1] as int % 16) * 4 + o[2] as int / 64),
            signe_url(o[2] as int % 64),
        ];
        assert(r == tete + base64_url(o.skip(3)));
        assert forall|i: int| 0 <= i < r.len() implies alphabet_url(#[trigger] r[i]) by {
            if i < 4 {
                assert(r[i] == tete[i]);
            } else {
                assert(r[i] == base64_url(o.skip(3))[i - 4]);
            }
        }
    } else if o.len() == 2 {
        assert forall|i: int| 0 <= i < r.len() implies alphabet_url(#[trigger] r[i]) by {}
    } else if o.len() == 1 {
        assert forall|i: int| 0 <= i < r.len() implies alphabet_url(#[trigger] r[i]) by {}
    }
}

/// `base64::engine::general_purpose::URL_SAFE_NO_PAD.encode`.
///
/// Affirme que le résultat est l'encodage `base64_url` des octets, tel que
/// la RFC 4648 le définit pour l'alphabet `URL_SAFE` sans remplissage.
#[verifier::external_body]
fn encoder_base64_url(octets: &[u8]) -> (r: String)
    requires
        (octets@.len() / 3) * 4 + 4 <= usize::MAX,
    ensures
        r@ == base64_url(octets@),
{
    base64::engine::general_purpose::URL_SAFE_NO_PAD.encode(octets)
}

/// `sha2::Sha256::digest`, recueilli en vecteur.
///
/// Affirme que le résultat est l'empreinte nommée `empreinte_sha256` des
/// octets, et qu'elle compte trente-deux octets.
#[verifier::external_body]
fn sha256(octets: &[u8]) -> (r: Vec<u8>)
    ensures
        r@ == empreinte_sha256(octets@),
        r@.len() == 32,
{
    Sha256::digest(octets).to_vec()
}

/// `rand::thread_rng().fill_bytes` sur quatre-vingt-seize octets.
///
/// N'affirme rien du contenu : il est tiré au hasard.
#[verifier::external_body]
fn octets_au_hasard() -> (r: [u8; 96]) {
    let mut octets = [0u8; 96];
    rand::thread_rng().fill_bytes(&mut octets);
    octets
}

/// Le défi PKCE d'un vérificateur : l'empreinte SHA-256 de ses octets, en
/// base64 sûr pour les adresses, sans remplissage (RFC 7636, `S256`).
pub open spec fn defi_spec(verificateur: Seq<char>) -> Seq<char> {
    base64_url(empreinte_sha256(vstd::utf8::encode_utf8(verificateur)))
}

/// Le défi PKCE d'un vérificateur.
pub fn defi_de(verificateur: &str) -> (r: String)
    ensures
        r@ == defi_spec(verificateur@),
        r@.len() == 43,
        forall|i: int| 0 <= i < r@.len() ==> alphabet_url(#[trigger] r@[i]),
{
    let empreinte = sha256(verificateur.as_bytes());
    proof {
        lemme_base64_url(empreinte@);
    }
    encoder_base64_url(empreinte.as_slice())
}

/// Le couple PKCE d'un aller : le vérificateur, qui reste chez nous, et le
/// défi, qui part chez le fournisseur.
#[derive(Debug, Clone)]
pub struct Pkce {
    pub verificateur: String,
    pub defi: String,
}

/// Vrai quand le vérificateur est l'écriture base64url de quatre-vingt-seize
/// octets.
pub open spec fn tire_de_96_octets(verificateur: Seq<char>) -> bool {
    exists|octets: Seq<u8>| octets.len() == 96 && verificateur == #[trigger] base64_url(octets)
}

/// Un couple PKCE tel que la RFC 7636 le veut : un vérificateur de cent
/// vingt-huit signes de l'alphabet des adresses, et pour défi l'empreinte
/// SHA-256 de ce vérificateur en base64url — quarante-trois signes.
pub open spec fn pkce_conforme(p: Pkce) -> bool {
    &&& p.verificateur@.len() == 128
    &&& forall|i: int| 0 <= i < p.verificateur@.len() ==> alphabet_url(#[trigger] p.verificateur@[i])
    &&& p.defi@ == defi_spec(p.verificateur@)
    &&& p.defi@.len() == 43
}

impl Pkce {
    /// Un couple neuf : un vérificateur tiré au hasard — quatre-vingt-seize
    /// octets, soit cent vingt-huit caractères, dans les bornes de la RFC — et
    /// son défi.
    pub fn neuf() -> (r: Pkce)
        ensures
            pkce_conforme(r),
            tire_de_96_octets(r.verificateur@),
            r.defi@ == defi_spec(r.verificateur@),
            r.verificateur@.len() == 128,
            r.defi@.len() == 43,
            forall|i: int|
                0 <= i < r.verificateur@.len() ==> alphabet_url(#[trigger] r.verificateur@[i]),
            forall|i: int| 0 <= i < r.defi@.len() ==> alphabet_url(#[trigger] r.defi@[i]),
    {
        let octets = octets_au_hasard();
        let verificateur = encoder_base64_url(&octets);
        proof {
            lemme_base64_url(octets@);
        }
        let defi = defi_de(verificateur.as_str());
        assert(octets@.len() == 96);
        Pkce { verificateur, defi }
    }
}

/// **Le PKCE ne porte rien qui casse une adresse** : ni remplissage `=`, ni
/// `+` qu'une adresse lit comme une espace, ni `/` qui ouvre un segment.
pub proof fn loi_le_pkce_passe_dans_une_adresse(s: Seq<char>)
    requires
        forall|i: int| 0 <= i < s.len() ==> alphabet_url(#[trigger] s[i]),
    ensures
        !s.contains('='),
        !s.contains('+'),
        !s.contains('/'),
{
    if s.contains('=') {
        let k = choose|k: int| 0 <= k < s.len() && s[k] == '=';
        assert(alphabet_url(s[k]));
    }
    if s.contains('+') {
        let k = choose|k: int| 0 <= k < s.len() && s[k] == '+';
        assert(alphabet_url(s[k]));
    }
    if s.contains('/') {
        let k = choose|k: int| 0 <= k < s.len() && s[k] == '/';
        assert(alphabet_url(s[k]));
    }
}

// ───────────────────────── ce qui revient du backend ────────────────────────

/// L'adresse où le backend échange un code contre une session, pour ce
/// fournisseur : `<racine>/auth/<clé>`.
pub open spec fn adresse_d_ouverture_spec(racine: Seq<char>, f: Fournisseur) -> Seq<char> {
    racine + "/auth/"@ + f.cle_spec()
}

/// L'adresse où le backend échange un code contre une session.
pub fn adresse_d_ouverture(racine: &str, f: Fournisseur) -> (r: String)
    ensures
        r@ == adresse_d_ouverture_spec(racine@, f),
{
    let mut v = caracteres(racine);
    let a = caracteres("/auth/");
    prolonger(&mut v, a.as_slice());
    let c = caracteres(f.cle());
    prolonger(&mut v, c.as_slice());
    chaine(v.as_slice())
}

/// L'adresse où le backend renouvelle une session : `<racine>/auth/refresh`.
pub open spec fn adresse_de_renouvellement_spec(racine: Seq<char>) -> Seq<char> {
    racine + "/auth/refresh"@
}

/// L'adresse où le backend renouvelle une session.
pub fn adresse_de_renouvellement(racine: &str) -> (r: String)
    ensures
        r@ == adresse_de_renouvellement_spec(racine@),
{
    let mut v = caracteres(racine);
    let a = caracteres("/auth/refresh");
    prolonger(&mut v, a.as_slice());
    chaine(v.as_slice())
}

/// L'en-tête d'autorisation : `Bearer`, une espace, le jeton.
pub open spec fn porteur_spec(jeton: Seq<char>) -> Seq<char> {
    "Bearer "@ + jeton
}

/// L'en-tête d'autorisation, à la casse et à l'espace près.
pub fn porteur(jeton: &str) -> (r: String)
    ensures
        r@ == porteur_spec(jeton@),
{
    let mut v = caracteres("Bearer ");
    let j = caracteres(jeton);
    prolonger(&mut v, j.as_slice());
    chaine(v.as_slice())
}

/// L'adresse de la synchronisation, depuis un instant s'il est donné.
pub open spec fn adresse_de_tirage_spec(racine: Seq<char>, depuis: Option<i64>) -> Seq<char> {
    racine + "/sync"@ + match depuis {
        Some(quand) => "?since="@ + entier_ecrit(quand as int),
        None => Seq::empty(),
    }
}

/// L'adresse de la synchronisation, depuis un instant s'il est donné.
pub fn adresse_de_tirage(racine: &str, depuis: Option<i64>) -> (r: String)
    ensures
        r@ == adresse_de_tirage_spec(racine@, depuis),
{
    let mut v = caracteres(racine);
    let s = caracteres("/sync");
    prolonger(&mut v, s.as_slice());
    match depuis {
        Some(quand) => {
            let q = caracteres("?since=");
            prolonger(&mut v, q.as_slice());
            ecrire_entier(quand, &mut v);
        },
        None => {},
    }
    assert(v@ =~= adresse_de_tirage_spec(racine@, depuis));
    chaine(v.as_slice())
}

/// Ce qu'un statut de réponse à une connexion dit : une erreur du client est
/// un refus, tout autre échec une indisponibilité, et un succès se lit.
pub open spec fn issue_de_connexion_spec(statut: u16) -> Option<ErreurDeCompte> {
    if 400 <= statut <= 499 {
        Some(ErreurDeCompte::Refuse)
    } else if !(200 <= statut <= 299) {
        Some(ErreurDeCompte::Indisponible)
    } else {
        None
    }
}

/// Ce qu'un statut de réponse à une connexion dit ; `None` quand le corps est
/// à lire.
pub fn issue_de_connexion(statut: u16) -> (r: Option<ErreurDeCompte>)
    ensures
        r == issue_de_connexion_spec(statut),
{
    if 400 <= statut && statut <= 499 {
        Some(ErreurDeCompte::Refuse)
    } else if !(200 <= statut && statut <= 299) {
        Some(ErreurDeCompte::Indisponible)
    } else {
        None
    }
}

/// Ce qu'un statut de réponse à la synchronisation dit : un `401` est un
/// refus, tout autre échec une indisponibilité, et un succès se lit.
pub open spec fn issue_de_synchronisation_spec(statut: u16) -> Option<ErreurDeCompte> {
    if statut == 401 {
        Some(ErreurDeCompte::Refuse)
    } else if !(200 <= statut <= 299) {
        Some(ErreurDeCompte::Indisponible)
    } else {
        None
    }
}

/// Ce qu'un statut de réponse à la synchronisation dit ; `None` pour un
/// succès.
pub fn issue_de_synchronisation(statut: u16) -> (r: Option<ErreurDeCompte>)
    ensures
        r == issue_de_synchronisation_spec(statut),
{
    if statut == 401 {
        Some(ErreurDeCompte::Refuse)
    } else if !(200 <= statut && statut <= 299) {
        Some(ErreurDeCompte::Indisponible)
    } else {
        None
    }
}

} // verus!
