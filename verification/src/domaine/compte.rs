//! Le compte du lecteur — ce qu'il est, et ce qui le prouve.
//!
//! Le site ne signe rien lui-même : l'échange du code d'autorisation contre une
//! session est fait par le backend de l'app. Ce module décrit ce qu'est une
//! session et quand elle est périmée, en recevant l'instant plutôt qu'en le
//! lisant.

use vstd::prelude::*;

use crate::chaines::meme_texte;

verus! {

/// Les fournisseurs d'identité que le backend accepte.
#[derive(Debug, Clone, Copy, PartialEq, Eq, Structural)]
pub enum Fournisseur {
    Google,
    Apple,
    Github,
}

impl Fournisseur {
    /// Ce qui voyage dans l'adresse et vers le backend.
    pub open spec fn cle_spec(self) -> Seq<char> {
        match self {
            Fournisseur::Google => "google"@,
            Fournisseur::Apple => "apple"@,
            Fournisseur::Github => "github"@,
        }
    }

    /// Ce qui voyage dans l'adresse et vers le backend.
    pub fn cle(self) -> (r: &'static str)
        ensures
            r@ == self.cle_spec(),
    {
        match self {
            Fournisseur::Google => "google",
            Fournisseur::Apple => "apple",
            Fournisseur::Github => "github",
        }
    }

    /// Le nom qu'on lit sur le bouton.
    pub open spec fn nom_spec(self) -> Seq<char> {
        match self {
            Fournisseur::Google => "Google"@,
            Fournisseur::Apple => "Apple"@,
            Fournisseur::Github => "GitHub"@,
        }
    }

    /// Le nom qu'on lit sur le bouton.
    pub fn nom(self) -> (r: &'static str)
        ensures
            r@ == self.nom_spec(),
    {
        match self {
            Fournisseur::Google => "Google",
            Fournisseur::Apple => "Apple",
            Fournisseur::Github => "GitHub",
        }
    }

    /// Le fournisseur d'une clé, ou rien.
    pub open spec fn depuis_cle_spec(cle: Seq<char>) -> Option<Fournisseur> {
        if cle == "google"@ {
            Some(Fournisseur::Google)
        } else if cle == "apple"@ {
            Some(Fournisseur::Apple)
        } else if cle == "github"@ {
            Some(Fournisseur::Github)
        } else {
            None
        }
    }

    /// Le fournisseur d'une clé, ou rien.
    pub fn depuis_cle(cle: &str) -> (r: Option<Fournisseur>)
        ensures
            r == Fournisseur::depuis_cle_spec(cle@),
    {
        if meme_texte(cle, "google") {
            Some(Fournisseur::Google)
        } else if meme_texte(cle, "apple") {
            Some(Fournisseur::Apple)
        } else if meme_texte(cle, "github") {
            Some(Fournisseur::Github)
        } else {
            None
        }
    }

    /// Les trois, dans l'ordre de la page.
    pub fn tous() -> (r: [Fournisseur; 3])
        ensures
            r@ == seq![Fournisseur::Google, Fournisseur::Apple, Fournisseur::Github],
    {
        let r = [Fournisseur::Google, Fournisseur::Apple, Fournisseur::Github];
        assert(r@ =~= seq![Fournisseur::Google, Fournisseur::Apple, Fournisseur::Github]);
        r
    }

    /// Vrai quand l'échange exige un vérificateur PKCE : partout sauf chez
    /// Apple, où le backend le veut absent.
    pub fn exige_pkce(self) -> (r: bool)
        ensures
            r == (self != Fournisseur::Apple),
    {
        match self {
            Fournisseur::Apple => false,
            _ => true,
        }
    }
}

/// **Chaque clé se relit en son fournisseur.**
pub proof fn loi_la_cle_du_fournisseur_se_relit(f: Fournisseur)
    ensures
        Fournisseur::depuis_cle_spec(f.cle_spec()) == Some(f),
{
    reveal_strlit("google");
    reveal_strlit("apple");
    reveal_strlit("github");
    assert("apple"@.len() != "google"@.len());
    assert("github"@[0] != "google"@[1]);
    assert("github"@.len() != "apple"@.len());
    assert("github"@[1] != "google"@[1]);
}

/// Ce que le backend délivre : les deux jetons, leur durée en secondes, et
/// l'instant de création en millisecondes.
#[derive(Debug, Clone, PartialEq, Eq)]
pub struct Session {
    pub access_token: String,
    pub refresh_token: String,
    pub expires_in: i64,
    pub created: i64,
}

/// La marge avant l'échéance : on renouvelle une minute avant.
pub const MARGE_MS: i64 = 60_000;

/// L'échéance d'une session, en millisecondes.
pub open spec fn fin_spec(s: Session) -> int {
    s.created + s.expires_in * 1000
}

/// Vrai quand la session est périmée à cet instant, marge comprise.
pub open spec fn perimee_spec(s: Session, maintenant_ms: int) -> bool {
    maintenant_ms + MARGE_MS >= fin_spec(s)
}

/// Vrai quand l'échéance tient dans un `i64`.
pub open spec fn echeance_representable(s: Session) -> bool {
    i64::MIN <= s.expires_in * 1000 <= i64::MAX && i64::MIN <= fin_spec(s) <= i64::MAX
}

impl Session {
    /// Vrai quand la session est périmée — ou le sera dans moins d'une minute.
    /// Une durée nulle ou négative périme tout de suite.
    pub fn perimee(&self, maintenant_ms: i64) -> (r: bool)
        requires
            maintenant_ms + MARGE_MS <= i64::MAX,
            echeance_representable(*self),
        ensures
            r == perimee_spec(*self, maintenant_ms as int),
    {
        maintenant_ms + MARGE_MS >= self.created + self.expires_in * 1_000
    }

    /// L'instant de l'échéance, en millisecondes.
    pub fn fin_ms(&self) -> (r: i64)
        requires
            echeance_representable(*self),
        ensures
            r == fin_spec(*self),
    {
        self.created + self.expires_in * 1_000
    }
}

/// **Une session périmée le reste** : plus tard, elle l'est encore.
pub proof fn loi_perimee_le_reste(s: Session, t1: int, t2: int)
    requires
        perimee_spec(s, t1),
        t1 <= t2,
    ensures
        perimee_spec(s, t2),
{
}

/// **La marge périme avant l'échéance** : une minute avant, la session est
/// déjà périmée ; au-delà d'une minute avant, elle ne l'est pas.
pub proof fn loi_la_marge_perime_avant_l_echeance(s: Session, t: int)
    ensures
        t >= fin_spec(s) - MARGE_MS ==> perimee_spec(s, t),
        t < fin_spec(s) - MARGE_MS ==> !perimee_spec(s, t),
{
}

} // verus!
