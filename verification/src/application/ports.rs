//! Les ports — ce dont l'application a besoin, et rien de plus.

use vstd::prelude::*;

use std::sync::Arc;

use crate::chaines::{caracteres, chaine, prolonger};
use crate::domaine::corpus::{Ensemble, Entree, Livre, Occurrence};
use crate::domaine::surlignage::{Position, Surlignage};
use crate::domaine::vivier::VersetQuotidien;

verus! {

/// Savoir quel jour on est : un numéro de jour compté depuis le 1ᵉʳ janvier
/// 1970, dans le fuseau du lecteur.
pub trait Horloge: Send + Sync {
    /// Vrai pour un jour que cette horloge peut répondre. Une horloge qui ne
    /// le dit pas n'en promet rien de particulier.
    closed spec fn peut_dire(&self, jour: i64) -> bool {
        arbitrary()
    }

    /// Le jour qu'il est, selon cette horloge.
    fn jour(&self) -> (r: i64)
        ensures
            self.peut_dire(r),
    ;
}

/// Accéder au vivier des versets du jour.
pub trait Vivier: Send + Sync {
    /// Les versets que ce vivier porte. Un vivier qui ne le dit pas n'en
    /// promet rien de particulier.
    closed spec fn versets_vus(&self) -> Seq<VersetQuotidien> {
        arbitrary()
    }

    /// Les versets du vivier, dans leur ordre.
    fn versets(&self) -> (r: &[VersetQuotidien])
        ensures
            r@ == self.versets_vus(),
    ;
}

/// Accéder au corpus — la liseuse.
pub trait Corpus: Send + Sync {
    /// Le plan du corpus entier — les livres, écrits ou non.
    fn sommaire(&self) -> &[Ensemble];

    /// Un livre avec tout son texte. `None` s'il n'est pas écrit.
    fn livre(&self, id: &str) -> Option<Arc<Livre>>;
}

/// Accéder au lexique.
pub trait Lexique: Send + Sync {
    /// Toutes les fiches, dans l'ordre alphabétique du lemme.
    fn entrees(&self) -> &[Entree];

    /// Une fiche par son lemme.
    fn entree(&self, lemme: &str) -> Option<&Entree>;

    /// Où le terme paraît dans le corpus.
    fn occurrences(&self, lemme: &str) -> Vec<Occurrence>;
}

/// Ce qu'une synchronisation rapporte : les surlignages, pierres tombales
/// comprises ; la position de lecture, s'il y en a une ; et l'horodatage du
/// serveur, à renvoyer tel quel au prochain tirage.
#[derive(Debug, Clone, PartialEq, Eq)]
pub struct Moisson {
    pub highlights: Vec<Surlignage>,
    pub position: Option<Position>,
    pub server_time: i64,
}

/// Ce qui peut mal se passer avec le backend, du point de vue du site : on
/// redemande de se connecter, on réessaie plus tard, ou c'est une rupture de
/// contrat qui se corrige dans le code.
#[derive(Debug, Clone, PartialEq, Eq)]
pub enum ErreurDeCompte {
    /// Le code ou le jeton n'est pas — ou n'est plus — valide.
    Refuse,
    /// Le backend a répondu autre chose qu'un succès.
    Indisponible,
    /// La réponse n'avait pas la forme attendue.
    ContratRompu(String),
}

impl ErreurDeCompte {
    /// Ce que l'erreur dit au lecteur.
    pub open spec fn message_spec(&self) -> Seq<char> {
        match self {
            ErreurDeCompte::Refuse => "la connexion a été refusée"@,
            ErreurDeCompte::Indisponible => "le service de comptes ne répond pas"@,
            ErreurDeCompte::ContratRompu(quoi) => "réponse inattendue du backend : "@ + quoi@,
        }
    }

    /// Ce que l'erreur dit au lecteur.
    pub fn message(&self) -> (r: String)
        ensures
            r@ == self.message_spec(),
    {
        match self {
            ErreurDeCompte::Refuse => "la connexion a été refusée".to_owned(),
            ErreurDeCompte::Indisponible => "le service de comptes ne répond pas".to_owned(),
            ErreurDeCompte::ContratRompu(quoi) => {
                let mut v = caracteres("réponse inattendue du backend : ");
                let q = caracteres(quoi.as_str());
                prolonger(&mut v, q.as_slice());
                chaine(v.as_slice())
            },
        }
    }
}

} // verus!
