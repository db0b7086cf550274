//! Le numéro du jour chez le lecteur.
//!
//! Le verset change à minuit heure de Paris, et non à minuit UTC : un numéro
//! de jour est celui du minuit local qui ouvre la journée, compté en jours
//! depuis l'époque.

use vstd::prelude::*;

use chrono::{Offset, TimeZone};
use chrono_tz::Europe::Paris;

use crate::application::ports::Horloge;

use vstd::arithmetic::div_mod::{lemma_fundamental_div_mod, lemma_fundamental_div_mod_converse};

verus! {

/// L'instant, en secondes depuis l'époque, du minuit heure de Paris qui ouvre
/// la journée de cet instant — rien si l'instant, ou son heure à Paris, sort
/// du calendrier de `chrono`.
pub uninterp spec fn minuit_a_paris(secondes: i64) -> Option<i64>;

/// Le minuit heure de Paris de la journée d'un instant, par `chrono` et
/// `chrono-tz` : l'instant lu en UTC (`DateTime::from_timestamp`), décalé de
/// l'écart de Paris à cet instant (`offset_from_utc_datetime`, puis
/// `checked_add_offset`), ramené à minuit de sa date (`and_hms_opt(0, 0, 0)`),
/// relu à Paris au plus tôt (`from_local_datetime`, `earliest`), et rendu en
/// secondes (`timestamp`). Chaque pas qui peut sortir du calendrier rend
/// `None` au lieu de paniquer.
///
/// Affirme seulement que le résultat est celui que nomme `minuit_a_paris` ;
/// le calendrier et les fuseaux ne sont pas redits.
#[verifier::external_body]
fn minuit_local(secondes: i64) -> (r: Option<i64>)
    ensures
        r == minuit_a_paris(secondes),
{
    let utc = chrono::DateTime::from_timestamp(secondes, 0)?.naive_utc();
    let ecart = Paris.offset_from_utc_datetime(&utc).fix();
    let minuit = utc.checked_add_offset(ecart)?.date().and_hms_opt(0, 0, 0)?;
    Some(Paris.from_local_datetime(&minuit).earliest()?.timestamp())
}

/// Les secondes d'une journée.
pub const SECONDES_PAR_JOUR: i64 = 86_400;

/// Le numéro du jour qui commence à l'instant `minuit`, par division
/// euclidienne : un instant d'avant 1970 donne un jour négatif.
pub fn jour_de_minuit(minuit: i64) -> (r: i64)
    ensures
        r as int == (minuit as int) / (SECONDES_PAR_JOUR as int),
{
    proof {
        lemma_fundamental_div_mod(minuit as int, SECONDES_PAR_JOUR as int);
    }
    if minuit >= 0 {
        minuit / SECONDES_PAR_JOUR
    } else {
        let m = -(minuit + 1);
        let q = m / SECONDES_PAR_JOUR;
        proof {
            lemma_fundamental_div_mod(m as int, SECONDES_PAR_JOUR as int);
            let reste = (m as int) % 86400;
            assert(minuit as int == (-q - 1) * 86400 + (86399 - reste)) by (nonlinear_arith)
                requires
                    m as int == 86400 * (q as int) + reste,
                    m as int == -(minuit as int) - 1,
            ;
            lemma_fundamental_div_mod_converse(minuit as int, 86400, -q - 1, 86399 - reste);
        }
        -q - 1
    }
}

/// Le numéro du jour d'un instant, chez le lecteur : le minuit heure de Paris
/// qui ouvre sa journée, en jours depuis l'époque.
pub fn numero_de_jour(secondes: i64) -> (r: Option<i64>)
    ensures
        match minuit_a_paris(secondes) {
            Some(m) => r == Some(((m as int) / (SECONDES_PAR_JOUR as int)) as i64),
            None => r is None,
        },
{
    match minuit_local(secondes) {
        Some(minuit) => Some(jour_de_minuit(minuit)),
        None => None,
    }
}

/// `chrono::Utc::now`, en secondes depuis l'époque.
///
/// N'affirme rien : c'est l'heure qu'il est.
#[verifier::external_body]
fn maintenant() -> (r: i64) {
    chrono::Utc::now().timestamp()
}

/// Le numéro du jour, chez le lecteur, de l'instant `secondes` : celui de
/// son minuit à Paris, ou zéro quand `chrono` n'en donne pas.
pub open spec fn jour_de_l_instant(secondes: i64) -> i64 {
    match minuit_a_paris(secondes) {
        Some(m) => ((m as int) / (SECONDES_PAR_JOUR as int)) as i64,
        None => 0,
    }
}

/// L'horloge du système.
pub struct HorlogeSysteme;

impl Horloge for HorlogeSysteme {
    /// Un jour que l'horloge du système peut répondre : celui d'un instant.
    open spec fn peut_dire(&self, jour: i64) -> bool {
        exists|secondes: i64| jour == #[trigger] jour_de_l_instant(secondes)
    }

    /// Le numéro du jour de l'instant présent, chez le lecteur ; une horloge
    /// hors du calendrier de `chrono` donnerait le jour zéro.
    fn jour(&self) -> (r: i64)
        ensures
            exists|secondes: i64| r == #[trigger] jour_de_l_instant(secondes),
    {
        let secondes = maintenant();
        let r = match numero_de_jour(secondes) {
            Some(j) => j,
            None => 0,
        };
        assert(r == jour_de_l_instant(secondes));
        r
    }
}

} // verus!
