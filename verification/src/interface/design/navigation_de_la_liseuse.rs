//! La navigation de la liseuse : où l'on est, et les symboles des
//! destinations.

use vstd::prelude::*;

use crate::chaines::{caracteres, commence, commence_par, memes, retirer_fin_de, sans_fin_de};

verus! {

/// Vrai quand ce chemin est dans cette destination : le chemin exact, ou le
/// préfixe suivi d'une barre — `/fr/lirent-ils` n'est pas sous `/fr/lire`. Une
/// barre finale est sans effet.
pub open spec fn on_y_est_spec(chemin: Seq<char>, destination: Seq<char>) -> bool {
    let c = sans_fin_de(chemin, '/');
    c == destination || commence_par(c, destination.push('/'))
}

/// Vrai quand ce chemin est dans cette destination.
pub fn on_y_est(chemin: &str, destination: &str) -> (r: bool)
    ensures
        r == on_y_est_spec(chemin@, destination@),
{
    let c = caracteres(chemin);
    let c = retirer_fin_de(c.as_slice(), '/');
    let mut d = caracteres(destination);
    if memes(c.as_slice(), d.as_slice()) {
        return true;
    }
    d.push('/');
    commence(c.as_slice(), d.as_slice())
}

/// Le tracé d'un symbole, en coordonnées de `viewBox="0 0 24 24"` : le livre,
/// le lexique, la loupe, et par défaut le compte.
pub open spec fn signe_spec(nom: Seq<char>) -> Seq<char> {
    if nom == "livre"@ {
        "M6 4h11a2 2 0 0 1 2 2v14H6a2 2 0 0 1-2-2V6a2 2 0 0 1 2-2Zm0 12h13"@
    } else if nom == "lexique"@ {
        "M6 4h11a2 2 0 0 1 2 2v14H6a2 2 0 0 1-2-2V6a2 2 0 0 1 2-2Zm4.2 11.5 2.3-6.4 2.3 6.4m-3.8-2h3"@
    } else if nom == "loupe"@ {
        "M10.5 4a6.5 6.5 0 1 1 0 13 6.5 6.5 0 0 1 0-13Zm5 11.5L20 20"@
    } else {
        "M12 3a9 9 0 1 1 0 18 9 9 0 0 1 0-18Zm0 4.5a3 3 0 1 1 0 6 3 3 0 0 1 0-6Zm-6.2 10a7.4 7.4 0 0 1 12.4 0"@
    }
}

/// Le tracé du symbole d'une destination.
pub fn signe(nom: &str) -> (r: &'static str)
    ensures
        r@ == signe_spec(nom@),
{
    if crate::chaines::meme_texte(nom, "livre") {
        "M6 4h11a2 2 0 0 1 2 2v14H6a2 2 0 0 1-2-2V6a2 2 0 0 1 2-2Zm0 12h13"
    } else if crate::chaines::meme_texte(nom, "lexique") {
        "M6 4h11a2 2 0 0 1 2 2v14H6a2 2 0 0 1-2-2V6a2 2 0 0 1 2-2Zm4.2 11.5 2.3-6.4 2.3 6.4m-3.8-2h3"
    } else if crate::chaines::meme_texte(nom, "loupe") {
        "M10.5 4a6.5 6.5 0 1 1 0 13 6.5 6.5 0 0 1 0-13Zm5 11.5L20 20"
    } else {
        "M12 3a9 9 0 1 1 0 18 9 9 0 0 1 0-18Zm0 4.5a3 3 0 1 1 0 6 3 3 0 0 1 0-6Zm-6.2 10a7.4 7.4 0 0 1 12.4 0"
    }
}

} // verus!
