//! Le script qui pose la peau et la taille du lecteur avant le premier rendu.
//!
//! Les tables qu'il porte — les thèmes, les fontes, les chemins de la liseuse
//! — sont engendrées depuis les types : une entrée ajoutée d'un côté ne peut
//! pas manquer de l'autre. La condition de chemin y est celle de
//! `c_est_la_liseuse` : la barre finale ignorée, le chemin exact, ou le
//! préfixe suivi d'une barre.

use vstd::prelude::*;

use crate::chaines::{caracteres, chaine, decimal, ecrire_decimal, prolonger};
use crate::domaine::lecture::{la_liseuse, liseuse, Fonte, Theme};

verus! {

/// Des mots entre apostrophes, séparés par des virgules : `'a','b'`.
pub open spec fn cites(mots: Seq<Seq<char>>) -> Seq<char>
    decreases mots.len(),
{
    if mots.len() == 0 {
        Seq::empty()
    } else if mots.len() == 1 {
        seq!['\''] + mots[0] + seq!['\'']
    } else {
        cites(mots.drop_last()) + seq![','] + seq!['\''] + mots.last() + seq!['\'']
    }
}

/// Les attributs des thèmes, dans l'ordre du menu.
pub open spec fn attributs_des_themes() -> Seq<Seq<char>> {
    seq![
        Theme::Parchemin.attribut_spec(),
        Theme::Clair.attribut_spec(),
        Theme::Sombre.attribut_spec(),
        Theme::Mystique.attribut_spec(),
    ]
}

/// Les attributs des fontes, dans l'ordre du menu.
pub open spec fn attributs_des_fontes() -> Seq<Seq<char>> {
    seq![
        Fonte::Literata.attribut_spec(),
        Fonte::EbGaramond.attribut_spec(),
        Fonte::Spectral.attribut_spec(),
        Fonte::SourceSerif.attribut_spec(),
        Fonte::Newsreader.attribut_spec(),
        Fonte::Jost.attribut_spec(),
        Fonte::Georgia.attribut_spec(),
    ]
}

/// Le script : relire les réglages gardés, poser la taille partout si elle
/// est dans les bornes du corps, et, sur la liseuse seulement, la peau et la
/// fonte si elles sont connues. Tout sous `try` : un stockage qui lève ne doit
/// pas arrêter l'en-tête.
pub open spec fn script_spec() -> Seq<char> {
    "try{var o=JSON.parse(localStorage.getItem('ont.lecture')||'{}'),r=document.documentElement,n=+o.corps;if(n>="@
        + decimal(Theme::CORPS_MINIMUM as nat) + "&&n<="@ + decimal(Theme::CORPS_MAXIMUM as nat)
        + ")r.style.setProperty('--lecture',n/"@ + decimal(Theme::CORPS_PAR_DEFAUT as nat)
        + ");var p=location.pathname.replace(/\\/+$/,''),L=["@ + cites(liseuse())
        + "],d=0;for(var i=0;i<L.length;i++)if(p===L[i]||p.indexOf(L[i]+'/')===0)d=1;if(d){var c=["@
        + cites(attributs_des_themes())
        + "];if(c.indexOf(o.theme)>=0)r.setAttribute('data-theme',o.theme);var f=["@
        + cites(attributs_des_fontes())
        + "];if(f.indexOf(o.fonte)>=0)r.setAttribute('data-fonte',o.fonte);}}catch(e){}"@
}

/// Écrit les mots cités à la suite de `sortie`.
fn ecrire_cites(mots: &[&str], sortie: &mut Vec<char>)
    ensures
        final(sortie)@ == old(sortie)@ + cites(mots@.map_values(|m: &str| m@)),
{
    let ghost depart = sortie@;
    let ghost tous = mots@.map_values(|m: &str| m@);
    assert(tous.take(0) =~= Seq::<Seq<char>>::empty());
    assert(sortie@ =~= depart + cites(tous.take(0)));
    let mut i: usize = 0;
    while i < mots.len()
        invariant
            i <= mots@.len(),
            tous == mots@.map_values(|m: &str| m@),
            sortie@ == depart + cites(tous.take(i as int)),
        decreases mots@.len() - i,
    {
        let ghost avant = sortie@;
        assert(tous.take(i + 1).drop_last() =~= tous.take(i as int));
        assert(tous.take(i + 1).last() == tous[i as int]);
        assert(tous[i as int] == mots@[i as int]@);
        if i > 0 {
            sortie.push(',');
        } else {
            assert(tous.take(1) =~= seq![tous[0]]);
        }
        sortie.push('\'');
        let m = caracteres(mots[i]);
        prolonger(sortie, m.as_slice());
        sortie.push('\'');
        assert(sortie@ =~= depart + cites(tous.take(i + 1)));
        i = i + 1;
    }
    assert(tous.take(mots@.len() as int) =~= tous);
}

/// Le script qui pose la peau et la taille du lecteur avant le premier rendu.
pub fn script_de_la_peau() -> (r: String)
    ensures
        r@ == script_spec(),
{
    let t = Theme::tous();
    let themes = [t[0].attribut(), t[1].attribut(), t[2].attribut(), t[3].attribut()];
    assert(themes@.map_values(|m: &str| m@) =~= attributs_des_themes());
    let f = Fonte::toutes();
    let fontes = [
        f[0].attribut(),
        f[1].attribut(),
        f[2].attribut(),
        f[3].attribut(),
        f[4].attribut(),
        f[5].attribut(),
        f[6].attribut(),
    ];
    assert(fontes@.map_values(|m: &str| m@) =~= attributs_des_fontes());
    let chemins = la_liseuse();

    let mut v = caracteres(
        "try{var o=JSON.parse(localStorage.getItem('ont.lecture')||'{}'),r=document.documentElement,n=+o.corps;if(n>=",
    );
    ecrire_decimal(Theme::CORPS_MINIMUM as u64, &mut v);
    let s = caracteres("&&n<=");
    prolonger(&mut v, s.as_slice());
    ecrire_decimal(Theme::CORPS_MAXIMUM as u64, &mut v);
    let s = caracteres(")r.style.setProperty('--lecture',n/");
    prolonger(&mut v, s.as_slice());
    ecrire_decimal(Theme::CORPS_PAR_DEFAUT as u64, &mut v);
    let s = caracteres(");var p=location.pathname.replace(/\\/+$/,''),L=[");
    prolonger(&mut v, s.as_slice());
    ecrire_cites(&chemins, &mut v);
    let s = caracteres(
        "],d=0;for(var i=0;i<L.length;i++)if(p===L[i]||p.indexOf(L[i]+'/')===0)d=1;if(d){var c=[",
    );
    prolonger(&mut v, s.as_slice());
    ecrire_cites(&themes, &mut v);
    let s = caracteres("];if(c.indexOf(o.theme)>=0)r.setAttribute('data-theme',o.theme);var f=[");
    prolonger(&mut v, s.as_slice());
    ecrire_cites(&fontes, &mut v);
    let s = caracteres("];if(f.indexOf(o.fonte)>=0)r.setAttribute('data-fonte',o.fonte);}}catch(e){}");
    prolonger(&mut v, s.as_slice());
    assert(v@ =~= script_spec());
    chaine(v.as_slice())
}

} // verus!
