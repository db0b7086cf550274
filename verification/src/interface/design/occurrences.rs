//! Les occurrences d'un terme, et le renvoi lisible de chacune.

use vstd::prelude::*;

use crate::domaine::corpus::Occurrence;
use crate::chaines::{
    caracteres, chaine, decimal, decouper, ecrire_decimal, joindre, lecture_u32,
    lemme_morceaux_non_vide, lire_u32, majuscule, majuscules, morceaux, prolonger,
};

verus! {

/// Un texte dont la première lettre passe en capitale.
pub open spec fn capitalise(s: Seq<char>) -> Seq<char> {
    if s.len() == 0 {
        Seq::empty()
    } else {
        majuscule(s[0]) + s.drop_first()
    }
}

/// « bereshit » devient « Bereshit ».
pub fn capitaliser(texte: &str) -> (r: String)
    ensures
        r@ == capitalise(texte@),
{
    let c = caracteres(texte);
    if c.len() == 0 {
        return String::new();
    }
    let mut v = majuscules(c[0]);
    let mut i: usize = 1;
    while i < c.len()
        invariant
            1 <= i <= c@.len(),
            v@ == majuscule(c@[0]) + c@.subrange(1, i as int),
        decreases c@.len() - i,
    {
        v.push(c[i]);
        assert(c@.subrange(1, i + 1) =~= c@.subrange(1, i as int).push(c@[i as int]));
        i = i + 1;
    }
    assert(c@.subrange(1, c@.len() as int) =~= c@.drop_first());
    chaine(v.as_slice())
}

/// Le renvoi lisible d'une unité et d'un verset : les segments de
/// l'identifiant sauf le dernier font le nom du livre, capitalisé ; le dernier
/// est le numéro d'unité quand il se lit comme tel, sinon il est gardé.
pub open spec fn renvoi_spec(chapitre: Seq<char>, verset: Option<u32>) -> Seq<char> {
    let segments = morceaux(chapitre, '-');
    let dernier = segments.last();
    let suffixe = match lecture_u32(dernier) {
        Some(n) => decimal(n as nat),
        None => dernier,
    };
    let nom = capitalise(joindre(segments.drop_last(), seq![' ']));
    nom + seq![' '] + suffixe + match verset {
        Some(v) => seq![':'] + decimal(v as nat),
        None => Seq::empty(),
    }
}

/// « bereshit-10 » et le verset 6 donnent « Bereshit 10:6 » ; une
/// introduction ne reçoit pas de numéro inventé.
pub fn renvoi_lisible(chapitre: &str, verset: Option<u32>) -> (r: String)
    ensures
        r@ == renvoi_spec(chapitre@, verset),
{
    let c = caracteres(chapitre);
    let mut segments = decouper(c.as_slice(), '-');
    let ghost s = morceaux(chapitre@, '-');
    proof {
        lemme_morceaux_non_vide(chapitre@, '-');
    }
    assert(segments@.map_values(|w: Vec<char>| w@) == s);
    let n = segments.len();
    let dernier = segments.pop().unwrap();
    assert(dernier@ == s.last());
    let mut nom: Vec<char> = Vec::new();
    let mut i: usize = 0;
    let ghost debut = s.drop_last();
    assert(segments@.map_values(|w: Vec<char>| w@) =~= debut);
    assert(debut.take(0) =~= Seq::<Seq<char>>::empty());
    while i < segments.len()
        invariant
            i <= segments@.len(),
            segments@.map_values(|w: Vec<char>| w@) == debut,
            nom@ == joindre(debut.take(i as int), seq![' ']),
        decreases segments@.len() - i,
    {
        assert(segments@.map_values(|w: Vec<char>| w@)[i as int] == segments@[i as int]@);
        assert(debut.take(i + 1).drop_last() =~= debut.take(i as int));
        assert(debut.take(i + 1).last() == debut[i as int]);
        if i > 0 {
            nom.push(' ');
        } else {
            assert(debut.take(1) =~= seq![debut[0]]);
        }
        prolonger(&mut nom, segments[i].as_slice());
        i = i + 1;
    }
    assert(debut.take(debut.len() as int) =~= debut);
    let nom = chaine(nom.as_slice());
    let nom = capitaliser(nom.as_str());
    let mut v = caracteres(nom.as_str());
    v.push(' ');
    match lire_u32(dernier.as_slice()) {
        Some(numero) => ecrire_decimal(numero as u64, &mut v),
        None => prolonger(&mut v, dernier.as_slice()),
    }
    match verset {
        Some(numero) => {
            v.push(':');
            ecrire_decimal(numero as u64, &mut v);
        },
        None => {},
    }
    assert(v@ =~= renvoi_spec(chapitre@, verset));
    chaine(v.as_slice())
}

/// Le lien d'une occurrence : vers le verset, ancre comprise, quand elle est
/// dans un verset ; vers l'unité sinon.
pub open spec fn chemin_d_occurrence_spec(o: Occurrence) -> Seq<char> {
    "/fr/lire/"@ + o.livre@ + seq!['/'] + o.chapitre@ + match o.verset {
        Some(n) => "?v="@ + decimal(n as nat) + "#v"@ + decimal(n as nat),
        None => Seq::empty(),
    }
}

/// Le lien d'une occurrence dans la liseuse.
pub fn chemin_d_occurrence(o: &Occurrence) -> (r: String)
    ensures
        r@ == chemin_d_occurrence_spec(*o),
{
    let mut v = caracteres("/fr/lire/");
    let l = caracteres(o.livre.as_str());
    prolonger(&mut v, l.as_slice());
    v.push('/');
    let c = caracteres(o.chapitre.as_str());
    prolonger(&mut v, c.as_slice());
    match o.verset {
        Some(n) => {
            let q = caracteres("?v=");
            prolonger(&mut v, q.as_slice());
            ecrire_decimal(n as u64, &mut v);
            let a = caracteres("#v");
            prolonger(&mut v, a.as_slice());
            ecrire_decimal(n as u64, &mut v);
        },
        None => {},
    }
    assert(v@ =~= chemin_d_occurrence_spec(*o));
    chaine(v.as_slice())
}

/// Le compte des occurrences : « 1 occurrence », « 3 occurrences » — le
/// pluriel à partir de deux.
pub open spec fn compte_d_occurrences_spec(total: usize) -> Seq<char> {
    decimal(total as nat) + if total > 1 {
        " occurrences"@
    } else {
        " occurrence"@
    }
}

/// Le compte des occurrences, pluriel compris.
pub fn compte_d_occurrences(total: usize) -> (r: String)
    ensures
        r@ == compte_d_occurrences_spec(total),
{
    let mut v: Vec<char> = Vec::new();
    ecrire_decimal(total as u64, &mut v);
    let mot = if total > 1 {
        caracteres(" occurrences")
    } else {
        caracteres(" occurrence")
    };
    prolonger(&mut v, mot.as_slice());
    assert(v@ =~= compte_d_occurrences_spec(total));
    chaine(v.as_slice())
}

} // verus!
