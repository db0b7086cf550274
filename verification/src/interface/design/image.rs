//! L'adresse d'une image, empreinte comprise : un contenu nouveau a une
//! adresse nouvelle, donc aucun cache ne peut servir l'ancien. Une image
//! inconnue passe telle quelle, sans empreinte plutôt qu'avec une fausse.

use vstd::prelude::*;

use crate::chaines::{caracteres, chaine, meme_texte, prolonger};

verus! {

/// Le point de départ du FNV-1a sur 64 bits.
pub const BASE_FNV: u64 = 0xcbf2_9ce4_8422_2325;

/// Le multiplicateur de l'empreinte. Le FNV-1a de référence multiplie par
/// `0x100_0000_01b3` ; celui-ci porte un zéro de plus, et c'est lui que la
/// table des images emploie : une empreinte calculée ici doit la retrouver.
pub const MULTIPLICATEUR_FNV: u64 = 0x1000_0000_01b3;

/// Le hachage des octets, à la manière du FNV-1a sur 64 bits : pour chacun,
/// un ou exclusif puis une multiplication modulo 2⁶⁴.
pub open spec fn fnv(octets: Seq<u8>) -> u64
    decreases octets.len(),
{
    if octets.len() == 0 {
        BASE_FNV
    } else {
        let h = fnv(octets.drop_last()) ^ (octets.last() as u64);
        ((h as nat * MULTIPLICATEUR_FNV as nat) % 0x1_0000_0000_0000_0000) as u64
    }
}

/// Le chiffre de base trente-six : `0` à `9`, puis `a` à `z`.
pub open spec fn chiffre36(d: nat) -> char {
    if d < 10 {
        ((48 + d) as u32) as char
    } else {
        ((87 + d) as u32) as char
    }
}

/// L'écriture en base trente-six, sans zéro de tête ; zéro ne s'écrit pas.
pub open spec fn base36(n: nat) -> Seq<char>
    decreases n,
{
    if n == 0 {
        Seq::empty()
    } else {
        base36(n / 36).push(chiffre36(n % 36))
    }
}

fn chiffre36_de(d: u64) -> (c: char)
    requires
        d < 36,
    ensures
        c == chiffre36(d as nat),
{
    let alphabet = caracteres("0123456789abcdefghijklmnopqrstuvwxyz");
    proof {
        reveal_strlit("0123456789abcdefghijklmnopqrstuvwxyz");
    }
    assert(alphabet@[d as int] == chiffre36(d as nat));
    alphabet[d as usize]
}

fn ecrire_base36(n: u64, sortie: &mut Vec<char>)
    ensures
        final(sortie)@ == old(sortie)@ + base36(n as nat),
    decreases n,
{
    if n == 0 {
        assert(old(sortie)@ + Seq::<char>::empty() =~= old(sortie)@);
    } else {
        ecrire_base36(n / 36, sortie);
        sortie.push(chiffre36_de(n % 36));
        assert(old(sortie)@ + base36((n / 36) as nat).push(chiffre36((n % 36) as nat)) =~= old(
            sortie,
        )@ + base36(n as nat));
    }
}

/// L'empreinte d'un contenu : son hachage, en base trente-six.
pub fn empreinte(octets: &[u8]) -> (r: String)
    ensures
        r@ == base36(fnv(octets@) as nat),
{
    let mut somme: u64 = BASE_FNV;
    let mut i: usize = 0;
    while i < octets.len()
        invariant
            i <= octets@.len(),
            somme == fnv(octets@.take(i as int)),
        decreases octets@.len() - i,
    {
        assert(octets@.take(i + 1).drop_last() =~= octets@.take(i as int));
        assert(octets@.take(i + 1).last() == octets@[i as int]);
        somme = (somme ^ (octets[i] as u64)).wrapping_mul(MULTIPLICATEUR_FNV);
        i = i + 1;
    }
    assert(octets@.take(octets@.len() as int) =~= octets@);
    let mut v: Vec<char> = Vec::new();
    ecrire_base36(somme, &mut v);
    assert(v@ =~= base36(somme as nat));
    chaine(v.as_slice())
}

/// L'empreinte d'un nom dans la table, s'il y est.
pub open spec fn empreinte_de(nom: Seq<char>, table: Seq<(&str, &str)>) -> Option<Seq<char>>
    decreases table.len(),
{
    if table.len() == 0 {
        None
    } else {
        match empreinte_de(nom, table.drop_last()) {
            Some(e) => Some(e),
            None => if table.last().0@ == nom {
                Some(table.last().1@)
            } else {
                None
            },
        }
    }
}

/// L'adresse d'une image : `/images/<nom>`, suivie de `?v=` et de son
/// empreinte quand la table la connaît.
pub open spec fn image_spec(nom: Seq<char>, table: Seq<(&str, &str)>) -> Seq<char> {
    "/images/"@ + nom + match empreinte_de(nom, table) {
        Some(e) => "?v="@ + e,
        None => Seq::empty(),
    }
}

/// L'adresse d'une image, d'après la table des empreintes — le nom du fichier
/// et l'empreinte de son contenu.
pub fn image(nom: &str, empreintes: &[(&str, &str)]) -> (r: String)
    ensures
        r@ == image_spec(nom@, empreintes@),
{
    let mut v = caracteres("/images/");
    let n = caracteres(nom);
    prolonger(&mut v, n.as_slice());
    let mut i: usize = 0;
    while i < empreintes.len()
        invariant
            i <= empreintes@.len(),
            empreinte_de(nom@, empreintes@.take(i as int)) is None,
            v@ == "/images/"@ + nom@,
        decreases empreintes@.len() - i,
    {
        assert(empreintes@.take(i + 1).drop_last() =~= empreintes@.take(i as int));
        assert(empreintes@.take(i + 1).last() == empreintes@[i as int]);
        let (fichier, trace) = empreintes[i];
        if meme_texte(fichier, nom) {
            proof {
                lemme_empreinte_prefixe(nom@, empreintes@, i + 1);
            }
            let q = caracteres("?v=");
            prolonger(&mut v, q.as_slice());
            let e = caracteres(trace);
            prolonger(&mut v, e.as_slice());
            return chaine(v.as_slice());
        }
        i = i + 1;
    }
    assert(empreintes@.take(empreintes@.len() as int) =~= empreintes@);
    assert(v@ + Seq::<char>::empty() =~= v@);
    chaine(v.as_slice())
}

/// Ce que trouvent les premières lignes, la table entière le trouve.
proof fn lemme_empreinte_prefixe(nom: Seq<char>, table: Seq<(&str, &str)>, i: int)
    requires
        0 <= i <= table.len(),
        empreinte_de(nom, table.take(i)) is Some,
    ensures
        empreinte_de(nom, table) == empreinte_de(nom, table.take(i)),
    decreases table.len() - i,
{
    if i < table.len() {
        assert(table.take(i + 1).drop_last() =~= table.take(i));
        lemme_empreinte_prefixe(nom, table, i + 1);
    } else {
        assert(table.take(i) =~= table);
    }
}

} // verus!
