//! La sélection de versets d'un lien partagé — le `?v=` des adresses.
//!
//! Un lien partagé depuis l'app désigne des versets : `?v=1-3` en désigne
//! trois, `?v=1,4-6` quatre. Ce module lit ce paramètre et l'écrit, et les
//! deux opérations sont l'une l'inverse de l'autre.
//!
//! Une sélection est un ensemble ; on la représente par la suite de ses
//! numéros, strictement croissante. `trie` donne cette suite pour n'importe
//! quelle liste de numéros.

use vstd::prelude::*;

use crate::chaines::{
    apparait_a, blanc, caracteres, chaine, chiffre, coupe, couper, decimal, decouper, est_chiffre,
    joindre, lecture_u32, lemme_decimal, lemme_decimal_se_relit, lemme_joindre_puis_morceaux,
    lemme_premiere, lire_u32, morceaux, premiere, rogne, rogne_debut, rogne_fin, rogner,
    sans_caractere, tout_chiffres, ecrire_decimal, lemme_morceaux_sans_separateur,
};

verus! {

// ───────────────────────── l'ensemble trié ──────────────────────────────────

/// Vrai quand la suite est strictement croissante.
pub open spec fn croissante(t: Seq<u32>) -> bool {
    forall|i: int, j: int| 0 <= i < j < t.len() ==> t[i] < t[j]
}

/// La suite strictement croissante `t`, augmentée de `x` s'il n'y est pas.
pub open spec fn inserer(t: Seq<u32>, x: u32) -> Seq<u32>
    decreases t.len(),
{
    if t.len() == 0 {
        seq![x]
    } else if x > t.last() {
        t.push(x)
    } else if x == t.last() {
        t
    } else {
        inserer(t.drop_last(), x).push(t.last())
    }
}

/// Les éléments de `s`, triés et sans doublon.
pub open spec fn trie(s: Seq<u32>) -> Seq<u32>
    decreases s.len(),
{
    if s.len() == 0 {
        Seq::empty()
    } else {
        inserer(trie(s.drop_last()), s.last())
    }
}

/// Insérer garde la suite croissante, et ajoute exactement `x`.
pub proof fn lemme_inserer(t: Seq<u32>, x: u32)
    requires
        croissante(t),
    ensures
        croissante(inserer(t, x)),
        forall|n: u32| #[trigger] inserer(t, x).contains(n) <==> (t.contains(n) || n == x),
    decreases t.len(),
{
    if t.len() == 0 {
        assert forall|n: u32| seq![x].contains(n) <==> n == x by {
            if n == x {
                assert(seq![x][0] == n);
            }
        }
    } else if x > t.last() {
        assert forall|n: u32| t.push(x).contains(n) <==> (t.contains(n) || n == x) by {
            if t.push(x).contains(n) {
                let k = choose|k: int| 0 <= k < t.push(x).len() && t.push(x)[k] == n;
                if k < t.len() {
                    assert(t[k] == n);
                }
            }
            if t.contains(n) {
                let k = choose|k: int| 0 <= k < t.len() && t[k] == n;
                assert(t.push(x)[k] == n);
            }
            if n == x {
                assert(t.push(x)[t.len() as int] == n);
            }
        }
    } else if x == t.last() {
        assert(t[t.len() - 1] == x);
        assert(t.contains(x));
    } else {
        let u = t.drop_last();
        assert(croissante(u));
        lemme_inserer(u, x);
        let v = inserer(u, x);
        let l = t.last();
        assert forall|n: u32| v.contains(n) implies n < l by {
            if v.contains(n) {
                if u.contains(n) {
                    let k = choose|k: int| 0 <= k < u.len() && u[k] == n;
                    assert(t[k] == n && t[t.len() - 1] == l);
                }
            }
        }
        assert forall|i: int, j: int| 0 <= i < j < v.push(l).len() implies v.push(l)[i] < v.push(
            l,
        )[j] by {
            if j == v.len() {
                assert(v.contains(v[i]));
            }
        }
        assert forall|n: u32| v.push(l).contains(n) <==> (t.contains(n) || n == x) by {
            if v.push(l).contains(n) {
                let k = choose|k: int| 0 <= k < v.push(l).len() && v.push(l)[k] == n;
                if k < v.len() {
                    assert(v[k] == n);
                    assert(v.contains(n));
                    if u.contains(n) {
                        let m = choose|m: int| 0 <= m < u.len() && u[m] == n;
                        assert(t[m] == n);
                    }
                } else {
                    assert(t[t.len() - 1] == n);
                }
            }
            if t.contains(n) {
                let k = choose|k: int| 0 <= k < t.len() && t[k] == n;
                if k < t.len() - 1 {
                    assert(u[k] == n);
                    assert(u.contains(n));
                    assert(v.contains(n));
                    let m = choose|m: int| 0 <= m < v.len() && v[m] == n;
                    assert(v.push(l)[m] == n);
                } else {
                    assert(v.push(l)[v.len() as int] == n);
                }
            }
            if n == x {
                assert(v.contains(n));
                let m = choose|m: int| 0 <= m < v.len() && v[m] == n;
                assert(v.push(l)[m] == n);
            }
        }
    }
}

/// `trie` rend une suite croissante qui porte les mêmes éléments.
pub proof fn lemme_trie(s: Seq<u32>)
    ensures
        croissante(trie(s)),
        forall|n: u32| #[trigger] trie(s).contains(n) <==> s.contains(n),
    decreases s.len(),
{
    if s.len() > 0 {
        let u = s.drop_last();
        lemme_trie(u);
        lemme_inserer(trie(u), s.last());
        assert forall|n: u32| trie(s).contains(n) <==> s.contains(n) by {
            if u.contains(n) {
                let k = choose|k: int| 0 <= k < u.len() && u[k] == n;
                assert(s[k] == n);
            }
            if s.contains(n) {
                let k = choose|k: int| 0 <= k < s.len() && s[k] == n;
                if k < s.len() - 1 {
                    assert(u[k] == n);
                } else {
                    assert(s.last() == n);
                }
            }
        }
    }
}

/// Deux suites croissantes qui portent les mêmes éléments sont la même.
pub proof fn lemme_unique(a: Seq<u32>, b: Seq<u32>)
    requires
        croissante(a),
        croissante(b),
        forall|n: u32| a.contains(n) <==> b.contains(n),
    ensures
        a == b,
    decreases a.len(),
{
    if a.len() == 0 {
        if b.len() > 0 {
            assert(b.contains(b[0]));
        }
        assert(a =~= b);
    } else {
        assert(a.contains(a[0]));
        assert(b.len() > 0);
        assert(b.contains(b[0]));
        let ka = choose|k: int| 0 <= k < a.len() && a[k] == b[0];
        let kb = choose|k: int| 0 <= k < b.len() && b[k] == a[0];
        assert(a[0] <= a[ka]);
        assert(b[0] <= b[kb]);
        assert(a[0] == b[0]);
        let a2 = a.drop_first();
        let b2 = b.drop_first();
        assert forall|n: u32| a2.contains(n) <==> b2.contains(n) by {
            if a2.contains(n) {
                let k = choose|k: int| 0 <= k < a2.len() && a2[k] == n;
                assert(a[k + 1] == n);
                assert(b.contains(n));
                let m = choose|m: int| 0 <= m < b.len() && b[m] == n;
                assert(m != 0);
                assert(b2[m - 1] == n);
            }
            if b2.contains(n) {
                let k = choose|k: int| 0 <= k < b2.len() && b2[k] == n;
                assert(b[k + 1] == n);
                assert(a.contains(n));
                let m = choose|m: int| 0 <= m < a.len() && a[m] == n;
                assert(m != 0);
                assert(a2[m - 1] == n);
            }
        }
        lemme_unique(a2, b2);
        assert(a =~= b) by {
            assert forall|i: int| 0 <= i < a.len() implies a[i] == b[i] by {
                if i > 0 {
                    assert(a[i] == a2[i - 1]);
                    assert(b[i] == b2[i - 1]);
                }
            }
        }
    }
}

/// Trier ce qui l'est déjà ne change rien.
pub proof fn lemme_trie_croissante(t: Seq<u32>)
    requires
        croissante(t),
    ensures
        trie(t) == t,
{
    lemme_trie(t);
    lemme_unique(trie(t), t);
}

/// Ajoute `x` à l'ensemble trié `v`.
fn ajouter(v: &mut Vec<u32>, x: u32)
    requires
        croissante(old(v)@),
    ensures
        final(v)@ == inserer(old(v)@, x),
{
    proof {
        lemme_inserer(old(v)@, x);
    }
    let n = v.len();
    if n == 0 || v[n - 1] < x {
        v.push(x);
        assert(v@ =~= inserer(old(v)@, x));
        return;
    }
    let mut i: usize = 0;
    while i < n && v[i] < x
        invariant
            n == v@.len(),
            v@ == old(v)@,
            i <= n,
            forall|k: int| 0 <= k < i ==> v@[k] < x,
        decreases n - i,
    {
        i = i + 1;
    }
    if i < n && v[i] == x {
        proof {
            assert forall|m: u32| v@.contains(m) <==> (old(v)@.contains(m) || m == x) by {
                if m == x {
                    assert(v@[i as int] == x);
                }
            }
            lemme_unique(v@, inserer(old(v)@, x));
        }
        return;
    }
    v.insert(i, x);
    proof {
        let w = v@;
        let t = old(v)@;
        assert(w =~= t.take(i as int).push(x) + t.skip(i as int));
        assert forall|a: int, b: int| 0 <= a < b < w.len() implies w[a] < w[b] by {
            if b < i {
                assert(w[a] == t[a] && w[b] == t[b]);
            } else if b == i {
                assert(w[a] == t[a]);
            } else if a < i {
                assert(w[a] == t[a] && w[b] == t[b - 1]);
                assert(t[a] < x);
                assert(t[b - 1] >= x) by {
                    if b - 1 > i {
                        assert(t[i as int] < t[b - 1]);
                    }
                }
            } else if a == i {
                assert(w[b] == t[b - 1]);
                assert(t[i as int] != x && t[i as int] >= x);
                if b - 1 > i {
                    assert(t[i as int] < t[b - 1]);
                }
            } else {
                assert(w[a] == t[a - 1] && w[b] == t[b - 1]);
            }
        }
        assert forall|m: u32| w.contains(m) <==> (t.contains(m) || m == x) by {
            if w.contains(m) {
                let k = choose|k: int| 0 <= k < w.len() && w[k] == m;
                if k < i {
                    assert(t[k] == m);
                } else if k > i {
                    assert(t[k - 1] == m);
                }
            }
            if t.contains(m) {
                let k = choose|k: int| 0 <= k < t.len() && t[k] == m;
                if k < i {
                    assert(w[k] == m);
                } else {
                    assert(w[k + 1] == m);
                }
            }
            if m == x {
                assert(w[i as int] == m);
            }
        }
        lemme_unique(w, inserer(t, x));
    }
}

/// Les numéros, triés et dédoublonnés.
pub fn trier(numeros: &[u32]) -> (r: Vec<u32>)
    ensures
        r@ == trie(numeros@),
        croissante(r@),
{
    let mut v: Vec<u32> = Vec::new();
    let mut i: usize = 0;
    while i < numeros.len()
        invariant
            i <= numeros@.len(),
            v@ == trie(numeros@.take(i as int)),
            croissante(v@),
        decreases numeros@.len() - i,
    {
        proof {
            lemme_trie(numeros@.take(i as int));
        }
        ajouter(&mut v, numeros[i]);
        proof {
            assert(numeros@.take(i + 1).drop_last() =~= numeros@.take(i as int));
            lemme_trie(numeros@.take(i + 1));
        }
        i = i + 1;
    }
    assert(numeros@.take(numeros@.len() as int) =~= numeros@);
    v
}

// ───────────────────────── lire le paramètre ────────────────────────────────

/// L'étendue la plus longue qu'un fragment puisse désigner, au-delà de son
/// premier numéro. Aucun chapitre n'en approche ; la borne n'existe que pour
/// qu'une adresse ne puisse pas demander une allocation démesurée.
pub const ETENDUE_MAXIMUM: u32 = 1000;

/// Les entiers de `debut` à `fin`, bornes comprises.
pub open spec fn plage(debut: u32, fin: u32) -> Seq<u32>
    decreases fin - debut,
{
    if fin < debut {
        Seq::empty()
    } else if fin == debut {
        seq![debut]
    } else {
        plage(debut, (fin - 1) as u32).push(fin)
    }
}

/// Ce que désigne `a-b` : les bornes lues à l'endroit, l'étendue coupée à
/// `ETENDUE_MAXIMUM` numéros après la première.
pub open spec fn etendue(a: u32, b: u32) -> Seq<u32> {
    let bas = if a <= b { a } else { b };
    let haut = if a <= b { b } else { a };
    let borne = if haut <= bas + ETENDUE_MAXIMUM { haut } else { (bas + ETENDUE_MAXIMUM) as u32 };
    plage(bas, borne)
}

/// Ce que désigne un fragment entre deux virgules : un numéro, une étendue,
/// ou rien s'il est illisible.
pub open spec fn fragment(f: Seq<char>) -> Seq<u32> {
    let g = rogne(f);
    match coupe(g, '-') {
        Some((a, b)) => match (lecture_u32(rogne(a)), lecture_u32(rogne(b))) {
            (Some(x), Some(y)) => etendue(x, y),
            _ => Seq::empty(),
        },
        None => match lecture_u32(g) {
            Some(n) => seq![n],
            None => Seq::empty(),
        },
    }
}

/// Les numéros non nuls de la suite, dans l'ordre.
pub open spec fn positifs(s: Seq<u32>) -> Seq<u32>
    decreases s.len(),
{
    if s.len() == 0 {
        Seq::empty()
    } else if s.last() > 0 {
        positifs(s.drop_last()).push(s.last())
    } else {
        positifs(s.drop_last())
    }
}

/// Ce que désignent des fragments, mis bout à bout, zéros écartés.
pub open spec fn designes(fragments: Seq<Seq<char>>) -> Seq<u32>
    decreases fragments.len(),
{
    if fragments.len() == 0 {
        Seq::empty()
    } else {
        designes(fragments.drop_last()) + positifs(fragment(fragments.last()))
    }
}

/// La sélection que désigne un paramètre `v`.
pub open spec fn lus(parametre: Seq<char>) -> Seq<u32> {
    trie(designes(morceaux(parametre, ',')))
}

/// Les entiers de `bas` à `haut`.
fn plage_de(bas: u32, haut: u32) -> (r: Vec<u32>)
    requires
        bas <= haut,
    ensures
        r@ == plage(bas, haut),
{
    let mut v: Vec<u32> = Vec::new();
    v.push(bas);
    let mut k: u32 = bas;
    assert(v@ =~= plage(bas, k));
    while k < haut
        invariant
            bas <= k <= haut,
            v@ == plage(bas, k),
        decreases haut - k,
    {
        k = k + 1;
        v.push(k);
    }
    v
}

/// Ce que désigne `a-b`.
fn etendre(a: u32, b: u32) -> (r: Vec<u32>)
    ensures
        r@ == etendue(a, b),
{
    let (bas, haut) = if a <= b { (a, b) } else { (b, a) };
    let borne = if haut - bas <= ETENDUE_MAXIMUM { haut } else { bas + ETENDUE_MAXIMUM };
    plage_de(bas, borne)
}

/// Ce que désigne un fragment.
fn fragment_lu(f: &[char]) -> (r: Vec<u32>)
    ensures
        r@ == fragment(f@),
{
    let g = rogner(f);
    match couper(g.as_slice(), '-') {
        Some((a, b)) => {
            let ra = rogner(a.as_slice());
            let rb = rogner(b.as_slice());
            match (lire_u32(ra.as_slice()), lire_u32(rb.as_slice())) {
                (Some(x), Some(y)) => etendre(x, y),
                _ => Vec::new(),
            }
        },
        None => match lire_u32(g.as_slice()) {
            Some(n) => {
                let mut v: Vec<u32> = Vec::new();
                v.push(n);
                assert(v@ =~= seq![n]);
                v
            },
            None => Vec::new(),
        },
    }
}

/// Les numéros de versets désignés par un paramètre `v` : `6`, `1-3`,
/// `1,4-6`.
///
/// Un fragment illisible ne désigne rien et n'emporte pas les autres ; des
/// bornes inversées se lisent à l'endroit ; une étendue est coupée à
/// `ETENDUE_MAXIMUM` numéros après la première ; le zéro n'est pas un verset.
/// Le résultat est trié et sans doublon.
pub fn versets(parametre: &str) -> (r: Vec<u32>)
    ensures
        r@ == lus(parametre@),
        croissante(r@),
{
    let c = caracteres(parametre);
    let parts = decouper(c.as_slice(), ',');
    let ghost p = morceaux(parametre@, ',');
    let mut v: Vec<u32> = Vec::new();
    let mut i: usize = 0;
    while i < parts.len()
        invariant
            i <= parts@.len(),
            parts@.map_values(|w: Vec<char>| w@) == p,
            v@ == trie(designes(p.take(i as int))),
            croissante(v@),
        decreases parts@.len() - i,
    {
        assert(parts@.map_values(|w: Vec<char>| w@)[i as int] == parts@[i as int]@);
        let f = fragment_lu(parts[i].as_slice());
        let ghost avant = designes(p.take(i as int));
        let mut j: usize = 0;
        assert(f@.take(0) =~= Seq::<u32>::empty());
        assert(avant + positifs(f@.take(0)) =~= avant);
        while j < f.len()
            invariant
                j <= f@.len(),
                v@ == trie(avant + positifs(f@.take(j as int))),
                croissante(v@),
            decreases f@.len() - j,
        {
            let n = f[j];
            assert(f@.take(j + 1).drop_last() =~= f@.take(j as int));
            if n > 0 {
                let ghost x = avant + positifs(f@.take(j as int));
                proof {
                    lemme_trie(x);
                    lemme_inserer(trie(x), n);
                }
                ajouter(&mut v, n);
                assert(x.push(n) =~= avant + positifs(f@.take(j + 1)));
                assert(x.push(n).drop_last() =~= x);
            }
            j = j + 1;
        }
        assert(f@.take(f@.len() as int) =~= f@);
        assert(p.take(i + 1).drop_last() =~= p.take(i as int));
        i = i + 1;
    }
    assert(p.take(p.len() as int) =~= p);
    v
}

// ───────────────────────── écrire le paramètre ──────────────────────────────

/// Les suites de numéros consécutifs d'une suite croissante, chacune par ses
/// deux bornes.
pub open spec fn groupes(t: Seq<u32>) -> Seq<(u32, u32)>
    decreases t.len(),
{
    if t.len() == 0 {
        Seq::empty()
    } else {
        let g = groupes(t.drop_last());
        let x = t.last();
        if g.len() > 0 && g.last().1 + 1 == x {
            g.update(g.len() - 1, (g.last().0, x))
        } else {
            g.push((x, x))
        }
    }
}

/// Une suite écrite par ses bornes : `6` pour une seule, `4-5` ou `1-3`
/// sinon — une paire s'écrit comme le reste.
pub open spec fn borne(g: (u32, u32)) -> Seq<char> {
    if g.0 == g.1 {
        decimal(g.0 as nat)
    } else {
        decimal(g.0 as nat) + seq!['-'] + decimal(g.1 as nat)
    }
}

/// Le paramètre qui désigne la suite croissante `t`.
pub open spec fn ecriture(t: Seq<u32>) -> Seq<char> {
    joindre(groupes(t).map_values(|g: (u32, u32)| borne(g)), seq![','])
}

/// Le paramètre qui désigne ces numéros, quel que soit leur ordre.
pub open spec fn ecrit(numeros: Seq<u32>) -> Seq<char> {
    ecriture(trie(numeros))
}

/// Les suites de numéros consécutifs.
fn grouper(t: &[u32]) -> (r: Vec<(u32, u32)>)
    ensures
        r@ == groupes(t@),
{
    let mut faits: Vec<(u32, u32)> = Vec::new();
    let mut i: usize = 0;
    while i < t.len()
        invariant
            i <= t@.len(),
            faits@ == groupes(t@.take(i as int)),
        decreases t@.len() - i,
    {
        let x = t[i];
        let n = faits.len();
        assert(t@.take(i + 1).drop_last() =~= t@.take(i as int));
        assert(t@.take(i + 1).last() == x);
        if n > 0 && faits[n - 1].1 < x && x - faits[n - 1].1 == 1 {
            let debut = faits[n - 1].0;
            faits.set(n - 1, (debut, x));
        } else {
            faits.push((x, x));
        }
        i = i + 1;
    }
    assert(t@.take(t@.len() as int) =~= t@);
    faits
}

/// Écrit une suite par ses bornes au bout du vecteur.
fn ecrire_borne(g: (u32, u32), sortie: &mut Vec<char>)
    ensures
        final(sortie)@ == old(sortie)@ + borne(g),
{
    ecrire_decimal(g.0 as u64, sortie);
    if g.0 != g.1 {
        sortie.push('-');
        ecrire_decimal(g.1 as u64, sortie);
        assert(old(sortie)@ + decimal(g.0 as nat) + seq!['-'] + decimal(g.1 as nat) =~= old(
            sortie,
        )@ + borne(g));
    }
}

/// Le paramètre, en caractères.
fn ecrire(numeros: &[u32]) -> (r: Vec<char>)
    ensures
        r@ == ecrit(numeros@),
{
    let t = trier(numeros);
    let gs = grouper(t.as_slice());
    let mut sortie: Vec<char> = Vec::new();
    let mut k: usize = 0;
    assert(gs@.take(0).map_values(|g: (u32, u32)| borne(g)) =~= Seq::<Seq<char>>::empty());
    while k < gs.len()
        invariant
            k <= gs@.len(),
            sortie@ == joindre(gs@.take(k as int).map_values(|g: (u32, u32)| borne(g)), seq![',']),
        decreases gs@.len() - k,
    {
        let ghost avant = gs@.take(k as int).map_values(|g: (u32, u32)| borne(g));
        assert(gs@.take(k + 1).map_values(|g: (u32, u32)| borne(g)) =~= avant.push(borne(gs@[k as int])));
        assert(avant.push(borne(gs@[k as int])).drop_last() =~= avant);
        if k > 0 {
            sortie.push(',');
        } else {
            assert(sortie@ =~= Seq::<char>::empty());
        }
        ecrire_borne(gs[k], &mut sortie);
        k = k + 1;
    }
    assert(gs@.take(gs@.len() as int) =~= gs@);
    sortie
}

/// Le paramètre `v` qui désigne exactement ces versets : triés, sans doublon,
/// les suites repliées en `début-fin`, les morceaux séparés par des virgules
/// sans espace. Une sélection vide rend une chaîne vide.
pub fn parametre(numeros: &[u32]) -> (r: String)
    ensures
        r@ == ecrit(numeros@),
{
    let v = ecrire(numeros);
    chaine(v.as_slice())
}

/// Chaque virgule suivie d'une espace, comme l'écrit le français.
pub open spec fn aere(s: Seq<char>) -> Seq<char>
    decreases s.len(),
{
    if s.len() == 0 {
        Seq::empty()
    } else if s.last() == ',' {
        aere(s.drop_last()) + seq![',', ' ']
    } else {
        aere(s.drop_last()).push(s.last())
    }
}

/// La même sélection, écrite pour être lue : « 1, 4-6 ».
pub fn libelle(numeros: &[u32]) -> (r: String)
    ensures
        r@ == aere(ecrit(numeros@)),
{
    let v = ecrire(numeros);
    let mut sortie: Vec<char> = Vec::new();
    let mut i: usize = 0;
    while i < v.len()
        invariant
            i <= v@.len(),
            sortie@ == aere(v@.take(i as int)),
        decreases v@.len() - i,
    {
        let c = v[i];
        assert(v@.take(i + 1).drop_last() =~= v@.take(i as int));
        if c == ',' {
            sortie.push(',');
            sortie.push(' ');
            assert(aere(v@.take(i as int)).push(',').push(' ') =~= aere(v@.take(i as int)) + seq![
                ',',
                ' ',
            ]);
        } else {
            sortie.push(c);
        }
        i = i + 1;
    }
    assert(v@.take(v@.len() as int) =~= v@);
    chaine(sortie.as_slice())
}

// ───────────────────────── ce qui est écrit se relit ────────────────────────

/// Les numéros que couvrent des suites, mis bout à bout.
pub open spec fn aplati(gs: Seq<(u32, u32)>) -> Seq<u32>
    decreases gs.len(),
{
    if gs.len() == 0 {
        Seq::empty()
    } else {
        aplati(gs.drop_last()) + plage(gs.last().0, gs.last().1)
    }
}

/// Vrai quand chaque suite va de sa première borne à sa seconde, sans zéro,
/// sur au plus `ETENDUE_MAXIMUM` numéros après la première.
pub open spec fn suites_lisibles(gs: Seq<(u32, u32)>) -> bool {
    forall|i: int|
        0 <= i < gs.len() ==> 0 < (#[trigger] gs[i]).0 <= gs[i].1 && gs[i].1 - gs[i].0
            <= ETENDUE_MAXIMUM
}

/// Les suites d'une suite croissante la recouvrent exactement.
proof fn lemme_groupes(t: Seq<u32>)
    requires
        croissante(t),
    ensures
        aplati(groupes(t)) == t,
        forall|i: int| 0 <= i < groupes(t).len() ==> (#[trigger] groupes(t)[i]).0 <= groupes(t)[i].1,
        (forall|j: int| 0 <= j < t.len() ==> t[j] > 0) ==> forall|i: int|
            0 <= i < groupes(t).len() ==> (#[trigger] groupes(t)[i]).0 > 0,
    decreases t.len(),
{
    if t.len() > 0 {
        let u = t.drop_last();
        let x = t.last();
        assert(croissante(u));
        lemme_groupes(u);
        let g = groupes(u);
        if (forall|j: int| 0 <= j < t.len() ==> t[j] > 0) {
            assert forall|j: int| 0 <= j < u.len() implies u[j] > 0 by {
                assert(u[j] == t[j]);
            }
        }
        assert(x == t[t.len() - 1]);
        if g.len() > 0 && g.last().1 + 1 == x {
            let n = g.len() - 1;
            let a = g.last().0;
            let b = g.last().1;
            let h = g.update(n, (a, x));
            assert(g[n] == g.last());
            assert(h.drop_last() =~= g.drop_last());
            assert(plage(a, x) == plage(a, (x - 1) as u32).push(x));
            assert(aplati(h) =~= aplati(g).push(x));
            assert(u.push(x) =~= t);
            assert forall|i: int| 0 <= i < h.len() implies (#[trigger] h[i]).0 <= h[i].1 by {
                if i < n {
                    assert(h[i] == g[i]);
                }
            }
            if (forall|j: int| 0 <= j < t.len() ==> t[j] > 0) {
                assert forall|i: int| 0 <= i < h.len() implies (#[trigger] h[i]).0 > 0 by {
                    assert(g[i].0 > 0);
                }
            }
        } else {
            let h = g.push((x, x));
            assert(h.drop_last() =~= g);
            assert(aplati(h) =~= aplati(g) + seq![x]);
            assert(u + seq![x] =~= t);
            assert forall|i: int| 0 <= i < h.len() implies (#[trigger] h[i]).0 <= h[i].1 by {
                if i < g.len() {
                    assert(h[i] == g[i]);
                }
            }
            if (forall|j: int| 0 <= j < t.len() ==> t[j] > 0) {
                assert forall|i: int| 0 <= i < h.len() implies (#[trigger] h[i]).0 > 0 by {
                    if i < g.len() {
                        assert(h[i] == g[i]);
                    }
                }
            }
        }
    }
}

/// Une plage de numéros non nuls ne perd rien aux zéros écartés.
proof fn lemme_positifs_plage(a: u32, b: u32)
    requires
        0 < a,
    ensures
        positifs(plage(a, b)) == plage(a, b),
    decreases b - a,
{
    if b < a {
    } else if b == a {
        assert(seq![a].drop_last() =~= Seq::<u32>::empty());
        assert(seq![a].last() == a);
        assert(positifs(Seq::<u32>::empty()) =~= Seq::<u32>::empty());
        assert(positifs(seq![a]) == positifs(seq![a].drop_last()).push(a));
        assert(positifs(seq![a]) =~= seq![a]);
    } else {
        let q = plage(a, (b - 1) as u32);
        lemme_positifs_plage(a, (b - 1) as u32);
        assert(plage(a, b) == q.push(b));
        assert(q.push(b).drop_last() =~= q);
        assert(q.push(b).last() == b);
        assert(positifs(q.push(b)) == positifs(q).push(b));
    }
}

/// Sans blanc, rogner ne change rien.
proof fn lemme_rogne_sans_blanc(s: Seq<char>)
    requires
        forall|i: int| 0 <= i < s.len() ==> !blanc(#[trigger] s[i]),
    ensures
        rogne(s) == s,
{
    if s.len() > 0 {
        assert(!blanc(s[0]));
        assert(!blanc(s[s.len() - 1]));
    }
}

/// Une borne écrite ne porte que des chiffres et des traits d'union.
proof fn lemme_borne_caracteres(g: (u32, u32))
    ensures
        forall|k: int|
            0 <= k < borne(g).len() ==> est_chiffre(#[trigger] borne(g)[k]) || borne(g)[k] == '-',
        borne(g).len() > 0,
{
    lemme_decimal(g.0 as nat);
    lemme_decimal(g.1 as nat);
    let da = decimal(g.0 as nat);
    let db = decimal(g.1 as nat);
    if g.0 != g.1 {
        let s = da + seq!['-'] + db;
        assert forall|k: int| 0 <= k < s.len() implies est_chiffre(#[trigger] s[k]) || s[k]
            == '-' by {
            if k < da.len() {
                assert(s[k] == da[k]);
            } else if k > da.len() {
                assert(s[k] == db[k - da.len() - 1]);
            }
        }
    }
}

/// Un chiffre n'est pas un blanc, un trait d'union non plus.
proof fn lemme_chiffres_sans_blanc(s: Seq<char>)
    requires
        forall|k: int| 0 <= k < s.len() ==> est_chiffre(#[trigger] s[k]) || s[k] == '-',
    ensures
        forall|k: int| 0 <= k < s.len() ==> !blanc(#[trigger] s[k]),
{
    assert forall|k: int| 0 <= k < s.len() implies !blanc(#[trigger] s[k]) by {
        assert(est_chiffre(s[k]) || s[k] == '-');
    }
}

/// Une écriture décimale ne porte pas de trait d'union.
proof fn lemme_decimal_sans_tiret(n: nat)
    ensures
        premiere(decimal(n), seq!['-']) is None,
{
    lemme_decimal(n);
    let s = decimal(n);
    lemme_premiere(s, seq!['-']);
    if premiere(s, seq!['-']) is Some {
        let k = premiere(s, seq!['-'])->0;
        assert(s.subrange(k, k + 1)[0] == s[k]);
        assert(est_chiffre(s[k]));
    }
}

/// Relire une borne rend la suite qu'elle écrit.
proof fn lemme_fragment_borne(g: (u32, u32))
    requires
        g.0 <= g.1,
        g.1 - g.0 <= ETENDUE_MAXIMUM,
    ensures
        fragment(borne(g)) == plage(g.0, g.1),
{
    let a = g.0;
    let b = g.1;
    let da = decimal(a as nat);
    let db = decimal(b as nat);
    lemme_decimal(a as nat);
    lemme_decimal(b as nat);
    lemme_decimal_se_relit(a);
    lemme_decimal_se_relit(b);
    lemme_borne_caracteres(g);
    lemme_chiffres_sans_blanc(borne(g));
    lemme_rogne_sans_blanc(borne(g));
    if a == b {
        lemme_decimal_sans_tiret(a as nat);
        assert(fragment(borne(g)) =~= seq![a]);
    } else {
        let s = borne(g);
        let k = da.len() as int;
        assert(s.subrange(k, k + 1) =~= seq!['-']);
        assert(apparait_a(s, seq!['-'], k));
        lemme_premiere(s, seq!['-']);
        assert(premiere(s, seq!['-']) == Some(k)) by {
            if premiere(s, seq!['-']) is Some {
                let k2 = premiere(s, seq!['-'])->0;
                if k2 < k {
                    assert(s.subrange(k2, k2 + 1)[0] == s[k2]);
                    assert(s[k2] == da[k2]);
                    assert(est_chiffre(da[k2]));
                }
            }
        }
        assert(s.take(k) =~= da);
        assert(s.skip(k + 1) =~= db);
        lemme_chiffres_sans_blanc(da);
        lemme_chiffres_sans_blanc(db);
        lemme_rogne_sans_blanc(da);
        lemme_rogne_sans_blanc(db);
    }
}

/// Relire des bornes écrites rend les numéros qu'elles couvrent.
proof fn lemme_designes_bornes(gs: Seq<(u32, u32)>)
    requires
        suites_lisibles(gs),
    ensures
        designes(gs.map_values(|g: (u32, u32)| borne(g))) == aplati(gs),
    decreases gs.len(),
{
    if gs.len() > 0 {
        let parts = gs.map_values(|g: (u32, u32)| borne(g));
        let avant = gs.drop_last();
        assert(suites_lisibles(avant)) by {
            assert forall|i: int| 0 <= i < avant.len() implies 0 < (#[trigger] avant[i]).0
                <= avant[i].1 && avant[i].1 - avant[i].0 <= ETENDUE_MAXIMUM by {
                assert(avant[i] == gs[i]);
            }
        }
        lemme_designes_bornes(avant);
        assert(parts.drop_last() =~= avant.map_values(|g: (u32, u32)| borne(g)));
        let l = gs[gs.len() - 1];
        assert(parts.last() == borne(l));
        lemme_fragment_borne(l);
        lemme_positifs_plage(l.0, l.1);
    }
}

/// Le paramètre écrit pour une suite croissante se relit en cette suite.
proof fn lemme_ecriture_relue(t: Seq<u32>)
    requires
        croissante(t),
        forall|j: int| 0 <= j < t.len() ==> t[j] > 0,
        forall|i: int|
            0 <= i < groupes(t).len() ==> (#[trigger] groupes(t)[i]).1 - groupes(t)[i].0
                <= ETENDUE_MAXIMUM,
    ensures
        designes(morceaux(ecriture(t), ',')) == t,
{
    lemme_groupes(t);
    let gs = groupes(t);
    let parts = gs.map_values(|g: (u32, u32)| borne(g));
    if gs.len() == 0 {
        assert(parts =~= Seq::<Seq<char>>::empty());
        let vide = Seq::<char>::empty();
        assert(morceaux(vide, ',') =~= seq![vide]);
        assert(seq![vide].drop_last() =~= Seq::<Seq<char>>::empty());
        assert(rogne(vide) =~= vide);
        assert(coupe(vide, '-') is None);
        assert(fragment(vide) =~= Seq::<u32>::empty());
        assert(seq![vide].last() == vide);
        assert(positifs(Seq::<u32>::empty()) =~= Seq::<u32>::empty());
        assert(designes(Seq::<Seq<char>>::empty()) =~= Seq::<u32>::empty());
        assert(designes(seq![vide]) == designes(seq![vide].drop_last()) + positifs(
            fragment(vide),
        ));
        assert(designes(seq![vide]) =~= Seq::<u32>::empty());
    } else {
        assert(suites_lisibles(gs));
        assert(sans_caractere(parts, ',')) by {
            assert forall|i: int| 0 <= i < parts.len() implies !(#[trigger] parts[i]).contains(
                ',',
            ) by {
                lemme_borne_caracteres(gs[i]);
                if parts[i].contains(',') {
                    let k = choose|k: int| 0 <= k < parts[i].len() && parts[i][k] == ',';
                    assert(est_chiffre(borne(gs[i])[k]) || borne(gs[i])[k] == '-');
                }
            }
        }
        lemme_joindre_puis_morceaux(parts, ',');
        lemme_designes_bornes(gs);
    }
}

/// **Ce que `parametre` écrit, `versets` le relit à l'identique** : la
/// sélection, triée et sans doublon. Cela vaut pour toute sélection sans
/// zéro dont aucune suite de numéros consécutifs ne s'étend sur plus de
/// `ETENDUE_MAXIMUM` numéros après son premier.
pub proof fn loi_ce_qui_est_ecrit_se_relit(numeros: Seq<u32>)
    requires
        forall|i: int| 0 <= i < numeros.len() ==> numeros[i] > 0,
        forall|i: int|
            0 <= i < groupes(trie(numeros)).len() ==> (#[trigger] groupes(trie(numeros))[i]).1
                - groupes(trie(numeros))[i].0 <= ETENDUE_MAXIMUM,
    ensures
        lus(ecrit(numeros)) == trie(numeros),
{
    let t = trie(numeros);
    lemme_trie(numeros);
    assert forall|j: int| 0 <= j < t.len() implies t[j] > 0 by {
        assert(t.contains(t[j]));
        assert(numeros.contains(t[j]));
    }
    lemme_ecriture_relue(t);
    lemme_trie_croissante(t);
}

proof fn lemme_inserer_non_vide(t: Seq<u32>, x: u32)
    ensures
        inserer(t, x).len() > 0,
    decreases t.len(),
{
    if t.len() > 0 && x < t.last() {
        lemme_inserer_non_vide(t.drop_last(), x);
    }
}

/// **Rien ne s'écrit vide que le vide** : le paramètre est la chaîne vide
/// exactement quand aucun numéro n'est choisi.
pub proof fn loi_seul_le_vide_s_ecrit_vide(numeros: Seq<u32>)
    ensures
        ecrit(numeros).len() == 0 <==> numeros.len() == 0,
{
    let t = trie(numeros);
    if numeros.len() > 0 {
        lemme_inserer_non_vide(trie(numeros.drop_last()), numeros.last());
        assert(t.len() > 0);
        let g = groupes(t);
        assert(g.len() > 0);
        let parties = g.map_values(|x: (u32, u32)| borne(x));
        assert(parties[0] == borne(g[0]));
        assert(decimal(g[0].0 as nat).len() > 0);
        assert(parties[0].len() > 0);
        if parties.len() > 1 {
            assert(joindre(parties, seq![',']) == joindre(parties.drop_last(), seq![',']) + seq![',']
                + parties.last());
        }
    }
}

/// L'étendue `a-b`, écrite en décimal.
pub open spec fn intervalle_ecrit(a: u32, b: u32) -> Seq<char> {
    decimal(a as nat) + seq!['-'] + decimal(b as nat)
}

/// Un intervalle écrit ne porte que des chiffres et un trait d'union, qui
/// suit le premier nombre.
proof fn lemme_intervalle_caracteres(a: u32, b: u32)
    ensures
        forall|k: int|
            0 <= k < intervalle_ecrit(a, b).len() ==> est_chiffre(
                #[trigger] intervalle_ecrit(a, b)[k],
            ) || intervalle_ecrit(a, b)[k] == '-',
        !intervalle_ecrit(a, b).contains(','),
{
    lemme_decimal(a as nat);
    lemme_decimal(b as nat);
    let da = decimal(a as nat);
    let db = decimal(b as nat);
    let s = intervalle_ecrit(a, b);
    assert forall|k: int| 0 <= k < s.len() implies est_chiffre(#[trigger] s[k]) || s[k] == '-' by {
        if k < da.len() {
            assert(s[k] == da[k]);
        } else if k > da.len() {
            assert(s[k] == db[k - da.len() - 1]);
        }
    }
    if s.contains(',') {
        let k = choose|k: int| 0 <= k < s.len() && s[k] == ',';
        assert(est_chiffre(s[k]) || s[k] == '-');
    }
}

/// Relire `a-b` rend ce que désigne l'étendue de `a` à `b`.
proof fn lemme_fragment_intervalle(a: u32, b: u32)
    ensures
        fragment(intervalle_ecrit(a, b)) == etendue(a, b),
{
    let da = decimal(a as nat);
    let db = decimal(b as nat);
    let s = intervalle_ecrit(a, b);
    lemme_decimal(a as nat);
    lemme_decimal(b as nat);
    lemme_decimal_se_relit(a);
    lemme_decimal_se_relit(b);
    lemme_intervalle_caracteres(a, b);
    lemme_chiffres_sans_blanc(s);
    lemme_rogne_sans_blanc(s);
    let k = da.len() as int;
    assert(s.subrange(k, k + 1) =~= seq!['-']);
    assert(apparait_a(s, seq!['-'], k));
    lemme_premiere(s, seq!['-']);
    assert(premiere(s, seq!['-']) == Some(k)) by {
        if premiere(s, seq!['-']) is Some {
            let k2 = premiere(s, seq!['-'])->0;
            if k2 < k {
                assert(s.subrange(k2, k2 + 1)[0] == s[k2]);
                assert(s[k2] == da[k2]);
                assert(est_chiffre(da[k2]));
            }
        }
    }
    assert(s.take(k) =~= da);
    assert(s.skip(k + 1) =~= db);
    assert forall|j: int| 0 <= j < da.len() implies est_chiffre(#[trigger] da[j]) || da[j] == '-' by {
        assert(da[j] == s[j]);
    }
    assert forall|j: int| 0 <= j < db.len() implies est_chiffre(#[trigger] db[j]) || db[j] == '-' by {
        assert(db[j] == s[j + k + 1]);
    }
    lemme_chiffres_sans_blanc(da);
    lemme_chiffres_sans_blanc(db);
    lemme_rogne_sans_blanc(da);
    lemme_rogne_sans_blanc(db);
}

/// **Des bornes inversées se lisent à l'endroit** : `b-a` désigne les mêmes
/// versets que `a-b`.
pub proof fn loi_les_bornes_inversees_se_lisent_a_l_endroit(a: u32, b: u32)
    ensures
        lus(intervalle_ecrit(b, a)) == lus(intervalle_ecrit(a, b)),
{
    lemme_fragment_intervalle(a, b);
    lemme_fragment_intervalle(b, a);
    lemme_intervalle_caracteres(a, b);
    lemme_intervalle_caracteres(b, a);
    lemme_morceaux_sans_separateur(intervalle_ecrit(a, b), ',');
    lemme_morceaux_sans_separateur(intervalle_ecrit(b, a), ',');
    assert(seq![intervalle_ecrit(a, b)].drop_last() =~= Seq::<Seq<char>>::empty());
    assert(seq![intervalle_ecrit(b, a)].drop_last() =~= Seq::<Seq<char>>::empty());
    assert(etendue(a, b) == etendue(b, a));
}

/// **L'ordre de saisie ne change pas l'adresse** : deux listes qui désignent
/// les mêmes versets s'écrivent pareil, doublons compris.
pub proof fn loi_l_ordre_de_saisie_ne_change_rien(a: Seq<u32>, b: Seq<u32>)
    requires
        forall|n: u32| a.contains(n) <==> b.contains(n),
    ensures
        ecrit(a) == ecrit(b),
{
    lemme_trie(a);
    lemme_trie(b);
    lemme_unique(trie(a), trie(b));
}

/// La suite privée de ses espaces.
pub open spec fn sans_espaces(s: Seq<char>) -> Seq<char>
    decreases s.len(),
{
    if s.len() == 0 {
        Seq::empty()
    } else if s.last() == ' ' {
        sans_espaces(s.drop_last())
    } else {
        sans_espaces(s.drop_last()).push(s.last())
    }
}

/// Des parties jointes ne portent que ce que portent les parties et le
/// séparateur.
proof fn lemme_joindre_sans(parties: Seq<Seq<char>>, sep: Seq<char>, c: char)
    requires
        sans_caractere(parties, c),
        !sep.contains(c),
    ensures
        !joindre(parties, sep).contains(c),
    decreases parties.len(),
{
    if parties.len() == 1 {
        assert(!parties[0].contains(c));
    } else if parties.len() > 1 {
        let avant = parties.drop_last();
        assert(sans_caractere(avant, c)) by {
            assert forall|i: int| 0 <= i < avant.len() implies !(#[trigger] avant[i]).contains(
                c,
            ) by {
                assert(avant[i] == parties[i]);
            }
        }
        lemme_joindre_sans(avant, sep, c);
        let j = joindre(avant, sep);
        let l = parties[parties.len() - 1];
        assert(!l.contains(c));
        if (j + sep + l).contains(c) {
            let k = choose|k: int| 0 <= k < (j + sep + l).len() && (j + sep + l)[k] == c;
            if k < j.len() {
                assert(j[k] == c);
            } else if k < j.len() + sep.len() {
                assert(sep[k - j.len()] == c);
            } else {
                assert(l[k - j.len() - sep.len()] == c);
            }
        }
    }
}

/// Ôter les espaces d'un texte aéré rend le texte, s'il n'en portait pas.
proof fn lemme_aere_puis_sans_espaces(s: Seq<char>)
    requires
        !s.contains(' '),
    ensures
        sans_espaces(aere(s)) == s,
    decreases s.len(),
{
    if s.len() > 0 {
        let u = s.drop_last();
        assert(!u.contains(' ')) by {
            if u.contains(' ') {
                let k = choose|k: int| 0 <= k < u.len() && u[k] == ' ';
                assert(s[k] == ' ');
            }
        }
        lemme_aere_puis_sans_espaces(u);
        assert(s.last() != ' ') by {
            assert(s[s.len() - 1] == s.last());
        }
        let a = aere(u);
        assert(u.push(s.last()) =~= s);
        if s.last() == ',' {
            let x = a + seq![',', ' '];
            assert(aere(s) == x);
            assert(x.drop_last() =~= a.push(','));
            assert(x.last() == ' ');
            assert(a.push(',').drop_last() =~= a);
            assert(a.push(',').last() == ',');
            assert(sans_espaces(x) == sans_espaces(a.push(',')));
            assert(sans_espaces(a.push(',')) == u.push(','));
        } else {
            assert(aere(s) == a.push(s.last()));
            assert(a.push(s.last()).drop_last() =~= a);
            assert(a.push(s.last()).last() == s.last());
            assert(sans_espaces(a.push(s.last())) == u.push(s.last()));
        }
    }
}

/// **Le libellé et l'adresse disent le même ensemble** : ôter les espaces du
/// libellé rend exactement le paramètre, qui n'en porte jamais.
pub proof fn loi_le_libelle_est_l_adresse_aeree(numeros: Seq<u32>)
    ensures
        !ecrit(numeros).contains(' '),
        sans_espaces(aere(ecrit(numeros))) == ecrit(numeros),
{
    let t = trie(numeros);
    let gs = groupes(t);
    let parts = gs.map_values(|g: (u32, u32)| borne(g));
    assert(sans_caractere(parts, ' ')) by {
        assert forall|i: int| 0 <= i < parts.len() implies !(#[trigger] parts[i]).contains(
            ' ',
        ) by {
            lemme_borne_caracteres(gs[i]);
            if parts[i].contains(' ') {
                let k = choose|k: int| 0 <= k < parts[i].len() && parts[i][k] == ' ';
                assert(est_chiffre(borne(gs[i])[k]) || borne(gs[i])[k] == '-');
            }
        }
    }
    assert(!seq![','].contains(' ')) by {
        if seq![','].contains(' ') {
            let k = choose|k: int| 0 <= k < 1 && seq![','][k] == ' ';
        }
    }
    lemme_joindre_sans(parts, seq![','], ' ');
    lemme_aere_puis_sans_espaces(ecrit(numeros));
}


proof fn lemme_aere_virgules(s: Seq<char>)
    ensures
        forall|i: int|
            #![trigger aere(s)[i]]
            0 <= i < aere(s).len() && aere(s)[i] == ',' ==> i + 1 < aere(s).len() && aere(s)[i
                + 1] == ' ',
        !s.contains(' ') ==> forall|i: int|
            #![trigger aere(s)[i]]
            0 <= i < aere(s).len() && aere(s)[i] == ' ' ==> i > 0 && aere(s)[i - 1] == ',',
    decreases s.len(),
{
    if s.len() > 0 {
        let u = s.drop_last();
        let c = s.last();
        lemme_aere_virgules(u);
        let ru = aere(u);
        let r = aere(s);
        if !s.contains(' ') {
            assert(!u.contains(' ')) by {
                if u.contains(' ') {
                    let k = choose|k: int| 0 <= k < u.len() && u[k] == ' ';
                    assert(s[k] == ' ');
                }
            }
            assert(c != ' ') by {
                assert(s[s.len() - 1] == c);
            }
        }
        if c == ',' {
            assert(r == ru + seq![',', ' ']);
            assert forall|i: int| #![trigger r[i]] 0 <= i < r.len() && r[i] == ',' implies i + 1
                < r.len() && r[i + 1] == ' ' by {
                if i < ru.len() {
                    assert(r[i] == ru[i]);
                    if i + 1 < ru.len() {
                        assert(r[i + 1] == ru[i + 1]);
                    }
                }
            }
            if !s.contains(' ') {
                assert forall|i: int| #![trigger r[i]] 0 <= i < r.len() && r[i] == ' ' implies i
                    > 0 && r[i - 1] == ',' by {
                    if i < ru.len() {
                        assert(r[i] == ru[i] && r[i - 1] == ru[i - 1]);
                    }
                }
            }
        } else {
            assert(r == ru.push(c));
            assert forall|i: int| #![trigger r[i]] 0 <= i < r.len() && r[i] == ',' implies i + 1
                < r.len() && r[i + 1] == ' ' by {
                if i < ru.len() {
                    assert(r[i] == ru[i]);
                    if i + 1 < ru.len() {
                        assert(r[i + 1] == ru[i + 1]);
                    }
                }
            }
            if !s.contains(' ') {
                assert forall|i: int| #![trigger r[i]] 0 <= i < r.len() && r[i] == ' ' implies i
                    > 0 && r[i - 1] == ',' by {
                    if i < ru.len() {
                        assert(r[i] == ru[i]);
                        if i > 0 {
                            assert(r[i - 1] == ru[i - 1]);
                        }
                    }
                }
            }
        }
    }
}

/// **Chaque virgule du libellé prend son espace** : dans le libellé d'une
/// sélection, toute virgule est suivie d'une espace, toute espace suit une
/// virgule, et les espaces ôtées, il reste le paramètre de l'adresse — le
/// libellé est le paramètre où chaque « , » devient « , ».
pub proof fn loi_chaque_virgule_du_libelle_prend_son_espace(numeros: Seq<u32>)
    ensures
        forall|i: int|
            #![trigger aere(ecrit(numeros))[i]]
            0 <= i < aere(ecrit(numeros)).len() && aere(ecrit(numeros))[i] == ',' ==> i + 1 < aere(
                ecrit(numeros),
            ).len() && aere(ecrit(numeros))[i + 1] == ' ',
        forall|i: int|
            #![trigger aere(ecrit(numeros))[i]]
            0 <= i < aere(ecrit(numeros)).len() && aere(ecrit(numeros))[i] == ' ' ==> i > 0 && aere(
                ecrit(numeros),
            )[i - 1] == ',',
        sans_espaces(aere(ecrit(numeros))) == ecrit(numeros),
{
    loi_le_libelle_est_l_adresse_aeree(numeros);
    lemme_aere_virgules(ecrit(numeros));
}
} // verus!
