//! Le choix du verset du jour.
//!
//! Le choix est une **fonction de la date**, et non un tirage : l'app, son
//! widget et le site tombent sur le même verset le même jour sans se parler.
//!
//! On avance d'un **pas fixe premier avec la taille du vivier** : un tel pas
//! engendre le groupe entier, donc il visite tous les versets un par un avant
//! d'en revoir un seul. Le pas part d'environ 0,618 × la taille — le nombre
//! d'or, qui écarte au maximum deux positions consécutives — et avance jusqu'au
//! premier entier premier avec elle. Ce point de départ, calculé en flottant,
//! est donné par l'appelant : `depart`.

use vstd::prelude::*;

use vstd::arithmetic::div_mod::{
    lemma_fundamental_div_mod, lemma_fundamental_div_mod_converse, lemma_mod_add_multiples_vanish,
};
use vstd::relations::injective_on;
use vstd::set_lib::{lemma_int_range, lemma_map_size, lemma_subset_equality, set_int_range};

verus! {

/// Le plus grand commun diviseur, par l'algorithme d'Euclide.
pub open spec fn pgcd_spec(a: nat, b: nat) -> nat
    decreases b,
{
    if b == 0 {
        a
    } else {
        pgcd_spec(b, a % b)
    }
}

/// Le premier entier, à partir de `p`, premier avec `t` — ou `t - 1`, qui
/// l'est toujours.
pub open spec fn copremier_depuis(t: nat, p: nat) -> nat
    decreases t - p,
{
    if p + 1 >= t || pgcd_spec(p, t) == 1 {
        p
    } else {
        copremier_depuis(t, p + 1)
    }
}

/// Le pas d'avancement dans un vivier de `t` versets, à partir du départ `d`.
pub open spec fn pas_spec(t: nat, d: nat) -> nat {
    if t <= 2 {
        1
    } else {
        copremier_depuis(t, if d > 1 { d } else { 1 })
    }
}

/// L'indice du verset du jour `jour` dans un vivier de `t` versets.
pub open spec fn indice_spec(jour: int, t: nat, d: nat) -> nat {
    if t <= 1 {
        0
    } else {
        (((jour % (t as int)) * pas_spec(t, d)) % (t as int)) as nat
    }
}

/// Deux entiers consécutifs sont premiers entre eux.
proof fn lemme_voisin_copremier(t: nat)
    requires
        t >= 2,
    ensures
        pgcd_spec((t - 1) as nat, t) == 1,
{
    let u = (t - 1) as nat;
    assert(u % t == u) by {
        lemma_fundamental_div_mod_converse(u as int, t as int, 0, u as int);
    }
    assert(pgcd_spec(u, t) == pgcd_spec(t, u));
    if t == 2 {
        assert(t % u == 0);
        assert(pgcd_spec(t, u) == pgcd_spec(u, 0));
    } else {
        assert(t % u == 1) by {
            lemma_fundamental_div_mod_converse(t as int, u as int, 1, 1);
        }
        assert(pgcd_spec(t, u) == pgcd_spec(u, 1));
        assert(u % 1 == 0);
        assert(pgcd_spec(u, 1) == pgcd_spec(1, 0));
    }
}

/// Ce que `copremier_depuis` rend : le premier entier premier avec `t`.
proof fn lemme_copremier(t: nat, p: nat)
    requires
        t >= 2,
        1 <= p < t,
    ensures
        p <= copremier_depuis(t, p) < t,
        pgcd_spec(copremier_depuis(t, p), t) == 1,
        forall|q: nat| p <= q < copremier_depuis(t, p) ==> pgcd_spec(q, t) != 1,
    decreases t - p,
{
    if p + 1 >= t {
        lemme_voisin_copremier(t);
    } else if pgcd_spec(p, t) != 1 {
        lemme_copremier(t, p + 1);
    }
}

/// Le pas est premier avec la taille, et plus petit qu'elle.
pub proof fn lemme_pas(t: nat, d: nat)
    requires
        t <= 2 || d < t,
    ensures
        1 <= pas_spec(t, d),
        t >= 2 ==> pas_spec(t, d) < t && pgcd_spec(pas_spec(t, d), t) == 1,
        t > 2 ==> (if d > 1 { d } else { 1 }) <= pas_spec(t, d),
        t > 2 ==> forall|q: nat|
            (if d > 1 { d } else { 1 }) <= q < pas_spec(t, d) ==> pgcd_spec(q, t) != 1,
{
    if t > 2 {
        lemme_copremier(t, if d > 1 { d } else { 1 });
    } else if t == 2 {
        lemme_voisin_copremier(2);
    }
}

/// Le plus grand commun diviseur.
pub fn pgcd(a: usize, b: usize) -> (r: usize)
    ensures
        r == pgcd_spec(a as nat, b as nat),
{
    let mut x = a;
    let mut y = b;
    while y != 0
        invariant
            pgcd_spec(x as nat, y as nat) == pgcd_spec(a as nat, b as nat),
        decreases y,
    {
        let reste = x % y;
        x = y;
        y = reste;
    }
    x
}

/// Le pas d'avancement — premier avec `taille`, donc générateur du cycle. On
/// part de `depart`, et l'on avance jusqu'au premier entier premier avec la
/// taille ; sur un vivier de deux versets au plus, le pas vaut 1.
pub fn pas(taille: usize, depart: usize) -> (r: usize)
    requires
        taille <= 2 || depart < taille,
    ensures
        r == pas_spec(taille as nat, depart as nat),
        r >= 1,
        taille >= 2 ==> r < taille && pgcd_spec(r as nat, taille as nat) == 1,
        taille > 2 ==> (if depart > 1 { depart } else { 1 }) <= r,
        taille > 2 ==> forall|q: nat|
            (if depart > 1 { depart as nat } else { 1 }) <= q < r ==> pgcd_spec(q, taille as nat) != 1,
{
    proof {
        lemme_pas(taille as nat, depart as nat);
    }
    if taille <= 2 {
        return 1;
    }
    let debut: usize = if depart > 1 { depart } else { 1 };
    let mut p: usize = debut;
    proof {
        lemme_voisin_copremier(taille as nat);
    }
    while pgcd(p, taille) != 1
        invariant
            2 < taille,
            debut <= p < taille,
            copremier_depuis(taille as nat, p as nat) == copremier_depuis(
                taille as nat,
                debut as nat,
            ),
            pgcd_spec((taille - 1) as nat, taille as nat) == 1,
        decreases taille - p,
    {
        p = p + 1;
    }
    p
}

/// La position d'un jour dans le cycle : le reste euclidien, qui reste
/// positif pour une date d'avant 1970.
fn position(jour: i64, taille: usize) -> (r: u128)
    requires
        taille >= 1,
    ensures
        r as int == (jour as int) % (taille as int),
        r < taille,
{
    let t = taille as u128;
    if jour >= 0 {
        let r = (jour as u128) % t;
        r
    } else {
        let n = (-(jour as i128)) as u128;
        let m = n % t;
        proof {
            lemma_fundamental_div_mod(n as int, t as int);
        }
        if m == 0 {
            proof {
                let q = (n as int) / (t as int);
                assert(jour as int == (-q) * (t as int) + 0) by (nonlinear_arith)
                    requires
                        n as int == (t as int) * q + 0,
                        jour as int == -(n as int),
                ;
                lemma_fundamental_div_mod_converse(jour as int, t as int, -q, 0);
            }
            0
        } else {
            proof {
                let q = (n as int) / (t as int);
                assert(jour as int == (-q - 1) * (t as int) + (t - m)) by (nonlinear_arith)
                    requires
                        n as int == (t as int) * q + m,
                        jour as int == -(n as int),
                ;
                lemma_fundamental_div_mod_converse(jour as int, t as int, -q - 1, (t - m) as int);
            }
            t - m
        }
    }
}

/// L'indice du verset du jour dans un vivier de `taille` versets.
/// `numero_de_jour` compte les jours depuis le 1ᵉʳ janvier 1970 dans le fuseau
/// du lecteur ; `depart` est le point de départ du pas. Rend `0` sur un vivier
/// vide ou singleton.
pub fn indice(numero_de_jour: i64, taille: usize, depart: usize) -> (r: usize)
    requires
        taille <= 2 || depart < taille,
    ensures
        r == indice_spec(numero_de_jour as int, taille as nat, depart as nat),
        taille >= 1 ==> r < taille,
{
    if taille <= 1 {
        return 0;
    }
    let pos = position(numero_de_jour, taille);
    let p = pas(taille, depart) as u128;
    let t = taille as u128;
    assert(pos * p < t * t) by (nonlinear_arith)
        requires
            pos < t,
            p < t,
    ;
    assert(t * t <= 0xffff_ffff_ffff_ffff_ffff_ffff_ffff_ffffu128) by (nonlinear_arith)
        requires
            t <= 0xffff_ffff_ffff_ffffu128,
    ;
    ((pos * p) % t) as usize
}

/// Bézout : le plus grand commun diviseur est une combinaison des deux.
proof fn lemme_bezout(a: nat, b: nat) -> (r: (int, int))
    ensures
        r.0 * a + r.1 * b == pgcd_spec(a, b),
    decreases b,
{
    if b == 0 {
        (1, 0)
    } else {
        let (x, y) = lemme_bezout(b, a % b);
        let q = (a / b) as int;
        let m = (a % b) as int;
        lemma_fundamental_div_mod(a as int, b as int);
        let g = pgcd_spec(a, b) as int;
        assert(y * a + (x - y * q) * b == g) by (nonlinear_arith)
            requires
                x * b + y * m == g,
                a == b * q + m,
        ;
        (y, x - y * q)
    }
}

/// Premier avec `t`, `p` ne peut annuler un multiple de `t` qu'en étant
/// multiplié par un multiple de `t`.
proof fn lemme_gauss(t: nat, p: nat, d: int)
    requires
        t > 0,
        pgcd_spec(p, t) == 1,
        (d * p) % (t as int) == 0,
    ensures
        d % (t as int) == 0,
{
    let (x, y) = lemme_bezout(p, t);
    lemma_fundamental_div_mod(d * p, t as int);
    let k = (d * p) / (t as int);
    assert(d == (x * k + d * y) * (t as int) + 0) by (nonlinear_arith)
        requires
            x * p + y * t == 1,
            d * p == (t as int) * k + 0,
    ;
    lemma_fundamental_div_mod_converse(d, t as int, x * k + d * y, 0);
}

/// Deux restes égaux : la différence est un multiple.
proof fn lemme_memes_restes(a: int, b: int, t: int)
    requires
        t > 0,
        a % t == b % t,
    ensures
        (a - b) % t == 0,
{
    lemma_fundamental_div_mod(a, t);
    lemma_fundamental_div_mod(b, t);
    let qa = a / t;
    let qb = b / t;
    assert(a - b == (qa - qb) * t + 0) by (nonlinear_arith)
        requires
            a == t * qa + a % t,
            b == t * qb + b % t,
            a % t == b % t,
    ;
    lemma_fundamental_div_mod_converse(a - b, t, qa - qb, 0);
}

/// **Aucun verset ne revient avant que tous soient passés** : sur autant de
/// jours consécutifs que le vivier compte de versets, les indices sont deux à
/// deux distincts.
pub proof fn loi_aucun_verset_ne_revient(t: nat, d: nat, j1: int, j2: int)
    requires
        t >= 2,
        t <= 2 || d < t,
        j1 < j2 < j1 + t,
    ensures
        indice_spec(j1, t, d) != indice_spec(j2, t, d),
{
    let ti = t as int;
    let p = pas_spec(t, d);
    lemme_pas(t, d);
    let a = j1 % ti;
    let b = j2 % ti;
    if a == b {
        lemme_memes_restes(j2, j1, ti);
        lemma_fundamental_div_mod_converse(j2 - j1, ti, 0, j2 - j1);
        assert(false);
    }
    if indice_spec(j1, t, d) == indice_spec(j2, t, d) {
        assert((a * p) % ti == (b * p) % ti);
        lemme_memes_restes(a * p, b * p, ti);
        assert(a * p - b * p == (a - b) * p) by (nonlinear_arith);
        lemme_gauss(t, p, a - b);
        if a > b {
            lemma_fundamental_div_mod_converse(a - b, ti, 0, a - b);
        } else {
            lemma_fundamental_div_mod_converse(a - b, ti, -1, a - b + ti);
        }
        assert(false);
    }
}

/// **Le cycle a la taille du vivier** : autant de jours plus tard, le même
/// verset revient.
pub proof fn loi_le_cycle_a_la_taille_du_vivier(t: nat, d: nat, j: int)
    ensures
        indice_spec(j + t, t, d) == indice_spec(j, t, d),
{
    if t > 1 {
        lemma_mod_add_multiples_vanish(j, t as int);
        assert(j + t == t + j);
    }
}

/// **Tous les versets passent** : sur autant de jours consécutifs que le
/// vivier compte de versets, chacun est le verset d'un de ces jours.
pub proof fn loi_tous_les_versets_passent(t: nat, d: nat, j0: int, k: int)
    requires
        t >= 1,
        t <= 2 || d < t,
        0 <= k < t,
    ensures
        exists|j: int| j0 <= j < j0 + t && #[trigger] indice_spec(j, t, d) == k,
{
    if t == 1 {
        assert(indice_spec(j0, t, d) == 0);
    } else {
        let f = |j: int| indice_spec(j, t, d) as int;
        let x = set_int_range(j0, j0 + t);
        let y = x.map(f);
        let z = set_int_range(0, t as int);
        lemma_int_range(j0, j0 + t);
        lemma_int_range(0, t as int);
        assert(injective_on(f, x)) by {
            assert forall|a: int, b: int|
                x.contains(a) && x.contains(b) && #[trigger] f(a) == #[trigger] f(b) implies a == b by {
                if a < b {
                    loi_aucun_verset_ne_revient(t, d, a, b);
                } else if b < a {
                    loi_aucun_verset_ne_revient(t, d, b, a);
                }
            }
        }
        lemma_map_size(x, y, f);
        assert(y.subset_of(z)) by {
            assert forall|e: int| y.contains(e) implies z.contains(e) by {
                let a = choose|a: int| x.contains(a) && f(a) == e;
                lemme_pas(t, d);
            }
        }
        lemma_subset_equality(y, z);
        assert(z.contains(k));
        assert(y.contains(k));
        let a = choose|a: int| x.contains(a) && f(a) == k;
        assert(indice_spec(a, t, d) == k);
    }
}

} // verus!
