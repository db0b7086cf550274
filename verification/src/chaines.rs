//! Les outils de texte sur lesquels s'appuie tout le reste.
//!
//! Un texte est pensé comme une suite de caractères : `Seq<char>`. Les
//! fonctions exécutables travaillent sur `Vec<char>` ou sur `&str`, et leurs
//! contrats parlent de la suite.

use vstd::prelude::*;

verus! {

// ───────────────────────── ce que la bibliothèque standard sait ─────────────

/// La propriété Unicode `Alphabetic`, hors de l'ASCII.
pub uninterp spec fn lettre_etendue(c: char) -> bool;

/// La capitale d'un caractère selon Unicode, hors de l'ASCII — un ou
/// plusieurs caractères.
pub uninterp spec fn majuscule_etendue(c: char) -> Seq<char>;

/// La capitale d'un caractère : dans l'ASCII, `a` à `z` passent à `A` à `Z`
/// et le reste ne change pas ; au-delà, ce que dit Unicode.
pub open spec fn majuscule(c: char) -> Seq<char> {
    if (c as u32) < 128 {
        if 'a' <= c && c <= 'z' {
            seq![((c as u32) - 32) as char]
        } else {
            seq![c]
        }
    } else {
        majuscule_etendue(c)
    }
}

/// Vrai quand le caractère porte la propriété Unicode `White_Space` : la
/// tabulation, les sauts de ligne et de page, le retour chariot, l'espace,
/// et hors de l'ASCII U+0085, U+00A0, U+1680, U+2000 à U+200A, U+2028,
/// U+2029, U+202F, U+205F et U+3000.
pub open spec fn blanc(c: char) -> bool {
    ||| c == ' '
    ||| ('\t' <= c && c <= '\r')
    ||| c == '\u{85}'
    ||| c == '\u{a0}'
    ||| c == '\u{1680}'
    ||| ('\u{2000}' <= c && c <= '\u{200a}')
    ||| c == '\u{2028}'
    ||| c == '\u{2029}'
    ||| c == '\u{202f}'
    ||| c == '\u{205f}'
    ||| c == '\u{3000}'
}

/// Vrai quand le caractère porte la propriété Unicode `Alphabetic`. Dans
/// l'ASCII, ce sont les vingt-six lettres, en capitale ou non.
pub open spec fn lettre(c: char) -> bool {
    if (c as u32) < 128 {
        ('a' <= c && c <= 'z') || ('A' <= c && c <= 'Z')
    } else {
        lettre_etendue(c)
    }
}

/// Vrai quand le caractère porte la propriété `White_Space` — ce que
/// `char::is_whitespace` répond.
pub(crate) fn est_blanc(c: char) -> (r: bool)
    ensures
        r == blanc(c),
{
    c == ' ' || ('\t' <= c && c <= '\r') || c == '\u{85}' || c == '\u{a0}' || c == '\u{1680}' || (
    '\u{2000}' <= c && c <= '\u{200a}') || c == '\u{2028}' || c == '\u{2029}' || c == '\u{202f}'
        || c == '\u{205f}' || c == '\u{3000}'
}

/// `char::is_alphabetic`.
///
/// Affirme que le résultat est la propriété `Alphabetic` du caractère, dont la
/// part ASCII est écrite dans `lettre`.
#[verifier::external_body]
pub(crate) fn est_lettre(c: char) -> (r: bool)
    ensures
        r == lettre(c),
        (c as u32) >= 128 ==> r == lettre_etendue(c),
{
    c.is_alphabetic()
}

/// `char::to_uppercase`, recueilli en un vecteur.
///
/// Affirme que le résultat est la capitale Unicode du caractère — dans
/// l'ASCII, celle de `to_ascii_uppercase` —, et qu'elle compte au moins un
/// caractère, comme la documentation le promet.
#[verifier::external_body]
pub(crate) fn majuscules(c: char) -> (r: Vec<char>)
    ensures
        r@ == majuscule(c),
        (c as u32) >= 128 ==> r@ == majuscule_etendue(c),
        r@.len() >= 1,
{
    c.to_uppercase().collect()
}

/// `String::push`.
///
/// Affirme que le caractère est ajouté à la fin, et rien d'autre ne change.
#[verifier::external_body]
pub(crate) fn pousser(s: &mut String, c: char)
    ensures
        final(s)@ == old(s)@.push(c),
{
    s.push(c)
}

// ───────────────────────── passer d'une forme à l'autre ─────────────────────

/// Les caractères d'une chaîne, dans l'ordre.
pub fn caracteres(s: &str) -> (r: Vec<char>)
    ensures
        r@ == s@,
{
    let mut r: Vec<char> = Vec::new();
    for c in it: s.chars()
        invariant
            r@ == it.seq().take(it.index() as int),
            it.seq() == s@,
    {
        r.push(c);
    }
    r
}

/// Une chaîne faite de ces caractères.
pub fn chaine(v: &[char]) -> (r: String)
    ensures
        r@ == v@,
{
    let mut r = String::new();
    let mut i: usize = 0;
    while i < v.len()
        invariant
            i <= v@.len(),
            r@ == v@.take(i as int),
        decreases v@.len() - i,
    {
        pousser(&mut r, v[i]);
        assert(v@.take(i as int).push(v@[i as int]) =~= v@.take(i + 1));
        i = i + 1;
    }
    assert(v@.take(v@.len() as int) =~= v@);
    r
}

/// Ajoute une suite de caractères au bout d'un vecteur.
pub fn prolonger(v: &mut Vec<char>, w: &[char])
    ensures
        final(v)@ == old(v)@ + w@,
{
    let ghost debut = v@;
    let mut i: usize = 0;
    while i < w.len()
        invariant
            i <= w@.len(),
            v@ == debut + w@.take(i as int),
        decreases w@.len() - i,
    {
        v.push(w[i]);
        assert(debut + w@.take(i as int).push(w@[i as int]) =~= debut + w@.take(i + 1));
        i = i + 1;
    }
    assert(w@.take(w@.len() as int) =~= w@);
}

/// Deux suites de caractères égales.
pub fn memes(x: &[char], y: &[char]) -> (r: bool)
    ensures
        r == (x@ == y@),
{
    if x.len() != y.len() {
        return false;
    }
    let mut i: usize = 0;
    while i < x.len()
        invariant
            x@.len() == y@.len(),
            i <= x@.len(),
            forall|j: int| 0 <= j < i ==> x@[j] == y@[j],
        decreases x@.len() - i,
    {
        if x[i] != y[i] {
            return false;
        }
        i = i + 1;
    }
    assert(x@ =~= y@);
    true
}

/// Deux textes égaux caractère pour caractère.
pub fn meme_texte(a: &str, b: &str) -> (r: bool)
    ensures
        r == (a@ == b@),
{
    let x = caracteres(a);
    let y = caracteres(b);
    memes(x.as_slice(), y.as_slice())
}

// ───────────────────────── les nombres écrits ───────────────────────────────

/// Le caractère d'un chiffre décimal.
pub open spec fn chiffre(d: nat) -> char {
    ((48 + d) as u32) as char
}

/// Vrai pour `0` à `9`.
pub open spec fn est_chiffre(c: char) -> bool {
    '0' <= c && c <= '9'
}

/// L'écriture décimale d'un entier, sans zéro de tête.
pub open spec fn decimal(n: nat) -> Seq<char>
    decreases n,
{
    if n < 10 {
        seq![chiffre(n)]
    } else {
        decimal(n / 10).push(chiffre(n % 10))
    }
}

/// La valeur d'une suite de chiffres.
pub open spec fn valeur(s: Seq<char>) -> nat
    decreases s.len(),
{
    if s.len() == 0 {
        0
    } else {
        valeur(s.drop_last()) * 10 + ((s.last() as u32) - 48) as nat
    }
}

/// Vrai quand la suite n'est faite que de chiffres.
pub open spec fn tout_chiffres(s: Seq<char>) -> bool {
    forall|i: int| 0 <= i < s.len() ==> est_chiffre(#[trigger] s[i])
}

/// La suite privée de son `+` de tête, s'il y en a un.
pub open spec fn sans_plus(s: Seq<char>) -> Seq<char> {
    if s.len() > 0 && s[0] == '+' {
        s.drop_first()
    } else {
        s
    }
}

/// Ce que rend la lecture d'un `u32` : un `+` facultatif, au moins un chiffre,
/// et une valeur qui tient.
pub open spec fn lecture_u32(s: Seq<char>) -> Option<u32> {
    let d = sans_plus(s);
    if d.len() > 0 && tout_chiffres(d) && valeur(d) <= u32::MAX {
        Some(valeur(d) as u32)
    } else {
        None
    }
}

proof fn lemme_chiffre(d: nat)
    requires
        d < 10,
    ensures
        est_chiffre(chiffre(d)),
        ((chiffre(d) as u32) - 48) as nat == d,
{
}

/// L'écriture décimale ne porte que des chiffres, et se relit à l'identique.
pub proof fn lemme_decimal(n: nat)
    ensures
        decimal(n).len() > 0,
        tout_chiffres(decimal(n)),
        valeur(decimal(n)) == n,
        decimal(n)[0] != '+',
    decreases n,
{
    if n < 10 {
        lemme_chiffre(n);
        assert(decimal(n).drop_last() =~= Seq::<char>::empty());
        assert(valeur(Seq::<char>::empty()) == 0);
    } else {
        lemme_decimal(n / 10);
        lemme_chiffre(n % 10);
        let d = decimal(n);
        assert(d.drop_last() =~= decimal(n / 10));
        assert(n == (n / 10) * 10 + n % 10);
        assert(valeur(d) == valeur(decimal(n / 10)) * 10 + n % 10);
        assert forall|i: int| 0 <= i < d.len() implies est_chiffre(#[trigger] d[i]) by {
            if i < d.len() - 1 {
                assert(d[i] == decimal(n / 10)[i]);
            }
        }
    }
}

/// Ce que `decimal` écrit, `lecture_u32` le relit.
pub proof fn lemme_decimal_se_relit(n: u32)
    ensures
        lecture_u32(decimal(n as nat)) == Some(n),
{
    lemme_decimal(n as nat);
}

fn chiffre_de(d: u64) -> (c: char)
    requires
        d < 10,
    ensures
        c == chiffre(d as nat),
{
    match d {
        0 => '0',
        1 => '1',
        2 => '2',
        3 => '3',
        4 => '4',
        5 => '5',
        6 => '6',
        7 => '7',
        8 => '8',
        _ => '9',
    }
}

/// Écrit un entier en décimal au bout du vecteur.
pub fn ecrire_decimal(n: u64, sortie: &mut Vec<char>)
    ensures
        final(sortie)@ == old(sortie)@ + decimal(n as nat),
    decreases n,
{
    if n < 10 {
        sortie.push(chiffre_de(n));
        assert(old(sortie)@.push(chiffre(n as nat)) =~= old(sortie)@ + decimal(n as nat));
    } else {
        ecrire_decimal(n / 10, sortie);
        sortie.push(chiffre_de(n % 10));
        assert(old(sortie)@ + decimal((n / 10) as nat).push(chiffre((n % 10) as nat))
            =~= old(sortie)@ + decimal(n as nat));
    }
}

/// L'écriture décimale d'un entier, en chaîne.
pub fn decimal_de(n: u32) -> (r: String)
    ensures
        r@ == decimal(n as nat),
{
    let mut v: Vec<char> = Vec::new();
    ecrire_decimal(n as u64, &mut v);
    assert(v@ =~= decimal(n as nat));
    chaine(v.as_slice())
}

/// L'écriture décimale d'un entier signé : un `-` devant les négatifs.
pub open spec fn entier_ecrit(n: int) -> Seq<char> {
    if n < 0 {
        seq!['-'] + decimal((-n) as nat)
    } else {
        decimal(n as nat)
    }
}

/// Écrit un entier signé en décimal au bout du vecteur.
pub fn ecrire_entier(n: i64, sortie: &mut Vec<char>)
    ensures
        final(sortie)@ == old(sortie)@ + entier_ecrit(n as int),
{
    if n < 0 {
        sortie.push('-');
        let m = (-(n as i128)) as u64;
        ecrire_decimal(m, sortie);
        assert(old(sortie)@.push('-') + decimal(m as nat) =~= old(sortie)@ + entier_ecrit(n as int));
    } else {
        ecrire_decimal(n as u64, sortie);
    }
}

fn chiffre_lu(c: char) -> (d: u32)
    requires
        est_chiffre(c),
    ensures
        d == ((c as u32) - 48),
        d < 10,
{
    (c as u32) - 48
}

proof fn lemme_valeur_prefixe(s: Seq<char>, i: int)
    requires
        0 <= i < s.len(),
    ensures
        valeur(s.take(i + 1)) == valeur(s.take(i)) * 10 + ((s[i] as u32) - 48) as nat,
{
    assert(s.take(i + 1).drop_last() =~= s.take(i));
}

proof fn lemme_valeur_croit(s: Seq<char>, i: int, j: int)
    requires
        0 <= i <= j <= s.len(),
        tout_chiffres(s),
    ensures
        valeur(s.take(i)) <= valeur(s.take(j)),
    decreases j - i,
{
    if i < j {
        lemme_valeur_croit(s, i, j - 1);
        lemme_valeur_prefixe(s, j - 1);
    }
}

/// Lit un `u32` comme le fait la bibliothèque standard.
pub fn lire_u32(s: &[char]) -> (r: Option<u32>)
    ensures
        r == lecture_u32(s@),
{
    let debut: usize = if s.len() > 0 && s[0] == '+' { 1 } else { 0 };
    let ghost d = sans_plus(s@);
    assert(d =~= s@.skip(debut as int));
    if debut >= s.len() {
        return None;
    }
    let mut acc: u64 = 0;
    let mut i: usize = debut;
    while i < s.len()
        invariant
            debut <= i <= s@.len(),
            d == sans_plus(s@),
            d =~= s@.skip(debut as int),
            forall|j: int| 0 <= j < i - debut ==> est_chiffre(#[trigger] d[j]),
            acc == valeur(d.take(i - debut)),
            acc <= u32::MAX,
        decreases s@.len() - i,
    {
        let c = s[i];
        if !('0' <= c && c <= '9') {
            assert(!tout_chiffres(d)) by {
                assert(d[i - debut] == c);
                assert(!est_chiffre(d[i - debut]));
            }
            assert(lecture_u32(s@) is None);
            return None;
        }
        proof {
            lemme_valeur_prefixe(d, (i - debut) as int);
        }
        acc = acc * 10 + chiffre_lu(c) as u64;
        if acc > u32::MAX as u64 {
            proof {
                if tout_chiffres(d) {
                    lemme_valeur_croit(d, (i + 1 - debut) as int, d.len() as int);
                    assert(d.take(d.len() as int) =~= d);
                }
            }
            assert(lecture_u32(s@) is None);
            return None;
        }
        i = i + 1;
    }
    assert(d.take(d.len() as int) =~= d);
    Some(acc as u32)
}

} // verus!

verus! {

// ───────────────────────── rogner, commencer, chercher ──────────────────────

/// Sans les blancs de tête.
pub open spec fn rogne_debut(s: Seq<char>) -> Seq<char>
    decreases s.len(),
{
    if s.len() > 0 && blanc(s[0]) {
        rogne_debut(s.drop_first())
    } else {
        s
    }
}

/// Sans les blancs de queue.
pub open spec fn rogne_fin(s: Seq<char>) -> Seq<char>
    decreases s.len(),
{
    if s.len() > 0 && blanc(s.last()) {
        rogne_fin(s.drop_last())
    } else {
        s
    }
}

/// Sans les blancs des deux bouts — ce que fait `str::trim`.
pub open spec fn rogne(s: Seq<char>) -> Seq<char> {
    rogne_fin(rogne_debut(s))
}

/// Sans ses blancs de tête, un texte non vide commence par autre chose.
proof fn lemme_rogne_debut_tete(s: Seq<char>)
    ensures
        rogne_debut(s).len() > 0 ==> !blanc(rogne_debut(s)[0]),
    decreases s.len(),
{
    if s.len() > 0 && blanc(s[0]) {
        lemme_rogne_debut_tete(s.drop_first());
    }
}

/// Sans ses blancs de queue, un texte en garde le début et finit par autre
/// chose.
proof fn lemme_rogne_fin_prefixe(s: Seq<char>)
    ensures
        rogne_fin(s).len() <= s.len(),
        forall|k: int| 0 <= k < rogne_fin(s).len() ==> rogne_fin(s)[k] == s[k],
        rogne_fin(s).len() > 0 ==> !blanc(rogne_fin(s).last()),
    decreases s.len(),
{
    if s.len() > 0 && blanc(s.last()) {
        let t = s.drop_last();
        lemme_rogne_fin_prefixe(t);
        assert forall|k: int| 0 <= k < rogne_fin(s).len() implies rogne_fin(s)[k] == s[k] by {
            assert(rogne_fin(t)[k] == t[k]);
        }
    }
}

/// Un texte rogné ne commence ni ne finit par un blanc.
pub proof fn lemme_rogne_bouts(s: Seq<char>)
    ensures
        rogne(s).len() > 0 ==> !blanc(rogne(s)[0]) && !blanc(rogne(s).last()),
{
    lemme_rogne_debut_tete(s);
    lemme_rogne_fin_prefixe(rogne_debut(s));
}

/// Sans les occurrences finales d'un caractère — ce que fait
/// `str::trim_end_matches` avec un caractère.
pub open spec fn sans_fin_de(s: Seq<char>, c: char) -> Seq<char>
    decreases s.len(),
{
    if s.len() > 0 && s.last() == c {
        sans_fin_de(s.drop_last(), c)
    } else {
        s
    }
}

proof fn lemme_rogne_debut(s: Seq<char>, i: int)
    requires
        0 <= i <= s.len(),
        forall|k: int| 0 <= k < i ==> blanc(#[trigger] s[k]),
        i == s.len() || !blanc(s[i]),
    ensures
        rogne_debut(s) == s.skip(i),
    decreases i,
{
    if i == 0 {
        assert(s.skip(0) =~= s);
    } else {
        let t = s.drop_first();
        assert forall|k: int| 0 <= k < i - 1 implies blanc(#[trigger] t[k]) by {
            assert(t[k] == s[k + 1]);
        }
        if i - 1 < t.len() {
            assert(t[i - 1] == s[i]);
        }
        lemme_rogne_debut(t, i - 1);
        assert(t.skip(i - 1) =~= s.skip(i));
    }
}

proof fn lemme_rogne_fin(s: Seq<char>, j: int)
    requires
        0 <= j <= s.len(),
        forall|k: int| j <= k < s.len() ==> blanc(#[trigger] s[k]),
        j == 0 || !blanc(s[j - 1]),
    ensures
        rogne_fin(s) == s.take(j),
    decreases s.len() - j,
{
    if j == s.len() {
        assert(s.take(j) =~= s);
    } else {
        let t = s.drop_last();
        assert forall|k: int| j <= k < t.len() implies blanc(#[trigger] t[k]) by {
            assert(t[k] == s[k]);
        }
        if j > 0 {
            assert(t[j - 1] == s[j - 1]);
        }
        lemme_rogne_fin(t, j);
        assert(t.take(j) =~= s.take(j));
    }
}

/// Rogne les blancs des deux bouts.
pub fn rogner(s: &[char]) -> (r: Vec<char>)
    ensures
        r@ == rogne(s@),
{
    let mut i: usize = 0;
    while i < s.len() && est_blanc(s[i])
        invariant
            i <= s@.len(),
            forall|k: int| 0 <= k < i ==> blanc(#[trigger] s@[k]),
        decreases s@.len() - i,
    {
        i = i + 1;
    }
    proof {
        lemme_rogne_debut(s@, i as int);
    }
    let ghost t = s@.skip(i as int);
    let mut j: usize = s.len();
    while j > i && est_blanc(s[j - 1])
        invariant
            i <= j <= s@.len(),
            t == s@.skip(i as int),
            forall|k: int| j - i <= k < t.len() ==> blanc(#[trigger] t[k]),
        decreases j,
    {
        assert(t[j - 1 - i] == s@[j - 1]);
        j = j - 1;
    }
    proof {
        if j > i {
            assert(t[j - i - 1] == s@[j - 1]);
        }
        lemme_rogne_fin(t, (j - i) as int);
    }
    let mut r: Vec<char> = Vec::new();
    let mut k: usize = i;
    while k < j
        invariant
            i <= k <= j <= s@.len(),
            r@ == s@.subrange(i as int, k as int),
        decreases j - k,
    {
        r.push(s[k]);
        assert(s@.subrange(i as int, k as int).push(s@[k as int]) =~= s@.subrange(i as int, k + 1));
        k = k + 1;
    }
    assert(r@ =~= t.take(j - i));
    r
}

proof fn lemme_sans_fin_de(s: Seq<char>, c: char, j: int)
    requires
        0 <= j <= s.len(),
        forall|k: int| j <= k < s.len() ==> #[trigger] s[k] == c,
        j == 0 || s[j - 1] != c,
    ensures
        sans_fin_de(s, c) == s.take(j),
    decreases s.len() - j,
{
    if j == s.len() {
        assert(s.take(j) =~= s);
    } else {
        let t = s.drop_last();
        assert forall|k: int| j <= k < t.len() implies #[trigger] t[k] == c by {
            assert(t[k] == s[k]);
        }
        if j > 0 {
            assert(t[j - 1] == s[j - 1]);
        }
        lemme_sans_fin_de(t, c, j);
        assert(t.take(j) =~= s.take(j));
    }
}

/// Retire les occurrences finales d'un caractère.
pub fn retirer_fin_de(s: &[char], c: char) -> (r: Vec<char>)
    ensures
        r@ == sans_fin_de(s@, c),
{
    let mut j: usize = s.len();
    while j > 0 && s[j - 1] == c
        invariant
            j <= s@.len(),
            forall|k: int| j <= k < s@.len() ==> #[trigger] s@[k] == c,
        decreases j,
    {
        j = j - 1;
    }
    proof {
        lemme_sans_fin_de(s@, c, j as int);
    }
    let mut r: Vec<char> = Vec::new();
    let mut k: usize = 0;
    while k < j
        invariant
            k <= j <= s@.len(),
            r@ == s@.take(k as int),
        decreases j - k,
    {
        r.push(s[k]);
        assert(s@.take(k as int).push(s@[k as int]) =~= s@.take(k + 1));
        k = k + 1;
    }
    r
}

/// Vrai quand `s` commence par `p`.
pub open spec fn commence_par(s: Seq<char>, p: Seq<char>) -> bool {
    p.len() <= s.len() && s.subrange(0, p.len() as int) == p
}

/// Vrai quand `a` paraît dans `s` à partir du rang `i`.
pub open spec fn apparait_a(s: Seq<char>, a: Seq<char>, i: int) -> bool {
    0 <= i && i + a.len() <= s.len() && s.subrange(i, i + a.len()) == a
}

/// Le premier rang, à partir de `i`, où `a` paraît dans `s`.
pub open spec fn premiere_depuis(s: Seq<char>, a: Seq<char>, i: int) -> Option<int>
    decreases s.len() + 1 - i,
{
    if i < 0 || i > s.len() || i + a.len() > s.len() {
        None
    } else if apparait_a(s, a, i) {
        Some(i)
    } else {
        premiere_depuis(s, a, i + 1)
    }
}

/// Le premier rang où `a` paraît dans `s` — ce que fait `str::find`, compté en
/// caractères.
pub open spec fn premiere(s: Seq<char>, a: Seq<char>) -> Option<int> {
    premiere_depuis(s, a, 0)
}

/// Vrai quand `a` paraît quelque part dans `s`.
pub open spec fn contient(s: Seq<char>, a: Seq<char>) -> bool {
    premiere(s, a) is Some
}

/// Ce que `premiere_depuis` rend : le plus petit rang qui convient.
pub proof fn lemme_premiere_depuis(s: Seq<char>, a: Seq<char>, i: int)
    requires
        0 <= i,
    ensures
        premiere_depuis(s, a, i) matches Some(k) ==> i <= k && apparait_a(s, a, k) && forall|
            j: int,
        | i <= j < k ==> !apparait_a(s, a, j),
        premiere_depuis(s, a, i) is None ==> forall|j: int| i <= j ==> !apparait_a(s, a, j),
    decreases s.len() + 1 - i,
{
    if i > s.len() || i + a.len() > s.len() {
    } else if apparait_a(s, a, i) {
    } else {
        lemme_premiere_depuis(s, a, i + 1);
    }
}

/// Ce que `premiere` rend, dit sans récurrence.
pub proof fn lemme_premiere(s: Seq<char>, a: Seq<char>)
    ensures
        premiere(s, a) matches Some(k) ==> apparait_a(s, a, k) && forall|j: int|
            0 <= j < k ==> !apparait_a(s, a, j),
        premiere(s, a) is None ==> forall|j: int| !apparait_a(s, a, j),
{
    lemme_premiere_depuis(s, a, 0);
}

/// Vrai quand `a` paraît dans `s` au rang `i`.
fn parait_a(s: &[char], a: &[char], i: usize) -> (r: bool)
    requires
        i + a@.len() <= s@.len(),
    ensures
        r == apparait_a(s@, a@, i as int),
{
    let n = s.len();
    let mut k: usize = 0;
    while k < a.len()
        invariant
            n == s@.len(),
            i + a@.len() <= s@.len(),
            k <= a@.len(),
            forall|m: int| 0 <= m < k ==> s@[i + m] == a@[m],
        decreases a@.len() - k,
    {
        if s[i + k] != a[k] {
            assert(s@.subrange(i as int, i + a@.len())[k as int] != a@[k as int]);
            return false;
        }
        k = k + 1;
    }
    assert(s@.subrange(i as int, i + a@.len()) =~= a@);
    true
}

/// Le premier rang où `a` paraît dans `s`.
pub fn trouver(s: &[char], a: &[char]) -> (r: Option<usize>)
    ensures
        match r {
            Some(k) => premiere(s@, a@) == Some(k as int),
            None => premiere(s@, a@) is None,
        },
{
    if a.len() > s.len() {
        return None;
    }
    let fin = s.len() - a.len();
    let mut i: usize = 0;
    while i <= fin
        invariant
            fin == s@.len() - a@.len(),
            i <= fin + 1,
            premiere(s@, a@) == premiere_depuis(s@, a@, i as int),
        decreases fin + 1 - i,
    {
        if parait_a(s, a, i) {
            return Some(i);
        }
        if i == fin {
            return None;
        }
        i = i + 1;
    }
    None
}

/// Vrai quand `s` commence par `p`.
pub fn commence(s: &[char], p: &[char]) -> (r: bool)
    ensures
        r == commence_par(s@, p@),
{
    if p.len() > s.len() {
        return false;
    }
    let r = parait_a(s, p, 0);
    proof {
        if r {
            assert(s@.subrange(0, p@.len() as int) =~= p@);
        }
    }
    r
}

} // verus!

verus! {

// ───────────────────────── découper, joindre ────────────────────────────────

/// Les morceaux d'un texte entre les occurrences d'un séparateur — ce que fait
/// `str::split` avec un caractère. Un texte vide donne un seul morceau vide.
pub open spec fn morceaux(s: Seq<char>, sep: char) -> Seq<Seq<char>>
    decreases s.len(),
{
    if s.len() == 0 {
        seq![Seq::<char>::empty()]
    } else {
        let avant = morceaux(s.drop_last(), sep);
        if s.last() == sep {
            avant.push(Seq::<char>::empty())
        } else {
            avant.update(avant.len() - 1, avant.last().push(s.last()))
        }
    }
}

/// Les morceaux ne sont jamais en nombre nul.
pub proof fn lemme_morceaux_non_vide(s: Seq<char>, sep: char)
    ensures
        morceaux(s, sep).len() >= 1,
    decreases s.len(),
{
    if s.len() > 0 {
        lemme_morceaux_non_vide(s.drop_last(), sep);
    }
}

/// Les parties jointes par un séparateur.
pub open spec fn joindre(parties: Seq<Seq<char>>, sep: Seq<char>) -> Seq<char>
    decreases parties.len(),
{
    if parties.len() == 0 {
        Seq::empty()
    } else if parties.len() == 1 {
        parties[0]
    } else {
        joindre(parties.drop_last(), sep) + sep + parties.last()
    }
}

/// Vrai quand aucune partie ne porte le caractère.
pub open spec fn sans_caractere(parties: Seq<Seq<char>>, c: char) -> bool {
    forall|i: int| 0 <= i < parties.len() ==> !(#[trigger] parties[i]).contains(c)
}

/// Un texte sans séparateur est un seul morceau.
pub proof fn lemme_morceaux_sans_separateur(s: Seq<char>, sep: char)
    requires
        !s.contains(sep),
    ensures
        morceaux(s, sep) == seq![s],
    decreases s.len(),
{
    if s.len() == 0 {
        assert(s =~= Seq::<char>::empty());
    } else {
        let t = s.drop_last();
        assert(!t.contains(sep)) by {
            if t.contains(sep) {
                let k = choose|k: int| 0 <= k < t.len() && t[k] == sep;
                assert(s[k] == sep);
            }
        }
        lemme_morceaux_sans_separateur(t, sep);
        assert(s.last() != sep) by {
            assert(s[s.len() - 1] == s.last());
        }
        assert(t.push(s.last()) =~= s);
        assert(seq![t].update(0, t.push(s.last())) =~= seq![s]);
    }
}

/// Découper après un séparateur, c'est découper chacun des deux côtés.
pub proof fn lemme_morceaux_concat(x: Seq<char>, sep: char, y: Seq<char>)
    ensures
        morceaux(x + seq![sep] + y, sep) == morceaux(x, sep) + morceaux(y, sep),
    decreases y.len(),
{
    lemme_morceaux_non_vide(x, sep);
    if y.len() == 0 {
        let s = x + seq![sep] + y;
        assert(s.drop_last() =~= x);
        assert(morceaux(y, sep) =~= seq![Seq::<char>::empty()]);
        assert(morceaux(x, sep).push(Seq::<char>::empty()) =~= morceaux(x, sep) + morceaux(y, sep));
    } else {
        let s = x + seq![sep] + y;
        let yp = y.drop_last();
        assert(s.drop_last() =~= x + seq![sep] + yp);
        assert(s.last() == y.last());
        lemme_morceaux_concat(x, sep, yp);
        lemme_morceaux_non_vide(yp, sep);
        let a = morceaux(x, sep);
        let b = morceaux(yp, sep);
        if y.last() == sep {
            assert((a + b).push(Seq::<char>::empty()) =~= a + b.push(Seq::<char>::empty()));
        } else {
            assert((a + b).update((a + b).len() - 1, (a + b).last().push(y.last())) =~= a + b.update(
                b.len() - 1,
                b.last().push(y.last()),
            ));
        }
    }
}

/// Joindre puis découper rend les parties, quand aucune ne porte le séparateur.
pub proof fn lemme_joindre_puis_morceaux(parties: Seq<Seq<char>>, sep: char)
    requires
        parties.len() >= 1,
        sans_caractere(parties, sep),
    ensures
        morceaux(joindre(parties, seq![sep]), sep) == parties,
    decreases parties.len(),
{
    if parties.len() == 1 {
        assert(!parties[0].contains(sep));
        lemme_morceaux_sans_separateur(parties[0], sep);
        assert(parties =~= seq![parties[0]]);
    } else {
        let avant = parties.drop_last();
        assert(sans_caractere(avant, sep)) by {
            assert forall|i: int| 0 <= i < avant.len() implies !(#[trigger] avant[i]).contains(
                sep,
            ) by {
                assert(avant[i] == parties[i]);
            }
        }
        lemme_joindre_puis_morceaux(avant, sep);
        assert(!parties[parties.len() - 1].contains(sep));
        lemme_morceaux_sans_separateur(parties.last(), sep);
        lemme_morceaux_concat(joindre(avant, seq![sep]), sep, parties.last());
        assert(avant.push(parties.last()) =~= parties);
    }
}

/// Découpe selon un caractère.
pub fn decouper(s: &[char], sep: char) -> (r: Vec<Vec<char>>)
    ensures
        r@.map_values(|v: Vec<char>| v@) == morceaux(s@, sep),
{
    let mut faits: Vec<Vec<char>> = Vec::new();
    let mut courant: Vec<char> = Vec::new();
    let mut i: usize = 0;
    while i < s.len()
        invariant
            i <= s@.len(),
            faits@.map_values(|v: Vec<char>| v@).push(courant@) == morceaux(s@.take(i as int), sep),
        decreases s@.len() - i,
    {
        let c = s[i];
        let ghost avant = faits@.map_values(|v: Vec<char>| v@).push(courant@);
        assert(s@.take(i + 1).drop_last() =~= s@.take(i as int));
        assert(s@.take(i + 1).last() == c);
        if c == sep {
            let fini = courant;
            faits.push(fini);
            courant = Vec::new();
            assert(faits@.map_values(|v: Vec<char>| v@).push(courant@) =~= avant.push(
                Seq::<char>::empty(),
            ));
        } else {
            courant.push(c);
            assert(faits@.map_values(|v: Vec<char>| v@).push(courant@) =~= avant.update(
                avant.len() - 1,
                avant.last().push(c),
            ));
        }
        i = i + 1;
    }
    assert(s@.take(s@.len() as int) =~= s@);
    faits.push(courant);
    assert(faits@.map_values(|v: Vec<char>| v@) =~= morceaux(s@, sep));
    faits
}

/// Ce que rend `str::split_once` avec un caractère : ce qui précède sa
/// première occurrence, et ce qui la suit.
pub open spec fn coupe(s: Seq<char>, sep: char) -> Option<(Seq<char>, Seq<char>)> {
    match premiere(s, seq![sep]) {
        Some(k) => Some((s.take(k), s.skip(k + 1))),
        None => None,
    }
}

/// Couper `x`, le séparateur, puis `y`, quand `x` ne le porte pas, rend `x`
/// et `y`.
pub proof fn lemme_coupe_concat(x: Seq<char>, sep: char, y: Seq<char>)
    requires
        !x.contains(sep),
    ensures
        coupe(x + seq![sep] + y, sep) == Some((x, y)),
{
    let s = x + seq![sep] + y;
    let k = x.len() as int;
    assert(s.subrange(k, k + 1) =~= seq![sep]);
    lemme_premiere(s, seq![sep]);
    assert(apparait_a(s, seq![sep], k));
    assert(premiere(s, seq![sep]) == Some(k)) by {
        if premiere(s, seq![sep]) is Some {
            let k2 = premiere(s, seq![sep])->0;
            if k2 < k {
                assert(s.subrange(k2, k2 + 1)[0] == s[k2]);
                assert(s[k2] == x[k2]);
                assert(x.contains(x[k2]));
            }
            if k2 > k {
                assert(!apparait_a(s, seq![sep], k));
            }
        } else {
            assert(!apparait_a(s, seq![sep], k));
        }
    }
    assert(s.take(k) =~= x);
    assert(s.skip(k + 1) =~= y);
}

/// Un texte qui ne commence ni ne finit par un blanc se rogne en lui-même.
pub proof fn lemme_rogne_sans_bouts(s: Seq<char>)
    requires
        s.len() > 0,
        !blanc(s[0]),
        !blanc(s.last()),
    ensures
        rogne(s) == s,
{
}

/// Coupe à la première occurrence d'un caractère.
pub fn couper(s: &[char], sep: char) -> (r: Option<(Vec<char>, Vec<char>)>)
    ensures
        match r {
            Some((a, b)) => coupe(s@, sep) == Some((a@, b@)),
            None => coupe(s@, sep) is None,
        },
{
    let n = s.len();
    let cible: Vec<char> = vec![sep];
    assert(cible@ =~= seq![sep]);
    match trouver(s, cible.as_slice()) {
        None => None,
        Some(k) => {
            proof {
                lemme_premiere(s@, seq![sep]);
            }
            let mut a: Vec<char> = Vec::new();
            let mut i: usize = 0;
            while i < k
                invariant
                    k < s@.len(),
                    i <= k,
                    a@ == s@.take(i as int),
                decreases k - i,
            {
                a.push(s[i]);
                assert(s@.take(i as int).push(s@[i as int]) =~= s@.take(i + 1));
                i = i + 1;
            }
            let mut b: Vec<char> = Vec::new();
            let mut j: usize = k + 1;
            while j < s.len()
                invariant
                    k + 1 <= j <= s@.len(),
                    b@ == s@.subrange(k + 1, j as int),
                decreases s@.len() - j,
            {
                b.push(s[j]);
                assert(s@.subrange(k + 1, j as int).push(s@[j as int]) =~= s@.subrange(
                    k + 1,
                    j + 1,
                ));
                j = j + 1;
            }
            assert(b@ =~= s@.skip(k + 1));
            Some((a, b))
        },
    }
}

} // verus!

verus! {

// ───────────────────────── l'ordre des textes ───────────────────────────────

/// Vrai quand `a` vient strictement avant `b` dans l'ordre lexicographique
/// des points de code — celui des chaînes de Rust, puisque l'UTF-8 le
/// préserve.
pub open spec fn precede(a: Seq<char>, b: Seq<char>) -> bool
    decreases a.len(),
{
    if a.len() == 0 {
        b.len() > 0
    } else if b.len() == 0 {
        false
    } else if a[0] != b[0] {
        a[0] < b[0]
    } else {
        precede(a.drop_first(), b.drop_first())
    }
}

/// L'ordre des textes est strict et total.
pub proof fn lemme_precede_ordre(a: Seq<char>, b: Seq<char>)
    ensures
        !precede(a, a),
        precede(a, b) ==> !precede(b, a),
        a != b ==> precede(a, b) || precede(b, a),
    decreases a.len(),
{
    if a.len() > 0 {
        lemme_precede_ordre(a.drop_first(), a.drop_first());
        if b.len() > 0 {
            lemme_precede_ordre(a.drop_first(), b.drop_first());
            if a != b && a[0] == b[0] {
                assert(a.drop_first() != b.drop_first()) by {
                    if a.drop_first() == b.drop_first() {
                        assert(a =~= b) by {
                            assert forall|i: int| 0 <= i < a.len() implies a[i] == b[i] by {
                                if i > 0 {
                                    assert(a[i] == a.drop_first()[i - 1]);
                                    assert(b[i] == b.drop_first()[i - 1]);
                                }
                            }
                        }
                    }
                }
            }
        }
    } else {
        if b.len() == 0 {
            assert(a =~= b);
        }
    }
}

/// L'ordre des textes est transitif.
pub proof fn lemme_precede_transitif(a: Seq<char>, b: Seq<char>, c: Seq<char>)
    requires
        precede(a, b),
        precede(b, c),
    ensures
        precede(a, c),
    decreases a.len(),
{
    if a.len() > 0 && b.len() > 0 && c.len() > 0 && a[0] == b[0] && b[0] == c[0] {
        lemme_precede_transitif(a.drop_first(), b.drop_first(), c.drop_first());
    }
}

/// Vrai quand `a` vient strictement avant `b`.
pub fn avant(a: &[char], b: &[char]) -> (r: bool)
    ensures
        r == precede(a@, b@),
{
    let mut i: usize = 0;
    assert(a@.skip(0) =~= a@ && b@.skip(0) =~= b@);
    while i < a.len() && i < b.len() && a[i] == b[i]
        invariant
            i <= a@.len(),
            i <= b@.len(),
            a@.take(i as int) == b@.take(i as int),
            precede(a@, b@) == precede(a@.skip(i as int), b@.skip(i as int)),
        decreases a@.len() - i,
    {
        proof {
            let x = a@.skip(i as int);
            let y = b@.skip(i as int);
            assert(x[0] == a@[i as int] && y[0] == b@[i as int]);
            assert(x.drop_first() =~= a@.skip(i + 1));
            assert(y.drop_first() =~= b@.skip(i + 1));
            assert(a@.take(i + 1) =~= a@.take(i as int).push(a@[i as int]));
            assert(b@.take(i + 1) =~= b@.take(i as int).push(b@[i as int]));
        }
        i = i + 1;
    }
    proof {
        let x = a@.skip(i as int);
        let y = b@.skip(i as int);
        if i < a@.len() && i < b@.len() {
            assert(x[0] == a@[i as int] && y[0] == b@[i as int]);
        }
    }
    if i == a.len() {
        i < b.len()
    } else if i == b.len() {
        false
    } else {
        a[i] < b[i]
    }
}

} // verus!
