//! Le lexique embarqué : les fiches du glossaire puis celles des Shemot, un
//! lemme n'en gardant qu'une — la première —, rangées dans l'ordre
//! alphabétique du lemme.

use vstd::prelude::*;

use crate::chaines::{avant, caracteres, lemme_precede_ordre, lemme_precede_transitif, meme_texte, precede};
use std::sync::Arc;

use crate::application::ports::{Corpus, Lexique};
use crate::domaine::corpus::{Ensemble, Entree, EntreeDeLivre, Livre, Occurrence};

verus! {

/// La liste triée par lemme `t`, augmentée de `e` si son lemme n'y est pas.
pub open spec fn insere(t: Seq<Entree>, e: Entree) -> Seq<Entree>
    decreases t.len(),
{
    if t.len() == 0 {
        seq![e]
    } else if precede(t.last().lemme@, e.lemme@) {
        t.push(e)
    } else if t.last().lemme@ == e.lemme@ {
        t
    } else {
        insere(t.drop_last(), e).push(t.last())
    }
}

/// Les fiches, la première de chaque lemme, dans l'ordre alphabétique.
pub open spec fn lexique_de(s: Seq<Entree>) -> Seq<Entree>
    decreases s.len(),
{
    if s.len() == 0 {
        Seq::empty()
    } else {
        insere(lexique_de(s.drop_last()), s.last())
    }
}

/// Vrai quand les lemmes vont strictement croissant.
pub open spec fn alphabetique(t: Seq<Entree>) -> bool {
    forall|i: int, j: int| 0 <= i < j < t.len() ==> precede(#[trigger] t[i].lemme@, #[trigger] t[j].lemme@)
}

/// Vrai quand une fiche de la liste porte ce lemme.
pub open spec fn porte_le_lemme(t: Seq<Entree>, lemme: Seq<char>) -> bool {
    exists|i: int| 0 <= i < t.len() && (#[trigger] t[i]).lemme@ == lemme
}

/// Insérer en descendant : la suite reprend la fin de la liste.
proof fn lemme_insere_partiel(t: Seq<Entree>, e: Entree, k: int)
    requires
        0 <= k <= t.len(),
        forall|j: int| k <= j < t.len() ==> precede(e.lemme@, #[trigger] t[j].lemme@),
    ensures
        insere(t, e) == insere(t.take(k), e) + t.skip(k),
    decreases t.len() - k,
{
    if k < t.len() {
        lemme_insere_partiel(t, e, k + 1);
        let u = t.take(k + 1);
        assert(u.drop_last() =~= t.take(k));
        assert(u.last() == t[k]);
        lemme_precede_ordre(e.lemme@, t[k].lemme@);
        assert(insere(u, e) == insere(t.take(k), e).push(t[k]));
        assert(insere(t.take(k), e).push(t[k]) + t.skip(k + 1) =~= insere(t.take(k), e) + t.skip(k));
    } else {
        assert(t.take(k) =~= t);
        assert(t.skip(k) =~= Seq::<Entree>::empty());
        assert(insere(t, e) + Seq::<Entree>::empty() =~= insere(t, e));
    }
}

/// Insère une fiche dans la liste triée, sauf si son lemme y est déjà.
fn inserer_fiche(v: &mut Vec<Entree>, e: Entree)
    ensures
        final(v)@ == insere(old(v)@, e),
{
    let cle = caracteres(e.lemme.as_str());
    let mut k: usize = v.len();
    while k > 0 && avant(cle.as_slice(), caracteres(v[k - 1].lemme.as_str()).as_slice())
        invariant
            k <= v@.len(),
            v@ == old(v)@,
            cle@ == e.lemme@,
            forall|j: int| k <= j < v@.len() ==> precede(e.lemme@, #[trigger] v@[j].lemme@),
        decreases k,
    {
        k = k - 1;
    }
    proof {
        lemme_insere_partiel(v@, e, k as int);
    }
    let ghost u = v@.take(k as int);
    if k > 0 && meme_texte(v[k - 1].lemme.as_str(), e.lemme.as_str()) {
        proof {
            assert(u.last() == v@[k - 1]);
            lemme_precede_ordre(e.lemme@, v@[k - 1].lemme@);
            assert(insere(u, e) == u);
            assert(u + v@.skip(k as int) =~= v@);
        }
        return;
    }
    proof {
        if k > 0 {
            assert(u.last() == v@[k - 1]);
            lemme_precede_ordre(e.lemme@, v@[k - 1].lemme@);
            assert(insere(u, e) == u.push(e));
        } else {
            assert(u =~= Seq::<Entree>::empty());
        }
    }
    let ghost avant_insertion = v@;
    v.insert(k, e);
    assert(v@ =~= avant_insertion.take(k as int).push(e) + avant_insertion.skip(k as int));
}

/// Une copie de cette occurrence, champ par champ.
fn copier_occurrence(o: &Occurrence) -> (r: Occurrence)
    ensures
        r == *o,
{
    Occurrence {
        livre: o.livre.clone(),
        chapitre: o.chapitre.clone(),
        verset: o.verset,
        forme: o.forme.clone(),
        extrait: o.extrait.clone(),
    }
}

/// Une copie de ces occurrences, dans leur ordre.
fn copier_occurrences(v: &[Occurrence]) -> (r: Vec<Occurrence>)
    ensures
        r@ == v@,
{
    let mut r: Vec<Occurrence> = Vec::new();
    let mut i: usize = 0;
    while i < v.len()
        invariant
            i <= v@.len(),
            r@ == v@.take(i as int),
        decreases v@.len() - i,
    {
        r.push(copier_occurrence(&v[i]));
        assert(v@.take(i + 1) =~= v@.take(i as int).push(v@[i as int]));
        i = i + 1;
    }
    assert(v@.take(v@.len() as int) =~= v@);
    r
}

/// Le lexique embarqué, ses fiches dans l'ordre alphabétique du lemme, et
/// les occurrences de chaque lemme.
pub struct LexiqueEmbarque {
    entrees: Vec<Entree>,
    occurrences: Vec<(String, Vec<Occurrence>)>,
}

impl LexiqueEmbarque {
    /// Les fiches du lexique.
    pub closed spec fn fiches(&self) -> Seq<Entree> {
        self.entrees@
    }

    /// Assemble le lexique : les fiches du glossaire, puis celles des Shemot ;
    /// un lemme déjà vu n'ajoute rien ; l'ordre est celui du lemme.
    pub fn assembler(glossaire: Vec<Entree>, shemot: Vec<Entree>) -> (r: LexiqueEmbarque)
        ensures
            r.fiches() == lexique_de(glossaire@ + shemot@),
    {
        let ghost tous = glossaire@ + shemot@;
        let mut entrees: Vec<Entree> = Vec::new();
        let ghost mut n: int = 0;
        let mut reste = glossaire;
        let mut second = shemot;
        reste.append(&mut second);
        assert(reste@ =~= tous);
        assert(tous.take(0) =~= Seq::<Entree>::empty());
        while reste.len() > 0
            invariant
                0 <= n <= tous.len(),
                reste@ == tous.skip(n),
                entrees@ == lexique_de(tous.take(n)),
            decreases reste@.len(),
        {
            let e = reste.remove(0);
            assert(e == tous[n]);
            assert(tous.take(n + 1).drop_last() =~= tous.take(n));
            assert(tous.take(n + 1).last() == e);
            inserer_fiche(&mut entrees, e);
            proof {
                n = n + 1;
                assert(reste@ =~= tous.skip(n));
            }
        }
        assert(tous.take(n) =~= tous);
        LexiqueEmbarque { entrees, occurrences: Vec::new() }
    }

    /// Les occurrences, par lemme.
    pub closed spec fn releve(&self) -> Seq<(String, Vec<Occurrence>)> {
        self.occurrences@
    }

    /// Le même lexique, avec ces occurrences par lemme.
    pub fn avec_occurrences(self, occurrences: Vec<(String, Vec<Occurrence>)>) -> (r: LexiqueEmbarque)
        ensures
            r.fiches() == self.fiches(),
            r.releve() == occurrences@,
    {
        LexiqueEmbarque { entrees: self.entrees, occurrences }
    }

    /// Les occurrences d'un lemme : la première liste relevée pour lui, ou
    /// aucune.
    pub fn occurrences_de(&self, lemme: &str) -> (r: Vec<Occurrence>)
        ensures
            (forall|i: int| 0 <= i < self.releve().len() ==> (#[trigger] self.releve()[i]).0@ != lemme@)
                ==> r@.len() == 0,
            forall|i: int|
                0 <= i < self.releve().len() && (#[trigger] self.releve()[i]).0@ == lemme@ && (forall|
                    j: int,
                | 0 <= j < i ==> self.releve()[j].0@ != lemme@) ==> r@ == self.releve()[i].1@,
    {
        let mut i: usize = 0;
        while i < self.occurrences.len()
            invariant
                i <= self.occurrences@.len(),
                forall|j: int| 0 <= j < i ==> (#[trigger] self.occurrences@[j]).0@ != lemme@,
            decreases self.occurrences@.len() - i,
        {
            if meme_texte(self.occurrences[i].0.as_str(), lemme) {
                assert(self.releve()[i as int].0@ == lemme@);
                return copier_occurrences(self.occurrences[i].1.as_slice());
            }
            i = i + 1;
        }
        Vec::new()
    }

    /// Toutes les fiches, dans l'ordre alphabétique du lemme.
    pub fn entrees(&self) -> (r: &[Entree])
        ensures
            r@ == self.fiches(),
    {
        self.entrees.as_slice()
    }

    /// La fiche de ce lemme, s'il y en a une : la première qui le porte.
    pub fn entree(&self, lemme: &str) -> (r: Option<&Entree>)
        ensures
            match r {
                Some(e) => exists|i: int|
                    0 <= i < self.fiches().len() && *e == #[trigger] self.fiches()[i]
                        && e.lemme@ == lemme@ && forall|j: int|
                        0 <= j < i ==> self.fiches()[j].lemme@ != lemme@,
                None => !porte_le_lemme(self.fiches(), lemme@),
            },
    {
        let mut i: usize = 0;
        while i < self.entrees.len()
            invariant
                i <= self.entrees@.len(),
                forall|j: int| 0 <= j < i ==> (#[trigger] self.entrees@[j]).lemme@ != lemme@,
            decreases self.entrees@.len() - i,
        {
            if meme_texte(self.entrees[i].lemme.as_str(), lemme) {
                assert(self.fiches()[i as int] == self.entrees@[i as int]);
                assert(forall|j: int| 0 <= j < i ==> self.fiches()[j].lemme@ != lemme@) by {
                    assert forall|j: int| 0 <= j < i implies self.fiches()[j].lemme@ != lemme@ by {
                        assert(self.entrees@[j].lemme@ != lemme@);
                    }
                }
                return Some(&self.entrees[i]);
            }
            i = i + 1;
        }
        None
    }
}

/// Insérer garde ce qu'on avait et ajoute la fiche si son lemme est neuf.
proof fn lemme_insere(t: Seq<Entree>, e: Entree)
    requires
        alphabetique(t),
    ensures
        alphabetique(insere(t, e)),
        forall|l: Seq<char>|
            porte_le_lemme(insere(t, e), l) <==> (porte_le_lemme(t, l) || l == e.lemme@),
        forall|f: Entree| insere(t, e).contains(f) ==> t.contains(f) || f == e,
    decreases t.len(),
{
    if t.len() == 0 {
        assert(seq![e][0] == e);
        assert forall|l: Seq<char>| porte_le_lemme(seq![e], l) <==> l == e.lemme@ by {
            if l == e.lemme@ {
                assert(seq![e][0].lemme@ == l);
            }
        }
        assert forall|f: Entree| seq![e].contains(f) implies f == e by {
            let k = choose|k: int| 0 <= k < 1 && seq![e][k] == f;
        }
    } else {
        let u = t.drop_last();
        let x = t.last();
        assert(t[t.len() - 1] == x);
        assert(alphabetique(u)) by {
            assert forall|i: int, j: int| 0 <= i < j < u.len() implies precede(
                #[trigger] u[i].lemme@,
                #[trigger] u[j].lemme@,
            ) by {
                assert(u[i] == t[i] && u[j] == t[j]);
            }
        }
        assert forall|l: Seq<char>| porte_le_lemme(t, l) <==> (porte_le_lemme(u, l) || l == x.lemme@) by {
            if porte_le_lemme(t, l) {
                let k = choose|k: int| 0 <= k < t.len() && (#[trigger] t[k]).lemme@ == l;
                if k < u.len() {
                    assert(u[k] == t[k]);
                }
            }
            if porte_le_lemme(u, l) {
                let k = choose|k: int| 0 <= k < u.len() && (#[trigger] u[k]).lemme@ == l;
                assert(t[k] == u[k]);
            }
        }
        assert forall|f: Entree| t.contains(f) <==> (u.contains(f) || f == x) by {
            if t.contains(f) {
                let k = choose|k: int| 0 <= k < t.len() && t[k] == f;
                if k < u.len() {
                    assert(u[k] == t[k]);
                }
            }
            if u.contains(f) {
                let k = choose|k: int| 0 <= k < u.len() && u[k] == f;
                assert(t[k] == u[k]);
            }
        }
        if precede(x.lemme@, e.lemme@) {
            let w = t.push(e);
            assert forall|i: int, j: int| 0 <= i < j < w.len() implies precede(
                #[trigger] w[i].lemme@,
                #[trigger] w[j].lemme@,
            ) by {
                if j == t.len() {
                    if i < t.len() - 1 {
                        lemme_precede_transitif(t[i].lemme@, x.lemme@, e.lemme@);
                    }
                } else {
                    assert(w[i] == t[i] && w[j] == t[j]);
                }
            }
            assert forall|l: Seq<char>| porte_le_lemme(w, l) <==> (porte_le_lemme(t, l) || l == e.lemme@) by {
                if porte_le_lemme(w, l) {
                    let k = choose|k: int| 0 <= k < w.len() && (#[trigger] w[k]).lemme@ == l;
                    if k < t.len() {
                        assert(w[k] == t[k]);
                    }
                }
                if porte_le_lemme(t, l) {
                    let k = choose|k: int| 0 <= k < t.len() && (#[trigger] t[k]).lemme@ == l;
                    assert(w[k] == t[k]);
                }
                if l == e.lemme@ {
                    assert(w[t.len() as int] == e);
                }
            }
            assert forall|f: Entree| w.contains(f) implies t.contains(f) || f == e by {
                let k = choose|k: int| 0 <= k < w.len() && w[k] == f;
                if k < t.len() {
                    assert(w[k] == t[k]);
                }
            }
        } else if x.lemme@ == e.lemme@ {
        } else {
            lemme_insere(u, e);
            let p = insere(u, e);
            lemme_precede_ordre(x.lemme@, e.lemme@);
            let w = p.push(x);
            assert forall|i: int, j: int| 0 <= i < j < w.len() implies precede(
                #[trigger] w[i].lemme@,
                #[trigger] w[j].lemme@,
            ) by {
                if j == p.len() {
                    let f = p[i];
                    assert(p.contains(f));
                    if f == e {
                    } else {
                        assert(u.contains(f));
                        let m = choose|m: int| 0 <= m < u.len() && u[m] == f;
                        assert(t[m] == f);
                        assert(precede(t[m].lemme@, t[t.len() - 1].lemme@));
                    }
                } else {
                    assert(w[i] == p[i] && w[j] == p[j]);
                }
            }
            assert forall|l: Seq<char>| porte_le_lemme(w, l) <==> (porte_le_lemme(t, l) || l == e.lemme@) by {
                if porte_le_lemme(w, l) {
                    let k = choose|k: int| 0 <= k < w.len() && (#[trigger] w[k]).lemme@ == l;
                    if k < p.len() {
                        assert(w[k] == p[k]);
                        assert(porte_le_lemme(p, l));
                    }
                }
                if porte_le_lemme(u, l) || l == e.lemme@ {
                    assert(porte_le_lemme(p, l));
                    let k = choose|k: int| 0 <= k < p.len() && (#[trigger] p[k]).lemme@ == l;
                    assert(w[k] == p[k]);
                }
                if l == x.lemme@ {
                    assert(w[p.len() as int] == x);
                }
            }
            assert forall|f: Entree| w.contains(f) implies t.contains(f) || f == e by {
                let k = choose|k: int| 0 <= k < w.len() && w[k] == f;
                if k < p.len() {
                    assert(w[k] == p[k]);
                    assert(p.contains(f));
                }
            }
        }
    }
}

/// **Le lexique est alphabétique** : ses lemmes vont strictement croissant,
/// donc chacun n'a qu'une fiche ; il porte exactement les lemmes du glossaire
/// et des Shemot ; et chaque fiche est l'une de celles qu'on lui a données.
pub proof fn loi_le_lexique_est_alphabetique(s: Seq<Entree>)
    ensures
        alphabetique(lexique_de(s)),
        forall|l: Seq<char>| porte_le_lemme(lexique_de(s), l) <==> porte_le_lemme(s, l),
        forall|f: Entree| lexique_de(s).contains(f) ==> s.contains(f),
    decreases s.len(),
{
    if s.len() > 0 {
        let u = s.drop_last();
        let e = s.last();
        assert(s[s.len() - 1] == e);
        loi_le_lexique_est_alphabetique(u);
        lemme_insere(lexique_de(u), e);
        assert forall|l: Seq<char>| porte_le_lemme(s, l) <==> (porte_le_lemme(u, l) || l == e.lemme@) by {
            if porte_le_lemme(s, l) {
                let k = choose|k: int| 0 <= k < s.len() && (#[trigger] s[k]).lemme@ == l;
                if k < u.len() {
                    assert(u[k] == s[k]);
                }
            }
            if porte_le_lemme(u, l) {
                let k = choose|k: int| 0 <= k < u.len() && (#[trigger] u[k]).lemme@ == l;
                assert(s[k] == u[k]);
            }
        }
        assert forall|f: Entree| lexique_de(s).contains(f) implies s.contains(f) by {
            if lexique_de(u).contains(f) {
                assert(u.contains(f));
                let k = choose|k: int| 0 <= k < u.len() && u[k] == f;
                assert(s[k] == f);
            }
        }
    }
}

/// Insérer garde les fiches qu'on avait, et la nouvelle quand son lemme
/// manquait.
proof fn lemme_insere_garde(t: Seq<Entree>, e: Entree)
    ensures
        forall|f: Entree| t.contains(f) ==> insere(t, e).contains(f),
        !porte_le_lemme(t, e.lemme@) ==> insere(t, e).contains(e),
    decreases t.len(),
{
    if t.len() == 0 {
        assert(seq![e][0] == e);
    } else if precede(t.last().lemme@, e.lemme@) {
        let r = t.push(e);
        assert(r[t.len() as int] == e);
        assert forall|f: Entree| t.contains(f) implies r.contains(f) by {
            let k = choose|k: int| 0 <= k < t.len() && t[k] == f;
            assert(r[k] == f);
        }
    } else if t.last().lemme@ == e.lemme@ {
        assert(t[t.len() - 1] == t.last());
    } else {
        let u = t.drop_last();
        lemme_insere_garde(u, e);
        let r = insere(u, e).push(t.last());
        assert(r[r.len() - 1] == t.last());
        assert forall|f: Entree| t.contains(f) implies r.contains(f) by {
            let k = choose|k: int| 0 <= k < t.len() && t[k] == f;
            if k < u.len() {
                assert(u[k] == f);
                assert(u.contains(f));
                assert(insere(u, e).contains(f));
                let m = choose|m: int| 0 <= m < insere(u, e).len() && insere(u, e)[m] == f;
                assert(r[m] == f);
            }
        }
        if !porte_le_lemme(t, e.lemme@) {
            assert(!porte_le_lemme(u, e.lemme@)) by {
                if porte_le_lemme(u, e.lemme@) {
                    let k = choose|k: int| 0 <= k < u.len() && (#[trigger] u[k]).lemme@ == e.lemme@;
                    assert(t[k] == u[k]);
                }
            }
            let m = choose|m: int| 0 <= m < insere(u, e).len() && insere(u, e)[m] == e;
            assert(r[m] == e);
        }
    }
}

/// **La première fiche d'un lemme l'emporte** : du glossaire et des Shemot
/// mis bout à bout, c'est la première fiche de chaque lemme que le lexique
/// garde — le glossaire passe avant les Shemot.
pub proof fn loi_la_premiere_fiche_l_emporte(s: Seq<Entree>)
    ensures
        forall|i: int|
            0 <= i < s.len() && (forall|j: int| 0 <= j < i ==> s[j].lemme@ != s[i].lemme@)
                ==> lexique_de(s).contains(#[trigger] s[i]),
    decreases s.len(),
{
    if s.len() > 0 {
        let u = s.drop_last();
        let e = s.last();
        loi_la_premiere_fiche_l_emporte(u);
        loi_le_lexique_est_alphabetique(u);
        lemme_insere_garde(lexique_de(u), e);
        assert forall|i: int|
            0 <= i < s.len() && (forall|j: int| 0 <= j < i ==> s[j].lemme@ != s[i].lemme@)
                implies lexique_de(s).contains(#[trigger] s[i]) by {
            if i < u.len() {
                assert(u[i] == s[i]);
                assert forall|j: int| 0 <= j < i implies u[j].lemme@ != u[i].lemme@ by {
                    assert(u[j] == s[j]);
                }
                assert(lexique_de(u).contains(u[i]));
            } else {
                assert(s[i] == e);
                assert(!porte_le_lemme(u, e.lemme@)) by {
                    if porte_le_lemme(u, e.lemme@) {
                        let k = choose|k: int| 0 <= k < u.len() && (#[trigger] u[k]).lemme@ == e.lemme@;
                        assert(s[k] == u[k]);
                    }
                }
            }
        }
    }
}

impl Lexique for LexiqueEmbarque {
    fn entrees(&self) -> (r: &[Entree])
        ensures
            r@ == self.fiches(),
    {
        self.entrees.as_slice()
    }

    fn entree(&self, lemme: &str) -> (r: Option<&Entree>)
        ensures
            match r {
                Some(e) => exists|i: int|
                    0 <= i < self.fiches().len() && *e == #[trigger] self.fiches()[i]
                        && e.lemme@ == lemme@ && forall|j: int|
                        0 <= j < i ==> self.fiches()[j].lemme@ != lemme@,
                None => !porte_le_lemme(self.fiches(), lemme@),
            },
    {
        LexiqueEmbarque::entree(self, lemme)
    }

    fn occurrences(&self, lemme: &str) -> (r: Vec<Occurrence>)
        ensures
            (forall|i: int| 0 <= i < self.releve().len() ==> (#[trigger] self.releve()[i]).0@ != lemme@)
                ==> r@.len() == 0,
            forall|i: int|
                0 <= i < self.releve().len() && (#[trigger] self.releve()[i]).0@ == lemme@ && (forall|
                    j: int,
                | 0 <= j < i ==> self.releve()[j].0@ != lemme@) ==> r@ == self.releve()[i].1@,
    {
        self.occurrences_de(lemme)
    }
}

/// Le corpus embarqué : le sommaire, et les livres écrits.
pub struct CorpusEmbarque {
    sommaire: Vec<Ensemble>,
    livres: Vec<Arc<Livre>>,
}

impl CorpusEmbarque {
    /// Le sommaire.
    pub closed spec fn plan(&self) -> Seq<Ensemble> {
        self.sommaire@
    }

    /// Les livres écrits.
    pub closed spec fn ecrits(&self) -> Seq<Arc<Livre>> {
        self.livres@
    }

    /// Un corpus de ce sommaire et de ces livres.
    pub fn new(sommaire: Vec<Ensemble>, livres: Vec<Arc<Livre>>) -> (r: CorpusEmbarque)
        ensures
            r.plan() == sommaire@,
            r.ecrits() == livres@,
    {
        CorpusEmbarque { sommaire, livres }
    }

    /// Le livre de cet identifiant, s'il est écrit : le premier qui le porte.
    pub fn livre_de(&self, id: &str) -> (r: Option<Arc<Livre>>)
        ensures
            match r {
                Some(l) => exists|i: int|
                    0 <= i < self.ecrits().len() && *l == *#[trigger] self.ecrits()[i]
                        && (*l).id@ == id@ && forall|j: int|
                        0 <= j < i ==> (*self.ecrits()[j]).id@ != id@,
                None => forall|i: int| 0 <= i < self.ecrits().len() ==> (*#[trigger] self.ecrits()[i]).id@ != id@,
            },
    {
        let mut i: usize = 0;
        while i < self.livres.len()
            invariant
                i <= self.livres@.len(),
                forall|j: int| 0 <= j < i ==> (*#[trigger] self.livres@[j]).id@ != id@,
            decreases self.livres@.len() - i,
        {
            if meme_texte(self.livres[i].id.as_str(), id) {
                let l = Arc::clone(&self.livres[i]);
                assert(*l == *self.ecrits()[i as int]);
                return Some(l);
            }
            i = i + 1;
        }
        None
    }
}

/// Le nom français d'un ensemble ou d'une section du plan : celui que le
/// plan donne, et le titre à défaut — un sommaire qui afficherait une ligne
/// vide se lirait comme une panne.
pub fn francais_du_plan(francais: Option<String>, titre: &String) -> (r: String)
    ensures
        r@ == match francais {
            Some(f) => f@,
            None => titre@,
        },
{
    match francais {
        Some(f) => f,
        None => titre.clone(),
    }
}

/// L'entrée du sommaire d'un livre du plan : son hébreu, vide s'il n'en a
/// pas ; écrit sauf s'il est marqué vide ; autant d'unités que de chapitres,
/// comptées sur 32 bits.
pub fn entree_du_plan(
    id: String,
    titre: String,
    francais: String,
    hebreu: Option<String>,
    vide: bool,
    chapitres: usize,
) -> (r: EntreeDeLivre)
    ensures
        r.id == id,
        r.titre == titre,
        r.francais == francais,
        r.hebreu@ == match hebreu {
            Some(h) => h@,
            None => Seq::<char>::empty(),
        },
        r.ecrit == !vide,
        r.unites == chapitres as u32,
{
    let hebreu = match hebreu {
        Some(h) => h,
        None => String::new(),
    };
    EntreeDeLivre { id, titre, francais, hebreu, ecrit: !vide, unites: chapitres as u32 }
}

impl Corpus for CorpusEmbarque {
    fn sommaire(&self) -> (r: &[Ensemble])
        ensures
            r@ == self.plan(),
    {
        self.sommaire.as_slice()
    }

    fn livre(&self, id: &str) -> (r: Option<Arc<Livre>>)
        ensures
            match r {
                Some(l) => exists|i: int|
                    0 <= i < self.ecrits().len() && *l == *#[trigger] self.ecrits()[i]
                        && (*l).id@ == id@ && forall|j: int|
                        0 <= j < i ==> (*self.ecrits()[j]).id@ != id@,
                None => forall|i: int| 0 <= i < self.ecrits().len() ==> (*#[trigger] self.ecrits()[i]).id@ != id@,
            },
    {
        self.livre_de(id)
    }
}

} // verus!
