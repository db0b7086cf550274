use std::sync::Arc;

use ontbible::application::ports::{Corpus, Lexique};
use ontbible::domaine::corpus::{
    Bloc, Chapitre, Ensemble, Entree, EntreeDeLivre, Livre, Occurrence, Section, Statut,
};
use ontbible::domaine::texte::{Noeud, Verset};
use ontbible::infrastructure::corpus::{entree_du_plan, francais_du_plan, CorpusEmbarque, LexiqueEmbarque};

fn fiche(lemme: &str, definition: &str) -> Entree {
    Entree {
        lemme: lemme.into(),
        titre: lemme.into(),
        hebreu: String::new(),
        rendu: lemme.into(),
        formes: vec![lemme.into()],
        definition: vec![Bloc::Paragraphe(vec![Noeud::Texte(definition.into())])],
    }
}

fn occurrence(chapitre: &str, verset: Option<u32>) -> Occurrence {
    Occurrence {
        livre: "bereshit".into(),
        chapitre: chapitre.into(),
        verset,
        forme: "Elohim".into(),
        extrait: "Quand Elohim commença".into(),
    }
}

fn livre() -> Livre {
    Livre {
        id: "bereshit".into(),
        titre: "Bereshit".into(),
        francais: "Genèse".into(),
        hebreu: String::new(),
        intro: None,
        chapitres: vec![Chapitre {
            id: "bereshit-1".into(),
            livre: "bereshit".into(),
            numero: 1,
            titre: "Bereshit 1".into(),
            sous_titre: None,
            statut: Statut::Acheve,
            blocs: vec![Bloc::Versets(vec![
                Verset { numero: 1, noeuds: vec![Noeud::Texte("Quand Elohim commença".into())] },
                Verset { numero: 2, noeuds: vec![Noeud::Texte("la terre".into())] },
            ])],
            notes: vec![],
            nombre_de_versets: 2,
        }],
    }
}

fn corpus() -> CorpusEmbarque {
    let sommaire = vec![Ensemble {
        id: "torah".into(),
        titre: "Torah".into(),
        sections: vec![Section {
            id: "t".into(),
            titre: "T".into(),
            livres: vec![
                EntreeDeLivre {
                    id: "bereshit".into(),
                    titre: "Bereshit".into(),
                    francais: "Genèse".into(),
                    hebreu: String::new(),
                    ecrit: true,
                    unites: 1,
                },
                EntreeDeLivre {
                    id: "shemot".into(),
                    titre: "Shemot".into(),
                    francais: "Exode".into(),
                    hebreu: String::new(),
                    ecrit: false,
                    unites: 0,
                },
            ],
        }],
    }];
    CorpusEmbarque::new(sommaire, vec![Arc::new(livre())])
}

#[test]
fn deux_portes_d_un_lemme_menent_au_meme_texte() {
    let lexique = LexiqueEmbarque::assembler(
        vec![fiche("moreh", "le maître"), fiche("elohim", "les puissances")],
        vec![fiche("moreh", "le maître"), fiche("yhwh", "le nom")],
    );
    let lemmes: Vec<&str> = lexique.entrees().iter().map(|e| e.lemme.as_str()).collect();
    assert_eq!(lemmes, ["elohim", "moreh", "yhwh"]);
}

#[test]
fn la_premiere_fiche_d_un_lemme_l_emporte() {
    let lexique = LexiqueEmbarque::assembler(
        vec![fiche("moreh", "du glossaire")],
        vec![fiche("moreh", "des shemot")],
    );
    assert_eq!(lexique.entrees().len(), 1);
    assert_eq!(lexique.entree("moreh"), Some(&fiche("moreh", "du glossaire")));
}

#[test]
fn le_lexique_est_alphabetique() {
    let lexique = LexiqueEmbarque::assembler(
        vec![fiche("ruah", ""), fiche("adam", ""), fiche("nefesh", "")],
        vec![fiche("elohim", ""), fiche("bara", "")],
    );
    let lemmes: Vec<&str> = lexique.entrees().iter().map(|e| e.lemme.as_str()).collect();
    let mut trie = lemmes.clone();
    trie.sort();
    assert_eq!(lemmes, trie);
    assert_eq!(lemmes.len(), 5);
}

#[test]
fn une_fiche_porte_ses_occurrences() {
    let lexique = LexiqueEmbarque::assembler(vec![fiche("elohim", "les puissances")], vec![])
        .avec_occurrences(vec![(
            "elohim".to_string(),
            vec![occurrence("bereshit-1", Some(1)), occurrence("bereshit-1", None)],
        )]);
    let corpus = corpus();

    let elohim = lexique.entree("elohim").expect("la fiche « elohim »");
    assert!(!elohim.definition.is_empty());

    let occurrences = Lexique::occurrences(&lexique, "elohim");
    assert!(!occurrences.is_empty(), "« elohim » paraît dans le corpus");
    for occurrence in &occurrences {
        let livre = corpus
            .livre(&occurrence.livre)
            .unwrap_or_else(|| panic!("livre « {} » absent", occurrence.livre));
        let chapitre = livre
            .chapitre(&occurrence.chapitre)
            .unwrap_or_else(|| panic!("chapitre « {} » absent", occurrence.chapitre));
        if let Some(numero) = occurrence.verset {
            assert!(chapitre.verset(numero).is_some());
        }
    }
}

#[test]
fn un_lemme_sans_releve_n_a_pas_d_occurrence() {
    let lexique = LexiqueEmbarque::assembler(vec![fiche("elohim", "")], vec![]);
    assert!(lexique.occurrences_de("elohim").is_empty());
    assert!(lexique.entree("absent").is_none());
}

#[test]
fn le_sommaire_porte_tout_le_plan() {
    let corpus = corpus();
    let total: usize = corpus
        .sommaire()
        .iter()
        .flat_map(|e| e.sections.iter())
        .map(|s| s.livres.len())
        .sum();
    assert_eq!(total, 2);
    let ecrits: Vec<String> = corpus
        .sommaire()
        .iter()
        .flat_map(|e| e.livres_ecrits())
        .map(|l| l.id.clone())
        .collect();
    for id in &ecrits {
        assert!(corpus.livre(id).is_some());
    }
    assert!(corpus.livre("shemot").is_none());
}

#[test]
fn le_sommaire_retombe_sur_le_titre_sans_francais() {
    let titre = String::from("Bereshit");
    assert_eq!(francais_du_plan(Some("Genèse".into()), &titre), "Genèse");
    assert_eq!(francais_du_plan(None, &titre), "Bereshit");
}

#[test]
fn un_livre_du_plan_devient_une_entree_du_sommaire() {
    let ecrit = entree_du_plan(
        "bereshit".into(),
        "Bereshit".into(),
        "Genèse".into(),
        Some("בְּרֵאשִׁית".into()),
        false,
        50,
    );
    assert_eq!(
        ecrit,
        EntreeDeLivre {
            id: "bereshit".into(),
            titre: "Bereshit".into(),
            francais: "Genèse".into(),
            hebreu: "בְּרֵאשִׁית".into(),
            ecrit: true,
            unites: 50,
        }
    );
    let vide = entree_du_plan("ruth".into(), "Ruth".into(), "Ruth".into(), None, true, 4);
    assert_eq!(vide.hebreu, "");
    assert!(!vide.ecrit);
    assert_eq!(vide.unites, 4);
}
