use ontbible::domaine::corpus::{Bloc, Chapitre, Ensemble, EntreeDeLivre, Livre, Section, Statut};
use ontbible::domaine::texte::{Noeud, Verset};

fn verset(numero: u32) -> Verset {
    Verset {
        numero,
        noeuds: vec![Noeud::Texte(format!("verset {numero}"))],
    }
}

fn chapitre() -> Chapitre {
    Chapitre {
        id: "bereshit-1".into(),
        livre: "bereshit".into(),
        numero: 1,
        titre: "Bereshit 1".into(),
        sous_titre: None,
        statut: Statut::Brouillon,
        blocs: vec![
            Bloc::Versets(vec![verset(1), verset(2)]),
            Bloc::Titre {
                niveau: 2,
                noeuds: vec![Noeud::Texte("L'état sans ordre".into())],
            },
            Bloc::Versets(vec![verset(3)]),
        ],
        notes: vec![],
        nombre_de_versets: 3,
    }
}

#[test]
fn un_verset_se_trouve_par_dela_les_blocs() {
    assert_eq!(chapitre().verset(3), Some(&verset(3)));
    assert_eq!(chapitre().verset(9), None);
}

#[test]
fn les_versets_sortent_dans_l_ordre_du_chapitre() {
    let c = chapitre();
    let numeros: Vec<u32> = c.versets().iter().map(|v| v.numero).collect();
    assert_eq!(numeros, [1, 2, 3]);
}

#[test]
fn l_introduction_est_un_chapitre_comme_un_autre() {
    let mut intro = chapitre();
    intro.id = "bereshit-intro".into();
    let livre = Livre {
        id: "bereshit".into(),
        titre: "Bereshit".into(),
        francais: "Genèse".into(),
        hebreu: "בְּרֵאשִׁית".into(),
        intro: Some(intro),
        chapitres: vec![chapitre()],
    };
    assert!(livre.chapitre("bereshit-intro").is_some());
    assert!(livre.chapitre("bereshit-1").is_some());
}

#[test]
fn un_livre_compte_les_versets_de_ses_chapitres() {
    let mut second = chapitre();
    second.id = "bereshit-2".into();
    second.nombre_de_versets = 25;
    let livre = Livre {
        id: "bereshit".into(),
        titre: "Bereshit".into(),
        francais: "Genèse".into(),
        hebreu: String::new(),
        intro: None,
        chapitres: vec![chapitre(), second],
    };
    assert_eq!(livre.nombre_de_versets(), 28);
    assert!(livre.chapitre("bereshit-3").is_none());
    assert!(Statut::Brouillon.est_provisoire());
    assert!(!Statut::Acheve.est_provisoire());
}

fn entree(id: &str, ecrit: bool) -> EntreeDeLivre {
    EntreeDeLivre {
        id: id.into(),
        titre: id.into(),
        francais: id.into(),
        hebreu: String::new(),
        ecrit,
        unites: 1,
    }
}

#[test]
fn les_livres_ecrits_suivent_les_sections() {
    let ensemble = Ensemble {
        id: "torah".into(),
        titre: "Torah".into(),
        sections: vec![
            Section {
                id: "a".into(),
                titre: "A".into(),
                livres: vec![entree("bereshit", true), entree("shemot", false)],
            },
            Section {
                id: "b".into(),
                titre: "B".into(),
                livres: vec![entree("vayiqra", true)],
            },
        ],
    };
    let ids: Vec<&str> = ensemble.livres_ecrits().iter().map(|l| l.id.as_str()).collect();
    assert_eq!(ids, ["bereshit", "vayiqra"]);
}

#[test]
fn le_compte_des_versets_deborde_en_none() {
    let mut gros = chapitre();
    gros.nombre_de_versets = u32::MAX;
    assert_eq!(ontbible::domaine::corpus::compter_les_versets(&[chapitre(), chapitre()]), Some(6));
    assert_eq!(ontbible::domaine::corpus::compter_les_versets(&[]), Some(0));
    assert_eq!(ontbible::domaine::corpus::compter_les_versets(&[gros, chapitre()]), None);
}
