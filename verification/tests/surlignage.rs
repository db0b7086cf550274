use ontbible::domaine::surlignage::{fusionner, l_entrant_gagne, Couleur, Surlignage};

fn marque(chapitre: &str, verset: u32, couleur: &str, quand: i64) -> Surlignage {
    Surlignage {
        id: format!("{chapitre}-{verset}"),
        book_id: "bereshit".into(),
        chapter_id: chapitre.into(),
        verse: verset,
        color: couleur.into(),
        note: None,
        updated_at: quand,
        deleted: false,
    }
}

#[test]
fn les_cles_de_couleur_sont_celles_de_l_app() {
    for c in Couleur::toutes() {
        assert_eq!(Couleur::depuis_cle(c.cle()), Some(c));
        assert!(c.teinte().starts_with('#') && c.teinte().len() == 7, "{}", c.teinte());
    }
    assert_eq!(Couleur::depuis_cle("turquoise"), None);
}

#[test]
fn deux_identifiants_sur_un_meme_verset_ne_font_qu_une_marque() {
    let mut locaux = vec![marque("bereshit-1", 3, "gold", 100)];
    let autre = Surlignage {
        id: "identifiant-tout-neuf".into(),
        ..marque("bereshit-1", 3, "sky", 200)
    };
    fusionner(&mut locaux, vec![autre]);

    assert_eq!(locaux.len(), 1, "le verset 3 ne porte qu'une marque");
    assert_eq!(locaux[0].color, "sky", "la plus récente l'emporte");
}

#[test]
fn le_plus_recent_gagne_et_l_egalite_garde_l_existant() {
    let mut locaux = vec![marque("bereshit-1", 1, "gold", 500)];
    fusionner(&mut locaux, vec![marque("bereshit-1", 1, "rose", 400)]);
    assert_eq!(locaux[0].color, "gold", "un plus ancien ne remplace pas");

    fusionner(&mut locaux, vec![marque("bereshit-1", 1, "olive", 500)]);
    assert_eq!(locaux[0].color, "gold", "à égalité, l'existant reste");

    fusionner(&mut locaux, vec![marque("bereshit-1", 1, "violet", 501)]);
    assert_eq!(locaux[0].color, "violet", "une milliseconde suffit");
}

#[test]
fn une_pierre_tombale_traverse_mais_ne_se_dessine_pas() {
    let mut locaux = vec![marque("bereshit-1", 5, "gold", 100)];
    let effacee = Surlignage {
        deleted: true,
        ..marque("bereshit-1", 5, "gold", 200)
    };
    fusionner(&mut locaux, vec![effacee]);

    assert_eq!(locaux.len(), 1, "elle reste dans l'état — c'est ce qui propage");
    assert!(!locaux[0].visible(), "mais elle ne se dessine pas");
}

#[test]
fn des_versets_differents_cohabitent() {
    let mut locaux = vec![marque("bereshit-1", 1, "gold", 100)];
    fusionner(
        &mut locaux,
        vec![marque("bereshit-1", 2, "sky", 100), marque("bereshit-2", 1, "rose", 100)],
    );
    assert_eq!(locaux.len(), 3);
}

#[test]
fn une_couleur_inconnue_ne_fait_pas_echouer_la_ligne() {
    let m = marque("bereshit-1", 2, "turquoise", 100);
    assert_eq!(m.couleur(), None);
    assert!(!m.visible());
    let mut locaux = vec![marque("bereshit-1", 1, "gold", 100)];
    fusionner(&mut locaux, vec![m.clone()]);
    assert_eq!(locaux[1], m, "elle doit repartir telle quelle");
    assert!(marque("bereshit-1", 2, "rose", 100).visible());
}

#[test]
fn la_cle_de_fusion_est_le_verset() {
    let m = marque("bereshit-1", 7, "gold", 1);
    assert_eq!(m.cle(), ("bereshit-1".to_string(), 7));
}

#[test]
fn l_entrant_gagne_strictement() {
    let serveur = marque("bereshit-1", 1, "gold", 500);
    assert!(!l_entrant_gagne(&serveur, &marque("bereshit-1", 1, "sky", 500)));
    assert!(l_entrant_gagne(&serveur, &marque("bereshit-1", 1, "sky", 501)));
}

#[test]
fn rejouer_une_synchronisation_ne_change_rien() {
    let entrants = vec![
        marque("bereshit-1", 1, "sky", 300),
        marque("bereshit-1", 1, "rose", 300),
        marque("bereshit-2", 4, "olive", 50),
    ];
    let mut une_fois = vec![marque("bereshit-1", 1, "gold", 200), marque("bereshit-2", 4, "gold", 900)];
    fusionner(&mut une_fois, entrants.clone());
    let mut deux_fois = une_fois.clone();
    fusionner(&mut deux_fois, entrants);
    assert_eq!(une_fois, deux_fois);
    assert_eq!(une_fois[0].color, "sky");
    assert_eq!(une_fois[1].color, "gold");
}

#[test]
fn les_noms_sont_ceux_des_lecteurs_d_ecran() {
    let noms: Vec<&str> = Couleur::toutes().iter().map(|c| c.nom()).collect();
    assert_eq!(noms, ["Or", "Olive", "Ciel", "Rose", "Violet"]);
}
