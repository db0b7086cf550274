use ontbible::domaine::recherche::{Niveau, Portee, PLAFOND};
use ontbible::infrastructure::recherche::{chercher, est_hebreu, Enregistrement};

fn enregistrement(unite: &str, verset: u32, corps: &str, glose: &str) -> Enregistrement {
    Enregistrement {
        livre: "bereshit".into(),
        unite: unite.into(),
        verset,
        extrait: corps.into(),
        corps: corps.into(),
        glose: glose.into(),
        hebreu: String::new(),
        lemmes: Vec::new(),
        est_titre: false,
    }
}

/// Un petit index, dans la forme que le pipeline produit : les textes y sont
/// déjà pliés.
fn index() -> Vec<Enregistrement> {
    vec![
        enregistrement("bereshit-1", 1, "quand elohim commenca les cieux et la terre", "le commencement"),
        enregistrement("bereshit-1", 2, "et la terre etait l'etat sans ordre", "tohu"),
        enregistrement("bereshit-2", 4, "voici les engendrements des cieux et de la terre", ""),
        enregistrement("bereshit-3", 1, "terre de la terre", "il commenca a parler"),
        enregistrement("bereshit-4", 2, "les terres lointaines", ""),
    ]
}

#[test]
fn une_lettre_ne_cherche_pas() {
    let i = index();
    assert!(chercher("a", "a", "", Portee::Partout, &i).is_empty());
    assert!(chercher(" ", "", "", Portee::Partout, &i).is_empty());
}

#[test]
fn un_accent_ne_change_pas_le_resultat() {
    let i = index();
    let sans = chercher("etat", "etat", "", Portee::Partout, &i).len();
    let avec = chercher("état", "etat", "", Portee::Partout, &i).len();
    assert_eq!(sans, avec, "« etat » et « état » doivent trouver pareil");
    assert!(sans > 0, "le corpus porte « l'état sans ordre »");
}

#[test]
fn les_meilleurs_viennent_d_abord() {
    let i = index();
    let trouves = chercher("terre", "terre", "", Portee::Partout, &i);
    assert!(trouves.len() > 1);
    for paire in trouves.windows(2) {
        assert!(paire[0].points >= paire[1].points, "le classement doit décroître");
    }
}

#[test]
fn chercher_dans_les_gloses_ne_rend_que_des_gloses() {
    let i = index();
    let gloses = chercher("commenc", "commenc", "", Portee::Gloses, &i);
    assert!(!gloses.is_empty());
    assert!(
        gloses.iter().all(|t| t.niveau == Niveau::Glose),
        "une trouvaille de corps a survécu à la portée « gloses »"
    );
}

#[test]
fn le_plafond_est_tenu() {
    let beaucoup: Vec<Enregistrement> = (0..400)
        .map(|n| enregistrement(&format!("unite-{n}"), 1, "des especes", ""))
        .collect();
    let trouves = chercher("es", "es", "", Portee::Partout, &beaucoup);
    assert!(trouves.len() <= PLAFOND);
    assert_eq!(trouves.len(), PLAFOND);
}

#[test]
fn a_egalite_l_unite_decide() {
    let i = vec![
        enregistrement("b", 1, "terre", ""),
        enregistrement("a", 1, "terre", ""),
    ];
    let trouves = chercher("terre", "terre", "", Portee::Partout, &i);
    assert_eq!(trouves.len(), 2);
    assert_eq!(trouves[0].unite_id, "a");
    assert_eq!(trouves[1].unite_id, "b");
}

#[test]
fn une_trouvaille_porte_sa_reference() {
    let i = index();
    let trouves = chercher("tohu", "tohu", "", Portee::Partout, &i);
    assert_eq!(trouves.len(), 1);
    assert_eq!(trouves[0].unite_id, "bereshit-1");
    assert_eq!(trouves[0].verset, 2);
    assert_eq!(trouves[0].niveau, Niveau::Glose);
    assert_eq!(trouves[0].extrait, "et la terre etait l'etat sans ordre");
}

#[test]
fn l_hebreu_se_reconnait_a_son_bloc() {
    assert!(est_hebreu("בראשית"));
    assert!(est_hebreu("x א"));
    assert!(!est_hebreu("bereshit"));
    assert!(!est_hebreu(""));
}

#[test]
fn un_lemme_seul_ne_passe_pas_la_portee_des_gloses() {
    let mut i = index();
    i[2].lemmes = vec!["toledot".to_string()];
    assert!(chercher("toledot", "toledot", "", Portee::Gloses, &i).is_empty());
    let partout = chercher("toledot", "toledot", "", Portee::Partout, &i);
    assert_eq!(partout.len(), 1);
    assert_eq!(partout[0].niveau, Niveau::Corps);
    assert_eq!(partout[0].points, 100);
    let corps = chercher("terre", "terre", "", Portee::Corps, &i);
    assert!(!corps.is_empty());
    assert!(corps.iter().all(|t| t.niveau == Niveau::Corps));
}
