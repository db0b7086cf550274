use ontbible::domaine::recherche::{juger, mot_entier, Niveau, Portee};

fn juge(corps: &str, aiguille: &str) -> Vec<(Niveau, i32)> {
    juger(corps, "", "", &[], false, aiguille, None, None, Portee::Partout)
}

#[test]
fn un_mot_entier_pese_plus_qu_un_fragment() {
    let entier = juge("la lumiere", "lumiere")[0].1;
    let fragment = juge("les lumieres", "lumiere")[0].1;
    assert!(entier > fragment, "« lumiere » dans « la lumiere » doit devancer « lumieres »");
}

#[test]
fn un_debut_de_texte_pese_plus_qu_un_milieu() {
    assert!(juge("bara elohim", "bara")[0].1 > juge("elohim bara", "bara")[0].1);
}

#[test]
fn le_bareme_est_celui_de_l_app() {
    assert_eq!(juge("bara elohim", "bara"), vec![(Niveau::Corps, 400)]);
    assert_eq!(juge("elohim bara ciel", "bara"), vec![(Niveau::Corps, 340)]);
    assert_eq!(juge("elohim barasse", "bara"), vec![(Niveau::Corps, 300)]);
}

#[test]
fn un_titre_devance_un_corps_egal() {
    let titre = juger("bara", "", "", &[], true, "bara", None, None, Portee::Partout)[0].1;
    assert_eq!(titre, 400 + 30);
}

#[test]
fn la_glose_repond_moins_fort_que_le_texte() {
    let deux = juger("bara", "commencer", "", &[], false, "bara", None, None, Portee::Partout);
    assert_eq!(deux.len(), 1, "la glose ne contient pas l'aiguille");
    let glose = juger("", "bara", "", &[], false, "bara", None, None, Portee::Partout);
    assert_eq!(glose, vec![(Niveau::Glose, 150)]);
}

#[test]
fn une_portee_ecarte_vraiment_ce_qu_elle_exclut() {
    let corps_seul = juger("bara", "bara", "", &[], false, "bara", None, None, Portee::Corps);
    assert!(corps_seul.iter().all(|(n, _)| *n == Niveau::Corps));
    let gloses_seules = juger("bara", "bara", "", &[], false, "bara", None, None, Portee::Gloses);
    assert!(gloses_seules.iter().all(|(n, _)| *n == Niveau::Glose));
}

#[test]
fn le_lemme_ne_double_pas_une_trouvaille_du_texte() {
    let lemmes = vec!["bara".to_string()];
    let dans_le_texte = juger("bara elohim", "", "", &lemmes, false, "bara", None, Some("bara"), Portee::Partout);
    assert_eq!(dans_le_texte.len(), 1);

    let hors_du_texte = juger("au commencement", "", "", &lemmes, false, "bara", None, Some("bara"), Portee::Partout);
    assert_eq!(hors_du_texte, vec![(Niveau::Corps, 100)]);
}

#[test]
fn une_requete_hebraique_ne_regarde_que_l_hebreu() {
    let trouve = juger("bara", "", "ברא אלהים", &[], false, "bara", Some("ברא"), None, Portee::Partout);
    assert_eq!(trouve, vec![(Niveau::Corps, 500)]);

    let absent = juger("bara", "", "אלהים", &[], false, "bara", Some("ברא"), None, Portee::Partout);
    assert!(absent.is_empty(), "le corps ne doit pas rattraper l'hébreu");
}

#[test]
fn une_lettre_accentuee_est_une_lettre() {
    assert!(!mot_entier("etre", 0, 3));
    assert!(mot_entier("ete", 0, 3));
}

#[test]
fn un_mot_entier_se_compte_en_caracteres() {
    assert!(!mot_entier("éte", 1, 2));
    assert!(mot_entier("é te", 2, 2));
}

#[test]
fn la_cle_de_portee_se_relit() {
    for p in Portee::toutes() {
        assert_eq!(Portee::depuis_cle(p.cle()), p);
    }
    assert_eq!(Portee::depuis_cle("ailleurs"), Portee::Partout);
    assert_eq!(Portee::default(), Portee::Partout);
    assert_eq!(Portee::Gloses.libelle(), "Dans les gloses");
}

#[test]
fn une_lettre_accentuee_colle_au_mot() {
    assert_eq!(juge("élumiere", "lumiere"), vec![(Niveau::Corps, 300)]);
    assert_eq!(juge("-lumiere", "lumiere"), vec![(Niveau::Corps, 340)]);
}

#[test]
fn le_lemme_ne_repond_pas_dans_les_gloses() {
    let lemmes = vec!["bara".to_string()];
    let gloses = juger("au commencement", "", "", &lemmes, false, "bara", None, Some("bara"), Portee::Gloses);
    assert!(gloses.is_empty());
    let corps = juger("au commencement", "", "", &lemmes, false, "bara", None, Some("bara"), Portee::Corps);
    assert_eq!(corps, vec![(Niveau::Corps, 100)]);
    assert_eq!(
        juger("bara", "bara", "", &[], false, "bara", None, None, Portee::Corps),
        vec![(Niveau::Corps, 400)]
    );
    assert_eq!(
        juger("bara", "bara", "", &[], false, "bara", None, None, Portee::Gloses),
        vec![(Niveau::Glose, 150)]
    );
}
