use ontbible::domaine::corpus::Occurrence;
use ontbible::interface::design::blocs::balise_de_titre;
use ontbible::interface::design::occurrences::{chemin_d_occurrence, compte_d_occurrences};
use ontbible::interface::design::image::{empreinte, image};
use ontbible::interface::design::navigation_de_la_liseuse::{on_y_est, signe};
use ontbible::interface::design::occurrences::{capitaliser, renvoi_lisible};

/// Une table d'empreintes comme la compilation l'engendre, sur des contenus
/// de démonstration.
fn table() -> Vec<(String, String)> {
    vec![
        ("wordmark.svg".to_string(), empreinte(b"<svg id=\"wordmark\"/>")),
        ("logomark.svg".to_string(), empreinte(b"<svg id=\"logomark\"/>")),
    ]
}

fn adresse(nom: &str) -> String {
    let t = table();
    let vues: Vec<(&str, &str)> = t.iter().map(|(a, b)| (a.as_str(), b.as_str())).collect();
    image(nom, &vues)
}

#[test]
fn une_image_connue_porte_son_empreinte() {
    let adresse = adresse("wordmark.svg");
    assert!(adresse.starts_with("/images/wordmark.svg?v="), "{adresse}");
    assert!(
        adresse.len() > "/images/wordmark.svg?v=".len(),
        "empreinte vide : {adresse}"
    );
}

#[test]
fn deux_images_differentes_ont_deux_empreintes() {
    assert_ne!(adresse("wordmark.svg"), adresse("logomark.svg"));
}

#[test]
fn une_image_inconnue_passe_telle_quelle() {
    assert_eq!(adresse("absente.png"), "/images/absente.png");
}

#[test]
fn la_premiere_entree_du_nom_l_emporte() {
    let vues = [("a.svg", "x"), ("a.svg", "y")];
    assert_eq!(image("a.svg", &vues), "/images/a.svg?v=x");
}

#[test]
fn l_empreinte_est_le_hachage_de_la_compilation_en_base_36() {
    assert_eq!(empreinte(b""), "33niihzj4ux45");
    assert_eq!(empreinte(b"a"), "2o1zq2l0k3k3w");
    assert_eq!(empreinte(b"foobar"), "3s4z26a5ihx48");
}

#[test]
fn un_renvoi_de_chapitre_et_de_verset() {
    assert_eq!(renvoi_lisible("bereshit-10", Some(6)), "Bereshit 10:6");
}

#[test]
fn un_renvoi_sans_verset() {
    assert_eq!(renvoi_lisible("bereshit-10", None), "Bereshit 10");
}

#[test]
fn une_introduction_ne_recoit_pas_de_numero_invente() {
    assert_eq!(
        renvoi_lisible("toledot-adam-ve-chavah-0-intro", None),
        "Toledot adam ve chavah 0 intro"
    );
}

#[test]
fn un_livre_a_nom_compose() {
    assert_eq!(renvoi_lisible("sefar-gibbaraya-3", Some(2)), "Sefar gibbaraya 3:2");
}

#[test]
fn un_numero_a_zero_de_tete_se_normalise() {
    assert_eq!(renvoi_lisible("bereshit-007", None), "Bereshit 7");
}

#[test]
fn la_capitale_ne_touche_que_la_premiere_lettre() {
    assert_eq!(capitaliser("élohim dit"), "Élohim dit");
    assert_eq!(capitaliser(""), "");
    assert_eq!(capitaliser("ß"), "SS");
}

#[test]
fn un_prefixe_ne_deborde_pas() {
    assert!(on_y_est("/fr/lire/bereshit", "/fr/lire"));
    assert!(on_y_est("/fr/lire", "/fr/lire"));
    assert!(!on_y_est("/fr/lirent-ils", "/fr/lire"));
    assert!(!on_y_est("/fr/lexique", "/fr/lire"));
}

#[test]
fn la_barre_finale_ne_change_pas_la_destination() {
    assert!(on_y_est("/fr/lire/", "/fr/lire"));
    assert!(on_y_est("/fr/lire///", "/fr/lire"));
}

#[test]
fn un_nom_inconnu_prend_le_signe_du_compte() {
    assert_eq!(signe("loupe"), "M10.5 4a6.5 6.5 0 1 1 0 13 6.5 6.5 0 0 1 0-13Zm5 11.5L20 20");
    assert_eq!(signe("compte"), signe("n'importe"));
    assert_ne!(signe("livre"), signe("lexique"));
}

#[test]
fn le_lien_d_une_occurrence_porte_son_ancre() {
    let mut o = Occurrence {
        livre: "bereshit".into(),
        chapitre: "bereshit-10".into(),
        verset: Some(6),
        forme: "Elohim".into(),
        extrait: "…".into(),
    };
    assert_eq!(chemin_d_occurrence(&o), "/fr/lire/bereshit/bereshit-10?v=6#v6");
    o.verset = None;
    assert_eq!(chemin_d_occurrence(&o), "/fr/lire/bereshit/bereshit-10");
    assert_eq!(compte_d_occurrences(1), "1 occurrence");
    assert_eq!(compte_d_occurrences(0), "0 occurrence");
    assert_eq!(compte_d_occurrences(12), "12 occurrences");
}

#[test]
fn la_balise_d_un_titre_suit_son_niveau() {
    assert_eq!(balise_de_titre(0), "h2");
    assert_eq!(balise_de_titre(2), "h2");
    assert_eq!(balise_de_titre(3), "h3");
    assert_eq!(balise_de_titre(4), "h4");
    assert_eq!(balise_de_titre(255), "h4");
}

#[test]
fn la_capitale_d_une_lettre_ascii() {
    assert_eq!(capitaliser("bereshit"), "Bereshit");
    assert_eq!(capitaliser("1er"), "1er");
}
