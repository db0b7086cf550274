use ontbible::interface::association::{assetlinks, corps, APP_ID, CHEMINS, EMPREINTES, PAQUET_ANDROID};

#[test]
fn le_corps_est_du_json_conforme() {
    let valeur: serde_json::Value =
        serde_json::from_str(&corps()).expect("le fichier d'association doit être du JSON");

    let details = &valeur["applinks"]["details"][0];
    assert_eq!(details["appIDs"][0], APP_ID);
    assert_eq!(details["components"][0]["/"], CHEMINS);
}

#[test]
fn l_autorisation_android_est_du_json_conforme() {
    let valeur: serde_json::Value =
        serde_json::from_str(&assetlinks()).expect("assetlinks.json doit être du JSON");

    let premier = &valeur[0];
    assert_eq!(
        premier["relation"][0], "delegate_permission/common.handle_all_urls",
        "sans cette relation exacte, Android ignore la déclaration"
    );
    assert_eq!(premier["target"]["namespace"], "android_app");
    assert_eq!(premier["target"]["package_name"], PAQUET_ANDROID);

    let empreintes = premier["target"]["sha256_cert_fingerprints"]
        .as_array()
        .expect("les empreintes doivent être un tableau");
    assert_eq!(empreintes.len(), EMPREINTES.len());
    assert!(!empreintes.is_empty());
}

#[test]
fn les_empreintes_ont_la_forme_attendue() {
    for empreinte in EMPREINTES {
        let octets: Vec<&str> = empreinte.split(':').collect();
        assert_eq!(
            octets.len(),
            32,
            "une empreinte SHA-256 fait 32 octets, celle-ci en a {} : {empreinte}",
            octets.len()
        );
        for octet in octets {
            assert!(
                octet.len() == 2
                    && octet
                        .chars()
                        .all(|c| c.is_ascii_digit() || c.is_ascii_uppercase()),
                "« {octet} » n'est pas un octet hexadécimal majuscule dans {empreinte}"
            );
        }
    }
}

#[test]
fn les_deux_chemins_de_distribution_restent_declares() {
    assert_eq!(EMPREINTES.len(), 2);
    assert!(
        EMPREINTES
            .iter()
            .collect::<std::collections::HashSet<_>>()
            .len()
            == 2
    );
}

#[test]
fn le_corps_d_apple_est_exactement_celui_attendu() {
    assert_eq!(
        corps(),
        r#"{"applinks":{"details":[{"appIDs":["N49VNC2G57.com.labibleont.ONT"],"components":[{"/":"/fr/lire/*"}]}]}}"#
    );
}

#[test]
fn les_empreintes_sortent_dans_leur_ordre() {
    let texte = assetlinks();
    let premiere = texte.find(EMPREINTES[0]).expect("la première empreinte");
    let seconde = texte.find(EMPREINTES[1]).expect("la seconde empreinte");
    assert!(premiere < seconde);
    assert!(texte.starts_with('[') && texte.ends_with(']'));
}
