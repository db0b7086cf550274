use ontbible::domaine::profil::Profil;

fn profil(prenom: &str, nom: &str, usage: &str) -> Profil {
    Profil {
        prenom: prenom.into(),
        nom: nom.into(),
        nom_dusage: usage.into(),
        ..Profil::default()
    }
}

#[test]
fn le_nom_complet_devance_le_nom_d_usage() {
    assert_eq!(profil("Gloire", "Bikouta", "sheeliel").nom_de_barre(), "Gloire Bikouta");
    assert_eq!(profil("", "", "sheeliel").nom_de_barre(), "sheeliel");
    assert_eq!(profil("", "", "").nom_de_barre(), "Vous");
}

#[test]
fn un_seul_des_deux_noms_se_lit_sans_blanc() {
    assert_eq!(profil("Gloire", "", "").nom_affiche().as_deref(), Some("Gloire"));
    assert_eq!(profil("", "Bikouta", "").nom_affiche().as_deref(), Some("Bikouta"));
    assert_eq!(profil("", "", "").nom_affiche(), None);
}

#[test]
fn les_initiales_sont_deux_au_plus_et_en_capitales() {
    assert_eq!(profil("gloire", "bikouta", "").initiales(), "GB");
    assert_eq!(profil("Gloire", "", "").initiales(), "G");
    assert_eq!(profil("", "", "").initiales(), "");
    assert_eq!(profil("Élie", "", "").initiales(), "É");
}

#[test]
fn un_profil_neuf_est_vide() {
    assert!(Profil::default().est_vide());
    assert!(!profil("", "", "sheeliel").est_vide());
    assert!(!Profil {
        bio: "Je lis.".into(),
        ..Profil::default()
    }
    .est_vide());
    assert!(Profil {
        bio: "   \n ".into(),
        ..Profil::default()
    }
    .est_vide());
}

#[test]
fn l_arobase_precede_le_nom_d_usage() {
    assert_eq!(profil("", "", "sheeliel").arobase().as_deref(), Some("@sheeliel"));
    assert_eq!(profil("Gloire", "", "").arobase(), None);
}

#[test]
fn un_horodatage_neuf_vaut_zero() {
    assert_eq!(Profil::default().updated_at, 0);
    assert_eq!(Profil::default().portrait, None);
}
