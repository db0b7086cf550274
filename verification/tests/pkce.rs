use ontbible::application::ports::ErreurDeCompte;
use ontbible::domaine::compte::Fournisseur;
use ontbible::infrastructure::comptes::{
    adresse_d_ouverture, adresse_de_renouvellement, adresse_de_tirage, defi_de, issue_de_connexion, issue_de_synchronisation, porteur, Pkce,
};

#[test]
fn le_defi_suit_la_rfc_7636() {
    let verificateur = "dBjftJeZ4CVP-mB92K27uhbUJU1p1r_wW1gFWFOEjXk";
    assert_eq!(defi_de(verificateur), "E9Melhoa2OwvFrEMTJguCHaoeK1t8URWbuGJSstw-cM");
}

#[test]
fn un_verificateur_neuf_est_conforme_et_unique() {
    let a = Pkce::neuf();
    let b = Pkce::neuf();

    assert!(
        (43..=128).contains(&a.verificateur.len()),
        "{} signes, hors des bornes de la RFC",
        a.verificateur.len()
    );
    assert_ne!(a.verificateur, b.verificateur, "deux tirages identiques");
    assert_ne!(a.defi, b.defi);
}

#[test]
fn l_encodage_ne_porte_rien_qui_casse_une_adresse() {
    for _ in 0..32 {
        let p = Pkce::neuf();
        for chaine in [&p.verificateur, &p.defi] {
            assert!(!chaine.contains('='), "remplissage laissé : {chaine}");
            assert!(!chaine.contains('+'), "un + devient une espace : {chaine}");
            assert!(!chaine.contains('/'), "un / ouvre un segment : {chaine}");
        }
    }
}

#[test]
fn le_defi_d_un_verificateur_neuf_est_le_sien() {
    let p = Pkce::neuf();
    assert_eq!(p.verificateur.len(), 128);
    assert_eq!(p.defi.len(), 43);
    assert_eq!(defi_de(&p.verificateur), p.defi);
}

#[test]
fn le_defi_change_avec_le_verificateur() {
    assert_ne!(defi_de("a"), defi_de("b"));
    assert_ne!(defi_de(""), "");
}

#[test]
fn le_porteur_a_la_forme_exacte() {
    let e = porteur("abc.def.ghi");
    assert_eq!(e, "Bearer abc.def.ghi");
    assert!(e.starts_with("Bearer "), "capitale et espace unique");
    assert!(!e.starts_with("bearer"), "le backend est sensible à la casse");
    assert!(!e.contains("  "), "un espace en trop suffit à faire échouer");
}

#[test]
fn l_adresse_de_tirage_porte_l_horodatage() {
    assert_eq!(adresse_de_tirage("https://api", None), "https://api/sync");
    assert_eq!(
        adresse_de_tirage("https://api", Some(1_700_000_000_000)),
        "https://api/sync?since=1700000000000"
    );
    assert_eq!(adresse_de_tirage("r", Some(-5)), "r/sync?since=-5");
}

#[test]
fn un_refus_de_connexion_se_distingue_d_une_panne() {
    assert_eq!(issue_de_connexion(200), None);
    assert_eq!(issue_de_connexion(400), Some(ErreurDeCompte::Refuse));
    assert_eq!(issue_de_connexion(401), Some(ErreurDeCompte::Refuse));
    assert_eq!(issue_de_connexion(503), Some(ErreurDeCompte::Indisponible));
    assert_eq!(issue_de_connexion(302), Some(ErreurDeCompte::Indisponible));
}

#[test]
fn seul_le_401_refuse_une_synchronisation() {
    assert_eq!(issue_de_synchronisation(204), None);
    assert_eq!(issue_de_synchronisation(401), Some(ErreurDeCompte::Refuse));
    assert_eq!(issue_de_synchronisation(403), Some(ErreurDeCompte::Indisponible));
    assert_eq!(issue_de_synchronisation(500), Some(ErreurDeCompte::Indisponible));
}

#[test]
fn les_adresses_du_backend() {
    assert_eq!(adresse_d_ouverture("https://api", Fournisseur::Apple), "https://api/auth/apple");
    assert_eq!(adresse_d_ouverture("r", Fournisseur::Github), "r/auth/github");
    assert_eq!(adresse_de_renouvellement("https://api"), "https://api/auth/refresh");
}
