use ontbible::domaine::compte::{Fournisseur, Session};

fn session(created: i64, expires_in: i64) -> Session {
    Session {
        access_token: "a".into(),
        refresh_token: "r".into(),
        expires_in,
        created,
    }
}

#[test]
fn les_cles_sont_celles_du_backend() {
    for f in Fournisseur::tous() {
        assert_eq!(Fournisseur::depuis_cle(f.cle()), Some(f));
    }
    assert_eq!(Fournisseur::depuis_cle("facebook"), None);
    assert_eq!(Fournisseur::depuis_cle(""), None);
}

#[test]
fn apple_seul_se_passe_de_pkce() {
    assert!(Fournisseur::Google.exige_pkce());
    assert!(Fournisseur::Github.exige_pkce());
    assert!(!Fournisseur::Apple.exige_pkce(), "le backend dit « absent pour Apple »");
}

#[test]
fn la_marge_perime_avant_l_echeance() {
    let s = session(1_000_000, 3600);
    assert!(!s.perimee(1_000_000), "neuf à la création");
    assert!(!s.perimee(1_000_000 + 3_500_000), "encore bon à 3 500 s");
    assert!(s.perimee(1_000_000 + 3_541_000), "à 59 secondes de l'échéance, on renouvelle déjà");
    assert!(s.perimee(1_000_000 + 3_600_000), "à l'échéance");
    assert!(s.perimee(i64::MAX / 2), "bien après");
}

#[test]
fn une_duree_absurde_perime_tout_de_suite() {
    assert!(session(1_000, 0).perimee(1_000));
    assert!(session(1_000, -3600).perimee(1_000));
}

#[test]
fn l_echeance_est_en_millisecondes() {
    assert_eq!(session(1_000, 3600).fin_ms(), 3_601_000);
    assert_eq!(Fournisseur::Github.nom(), "GitHub");
}

#[test]
fn la_marge_est_d_une_minute_exactement() {
    let s = session(0, 3600);
    assert!(!s.perimee(3_600_000 - 60_001));
    assert!(s.perimee(3_600_000 - 60_000));
}
