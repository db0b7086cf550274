use ontbible::application::ports::ErreurDeCompte;
use ontbible::domaine::compte::Fournisseur;
use ontbible::infrastructure::comptes::Pkce;
use ontbible::interface::compte::{
    adresse_de_retour, aller, aller_avec, apres_ouverture, cookie, cookie_efface, encoder,
    identifiant_client, lire_cookie, partir, retour, Etape, COOKIE_ALLER, COOKIE_SESSION,
};
use ontbible::interface::compte_public::disponible;

#[test]
fn la_page_et_la_route_s_accordent_sur_les_fournisseurs() {
    for f in Fournisseur::tous() {
        assert_eq!(
            disponible(f),
            identifiant_client(f).is_some(),
            "{} : la page et la route ne disent pas la même chose",
            f.nom()
        );
    }
}

#[test]
fn le_cookie_porte_les_quatre_attributs_qui_comptent() {
    let c = cookie("x", "y", 60);
    for attendu in ["HttpOnly", "Secure", "SameSite=Lax", "Path=/"] {
        assert!(c.contains(attendu), "« {attendu} » manque à {c}");
    }
}

#[test]
fn effacer_repose_les_memes_attributs() {
    let e = cookie_efface(COOKIE_SESSION);
    assert!(e.contains("Max-Age=0"));
    for attendu in ["HttpOnly", "Secure", "SameSite=Lax", "Path=/"] {
        assert!(e.contains(attendu), "« {attendu} » manque à {e}");
    }
}

#[test]
fn on_relit_le_cookie_qu_on_cherche() {
    let entete = "autre=1; ont_session=abc; encore=2";
    assert_eq!(lire_cookie(entete, COOKIE_SESSION).as_deref(), Some("abc"));
    assert_eq!(lire_cookie(entete, "absent"), None);
}

#[test]
fn l_adresse_de_retour_est_absolue() {
    let r = adresse_de_retour();
    assert!(r.starts_with("https://"), "{r}");
    assert!(r.ends_with("/fr/compte/retour"), "{r}");
    assert!(!r.contains("//fr"), "double barre : {r}");
}

#[test]
fn l_encodage_protege_ce_qui_casse_une_adresse() {
    assert_eq!(encoder("a b"), "a%20b");
    assert_eq!(encoder("https://x/y"), "https%3A%2F%2Fx%2Fy");
    assert_eq!(encoder("openid email"), "openid%20email");
    assert_eq!(encoder("Aa0-_.~"), "Aa0-_.~", "les signes sûrs passent tels quels");
}

#[test]
fn le_cookie_a_la_forme_exacte() {
    assert_eq!(
        cookie("ont_session", "v", 60),
        "ont_session=v; Max-Age=60; Path=/; HttpOnly; Secure; SameSite=Lax"
    );
    assert_eq!(
        cookie_efface("ont_aller"),
        "ont_aller=; Max-Age=0; Path=/; HttpOnly; Secure; SameSite=Lax"
    );
}

#[test]
fn un_non_ascii_s_encode_octet_par_octet() {
    assert_eq!(encoder("é"), "%C3%A9");
    assert_eq!(encoder(""), "");
}

#[test]
fn le_premier_cookie_du_nom_l_emporte() {
    assert_eq!(lire_cookie("a=1;a=2", "a").as_deref(), Some("1"));
    assert_eq!(lire_cookie("  a=x=y  ", "a").as_deref(), Some("x=y"));
    assert_eq!(lire_cookie("ab=1", "a"), None);
}

#[test]
fn un_fournisseur_inconnu_renvoie_a_la_page() {
    let r = aller("facebook");
    assert_eq!(r.vers, "/fr/compte?erreur=fournisseur");
    assert!(r.cookies.is_empty());
}

#[test]
fn un_fournisseur_sans_identifiant_est_indisponible() {
    let r = aller("github");
    assert_eq!(r.vers, "/fr/compte?erreur=indisponible");
    assert!(r.cookies.is_empty());
}

#[test]
fn l_aller_vers_google_porte_le_defi() {
    let r = aller("google");
    assert!(r.vers.starts_with("https://accounts.google.com/o/oauth2/v2/auth?client_id="));
    assert!(r.vers.contains("&code_challenge_method=S256"));
    assert!(r.vers.contains("&redirect_uri=https%3A%2F%2F"));
    assert_eq!(r.cookies.len(), 1);
    assert!(r.cookies[0].starts_with("ont_aller=google|"));
    assert!(r.cookies[0].contains("Max-Age=600"));
}

#[test]
fn l_aller_vers_apple_se_passe_du_defi() {
    let pkce = Pkce { verificateur: "v".into(), defi: "d".into() };
    let r = aller_avec(Fournisseur::Apple, "svc", &pkce);
    assert!(r.vers.starts_with("https://appleid.apple.com/auth/authorize?client_id=svc&"));
    assert!(!r.vers.contains("code_challenge"));
    assert_eq!(
        r.cookies,
        vec!["ont_aller=apple|v; Max-Age=600; Path=/; HttpOnly; Secure; SameSite=Lax".to_string()]
    );
}

#[test]
fn l_adresse_d_autorisation_a_la_forme_exacte() {
    let pkce = Pkce { verificateur: "v".into(), defi: "d+/".into() };
    let r = aller_avec(Fournisseur::Google, "c", &pkce);
    let attendu = format!(
        "https://accounts.google.com/o/oauth2/v2/auth?client_id=c&redirect_uri={}&response_type=code&scope=openid%20email&code_challenge=d%2B%2F&code_challenge_method=S256",
        encoder(&adresse_de_retour())
    );
    assert_eq!(r.vers, attendu);
}

#[test]
fn un_refus_du_fournisseur_renvoie_a_la_page() {
    match retour(true, Some("c"), None) {
        Etape::Rediriger(r) => {
            assert_eq!(r.vers, "/fr/compte?erreur=refus");
            assert_eq!(r.cookies, vec![cookie_efface(COOKIE_ALLER)]);
        }
        autre => panic!("{autre:?}"),
    }
}

#[test]
fn un_retour_sans_code_est_une_reponse_inattendue() {
    match retour(false, None, Some("ont_aller=google|v")) {
        Etape::Rediriger(r) => assert_eq!(r.vers, "/fr/compte?erreur=reponse"),
        autre => panic!("{autre:?}"),
    }
}

#[test]
fn un_retour_sans_cookie_d_aller_a_expire() {
    match retour(false, Some("c"), Some("autre=1")) {
        Etape::Rediriger(r) => {
            assert_eq!(r.vers, "/fr/compte?erreur=expire");
            assert!(r.cookies.is_empty());
        }
        autre => panic!("{autre:?}"),
    }
}

#[test]
fn un_cookie_d_aller_illisible_a_expire() {
    match retour(false, Some("c"), Some("ont_aller=google")) {
        Etape::Rediriger(r) => {
            assert_eq!(r.vers, "/fr/compte?erreur=expire");
            assert_eq!(r.cookies.len(), 1);
        }
        autre => panic!("{autre:?}"),
    }
    match retour(false, Some("c"), Some("ont_aller=myspace|v")) {
        Etape::Rediriger(r) => assert_eq!(r.vers, "/fr/compte?erreur=fournisseur"),
        autre => panic!("{autre:?}"),
    }
}

#[test]
fn un_retour_complet_ouvre_la_session() {
    assert_eq!(
        retour(false, Some("code"), Some("x=1; ont_aller=google|verif")),
        Etape::Ouvrir {
            fournisseur: Fournisseur::Google,
            code: "code".into(),
            verificateur: Some("verif".into())
        }
    );
    assert_eq!(
        retour(false, Some("code"), Some("ont_aller=apple|")),
        Etape::Ouvrir { fournisseur: Fournisseur::Apple, code: "code".into(), verificateur: None }
    );
}

#[test]
fn une_session_ouverte_pose_son_cookie() {
    let r = apres_ouverture(Ok("{\"a\":1}".to_string()));
    assert_eq!(r.vers, "/fr/compte");
    assert_eq!(r.cookies[0], cookie_efface(COOKIE_ALLER));
    assert_eq!(r.cookies[1], cookie(COOKIE_SESSION, "%7B%22a%22%3A1%7D", 5_184_000));
}

#[test]
fn chaque_erreur_a_son_mot() {
    assert_eq!(apres_ouverture(Err(ErreurDeCompte::Refuse)).vers, "/fr/compte?erreur=refus");
    assert_eq!(
        apres_ouverture(Err(ErreurDeCompte::Indisponible)).vers,
        "/fr/compte?erreur=indisponible"
    );
    assert_eq!(
        apres_ouverture(Err(ErreurDeCompte::ContratRompu("x".into()))).vers,
        "/fr/compte?erreur=interne"
    );
}

#[test]
fn partir_efface_la_session() {
    let r = partir();
    assert_eq!(r.vers, "/fr");
    assert_eq!(r.cookies, vec![cookie_efface(COOKIE_SESSION)]);
}

#[test]
fn effacer_repose_le_meme_cookie_vide_et_perime() {
    assert_eq!(cookie_efface(COOKIE_SESSION), cookie(COOKIE_SESSION, "", 0));
    assert_eq!(cookie_efface(COOKIE_ALLER), cookie(COOKIE_ALLER, "", 0));
}

#[test]
fn le_retour_relit_l_aller() {
    for f in Fournisseur::tous() {
        let pkce = Pkce::neuf();
        let aller = aller_avec(f, "client", &pkce);
        // Le navigateur renvoie la paire nom=valeur, sans les attributs.
        let entete = aller.cookies[0].split(';').next().unwrap().to_string();
        let attendu = Etape::Ouvrir {
            fournisseur: f,
            code: "le-code".into(),
            verificateur: if f.exige_pkce() { Some(pkce.verificateur.clone()) } else { None },
        };
        assert_eq!(retour(false, Some("le-code"), Some(&entete)), attendu);
        let parmi_d_autres = format!("x=1; {entete}; y=2");
        assert_eq!(retour(false, Some("le-code"), Some(&parmi_d_autres)), attendu);
    }
}
