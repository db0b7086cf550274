use ontbible::api::{
    dto_du_livre, dto_du_verset, marques, percent_decode, resume, session_du_cookie,
    versets_choisis, visibles_de_l_unite, voisins, EtatDuCompte,
};
use ontbible::domaine::corpus::{Bloc, Chapitre, Entree, Livre, SousTitre, Statut};
use ontbible::domaine::surlignage::Surlignage;
use ontbible::domaine::texte::{Noeud, Verset};
use ontbible::domaine::vivier::VersetQuotidien;
use ontbible::interface::compte::encoder;

fn verset(numero: u32) -> Verset {
    Verset { numero, noeuds: vec![Noeud::Texte(format!("verset {numero}"))] }
}

fn unite(id: &str, numero: u32, versets: u32) -> Chapitre {
    Chapitre {
        id: id.into(),
        livre: "bereshit".into(),
        numero,
        titre: format!("Titre {id}"),
        sous_titre: None,
        statut: Statut::Acheve,
        blocs: vec![Bloc::Versets((1..=versets).map(verset).collect())],
        notes: vec![],
        nombre_de_versets: versets,
    }
}

fn livre(avec_intro: bool) -> Livre {
    let mut intro = unite("bereshit-intro", 0, 0);
    intro.statut = Statut::Brouillon;
    intro.sous_titre = Some(SousTitre {
        francais: "Avant".into(),
        hebreu: String::new(),
        reference: Some("Ber 0".into()),
    });
    Livre {
        id: "bereshit".into(),
        titre: "Bereshit".into(),
        francais: "Genèse".into(),
        hebreu: String::new(),
        intro: if avec_intro { Some(intro) } else { None },
        chapitres: vec![unite("bereshit-1", 1, 31), unite("bereshit-2", 2, 25), unite("bereshit-3", 3, 24)],
    }
}

#[test]
fn ce_qui_est_encode_se_decode() {
    for s in ["a b", "https://x/y?z=1&w=2", "élohim", "", "100%", "{\"jeton\":\"a.b\"}"] {
        assert_eq!(percent_decode(&encoder(s)), s);
    }
}

#[test]
fn un_pourcent_sans_deux_chiffres_reste_tel_quel() {
    assert_eq!(percent_decode("%zz"), "%zz");
    assert_eq!(percent_decode("%4"), "%4");
    assert_eq!(percent_decode("%"), "%");
    assert_eq!(percent_decode("%41%42"), "AB");
    assert_eq!(percent_decode("%+F"), "\u{f}");
}

#[test]
fn un_octet_invalide_devient_le_signe_de_remplacement() {
    assert_eq!(percent_decode("%FF"), "\u{FFFD}");
    assert_eq!(percent_decode("%C3%A9"), "é");
}

#[test]
fn la_session_se_lit_dans_son_cookie() {
    assert_eq!(
        session_du_cookie("autre=1; ont_session=%7B%22a%22%3A1%7D").as_deref(),
        Some("{\"a\":1}")
    );
    assert_eq!(session_du_cookie("autre=1"), None);
    assert!(!EtatDuCompte::default().connecte);
}

#[test]
fn le_verset_du_jour_voyage_avec_son_chemin() {
    let v = VersetQuotidien {
        livre: "bereshit".into(),
        unite: "bereshit-1".into(),
        numero: 3,
        renvoi: "Bereshit 1:3".into(),
        texte: "Et Elohim dit".into(),
    };
    let dto = dto_du_verset(&v);
    assert_eq!(dto.renvoi, "Bereshit 1:3");
    assert_eq!(dto.texte, "Et Elohim dit");
    assert_eq!(dto.chemin, "/fr/lire/bereshit/bereshit-1?v=3");
}

#[test]
fn l_introduction_vient_en_tete_du_livre() {
    let dto = dto_du_livre(&livre(true));
    let ids: Vec<&str> = dto.unites.iter().map(|u| u.id.as_str()).collect();
    assert_eq!(ids, ["bereshit-intro", "bereshit-1", "bereshit-2", "bereshit-3"]);
    assert_eq!(dto.versets, 80);
    assert!(dto.unites[0].brouillon);
    assert_eq!(dto.unites[0].reference.as_deref(), Some("Ber 0"));
    assert!(!dto.unites[1].brouillon);
    assert_eq!(dto.unites[2].versets, 25);
}

#[test]
fn les_voisins_suivent_l_ordre_de_lecture() {
    let l = livre(true);
    let (avant, apres) = voisins(&l, "bereshit", "bereshit-1");
    assert_eq!(avant.unwrap().chemin, "/fr/lire/bereshit/bereshit-intro");
    let apres = apres.unwrap();
    assert_eq!(apres.chemin, "/fr/lire/bereshit/bereshit-2");
    assert_eq!(apres.numero, 2);

    let (avant, apres) = voisins(&l, "bereshit", "bereshit-intro");
    assert!(avant.is_none());
    assert_eq!(apres.unwrap().titre, "Titre bereshit-1");

    let (avant, apres) = voisins(&l, "bereshit", "bereshit-3");
    assert_eq!(avant.unwrap().numero, 2);
    assert!(apres.is_none());

    let (avant, apres) = voisins(&l, "bereshit", "bereshit-9");
    assert!(avant.is_none() && apres.is_none());
}

#[test]
fn les_versets_choisis_suivent_la_demande() {
    let c = unite("bereshit-1", 1, 5);
    let choisis: Vec<u32> = versets_choisis(&c, &[4, 2, 9]).iter().map(|v| v.numero).collect();
    assert_eq!(choisis, [4, 2]);
    assert!(versets_choisis(&c, &[]).is_empty());
}

#[test]
fn le_resume_d_une_fiche() {
    let e = Entree {
        lemme: "elohim".into(),
        titre: "Elohim".into(),
        hebreu: "אֱלֹהִים".into(),
        rendu: "Puissances".into(),
        formes: vec![],
        definition: vec![],
    };
    let r = resume(&e);
    assert_eq!(r.lemme, "elohim");
    assert_eq!(r.rendu, "Puissances");
}

fn surlignage(unite: &str, verset: u32, couleur: &str, efface: bool) -> Surlignage {
    Surlignage {
        id: format!("{unite}-{verset}"),
        book_id: "bereshit".into(),
        chapter_id: unite.into(),
        verse: verset,
        color: couleur.into(),
        note: None,
        updated_at: 1,
        deleted: efface,
    }
}

#[test]
fn seuls_les_surlignages_visibles_de_l_unite_se_dessinent() {
    let tous = vec![
        surlignage("bereshit-1", 1, "gold", false),
        surlignage("bereshit-2", 1, "gold", false),
        surlignage("bereshit-1", 2, "gold", true),
        surlignage("bereshit-1", 3, "turquoise", false),
        surlignage("bereshit-1", 4, "rose", false),
    ];
    let visibles: Vec<u32> = visibles_de_l_unite(tous, "bereshit-1").iter().map(|s| s.verse).collect();
    assert_eq!(visibles, [1, 4]);
}

#[test]
fn une_marque_par_verset_choisi() {
    let m = marques("bereshit", "bereshit-1", &[3, 5], Some("sky"), Some("  ici "), 42);
    assert_eq!(m.len(), 2);
    assert_eq!(m[0].id, "bereshit-1-3");
    assert_eq!(m[1].id, "bereshit-1-5");
    assert_eq!(m[0].color, "sky");
    assert_eq!(m[0].note.as_deref(), Some("  ici "));
    assert_eq!(m[0].updated_at, 42);
    assert!(!m[0].deleted);
}

#[test]
fn effacer_pose_une_pierre_tombale_en_or() {
    let m = marques("bereshit", "bereshit-1", &[7], None, Some("   "), 9);
    assert_eq!(m[0].color, "gold");
    assert!(m[0].deleted);
    assert_eq!(m[0].note, None);
}

#[test]
fn la_session_posee_se_relit() {
    for s in ["{\"access_token\":\"a.b; c\",\"created\":1}", "", "é = ; %"] {
        let pose = ontbible::interface::compte::apres_ouverture(Ok(s.to_string()));
        let paire = pose.cookies[1].split(';').next().unwrap().to_string();
        assert_eq!(session_du_cookie(&paire).as_deref(), Some(s));
        let parmi_d_autres = format!("ont_aller=x; {paire}");
        assert_eq!(session_du_cookie(&parmi_d_autres).as_deref(), Some(s));
    }
}
