use ontbible::domaine::selection::{libelle, parametre, versets};

#[test]
fn un_verset_seul() {
    assert_eq!(versets("6"), [6]);
}

#[test]
fn une_etendue() {
    assert_eq!(versets("1-3"), [1, 2, 3]);
}

#[test]
fn des_fragments_qui_se_combinent() {
    assert_eq!(versets("1,4-6"), [1, 4, 5, 6]);
}

#[test]
fn les_doublons_disparaissent_et_l_ordre_est_retabli() {
    assert_eq!(versets("3,1-2,1"), [1, 2, 3]);
}

#[test]
fn des_bornes_inversees_se_lisent_a_l_endroit() {
    assert_eq!(versets("5-3"), [3, 4, 5]);
}

#[test]
fn un_parametre_illisible_ne_designe_rien() {
    for casse in ["", "abc", "-", "1-", "-3", "0", "1;3"] {
        assert!(versets(casse).is_empty(), "« {casse} » devrait ne rien désigner");
    }
}

#[test]
fn un_fragment_casse_n_emporte_pas_les_autres() {
    assert_eq!(versets("2,abc,4"), [2, 4]);
}

#[test]
fn une_etendue_demesuree_est_bornee() {
    let choisis = versets("1-999999999");
    assert_eq!(choisis.len(), 1_001);
    assert_eq!(choisis[0], 1);
}

#[test]
fn ce_qui_est_ecrit_se_relit_a_l_identique() {
    let cas: Vec<Vec<u32>> = vec![
        vec![6],
        vec![1, 2, 3],
        vec![4, 5],
        vec![1, 4, 5, 6],
        vec![1, 3, 5, 7, 9],
        (1..=31).collect(),
        vec![7, 2, 2, 9, 3, 7],
    ];
    for entree in cas {
        let ecrit = parametre(&entree);
        let relu = versets(&ecrit);
        let mut attendu = entree.clone();
        attendu.sort_unstable();
        attendu.dedup();
        assert_eq!(relu, attendu, "« {ecrit} » ne se relit pas comme {attendu:?} mais comme {relu:?}");
    }
}

#[test]
fn les_suites_se_replient_sans_mentir() {
    assert_eq!(parametre(&[1, 2, 3]), "1-3");
    assert_eq!(parametre(&[4, 5]), "4-5", "une paire s'écrit comme le reste");
    assert_eq!(parametre(&[1, 4, 5, 6]), "1,4-6");
    assert_eq!(parametre(&[6]), "6");
    assert_eq!(parametre(&[]), "");

    let entier: Vec<u32> = (1..=31).collect();
    assert_eq!(parametre(&entier), "1-31");
    assert!(parametre(&entier).len() < 8, "un chapitre entier doit tenir en quelques signes");
}

#[test]
fn l_ordre_de_saisie_ne_change_rien() {
    assert_eq!(parametre(&[3, 1, 2]), parametre(&[1, 2, 3]));
    assert_eq!(parametre(&[6, 4, 5, 1]), "1,4-6");
    assert_eq!(parametre(&[2, 2, 2]), "2");
}

#[test]
fn le_libelle_et_l_adresse_disent_le_meme_ensemble() {
    let cas: Vec<Vec<u32>> = vec![
        vec![6],
        vec![4, 5],
        vec![1, 2, 3],
        vec![1, 4, 5, 6],
        vec![1, 3, 5, 7],
        (1..=31).collect(),
    ];
    for entree in cas {
        let adresse = parametre(&entree);
        let lisible = libelle(&entree);
        assert_eq!(lisible.replace(' ', ""), adresse, "« {lisible} » et « {adresse} » ne groupent pas pareil");
        assert_eq!(versets(&adresse), versets(&lisible.replace(' ', "")));
    }
}

#[test]
fn la_virgule_prend_son_espace_dans_le_libelle_seulement() {
    assert_eq!(libelle(&[1, 4, 5, 6]), "1, 4-6");
    assert_eq!(parametre(&[1, 4, 5, 6]), "1,4-6");
    assert_eq!(libelle(&[4, 5]), "4-5", "une paire n'a pas de virgule");
    assert_eq!(libelle(&[6]), "6", "un verset seul n'a pas de virgule");
    assert!(!parametre(&[1, 4, 5, 6]).contains(' '), "une adresse ne porte jamais d'espace");
}

#[test]
fn imprimer_un_lien_reel() {
    for cas in [vec![1u32, 2, 3, 7], vec![6], vec![4, 5], vec![7, 2, 1, 3, 7]] {
        println!(
            "  {:?} → https://ontbible.com/fr/lire/bereshit/bereshit-1?v={}  ({})",
            cas,
            parametre(&cas),
            libelle(&cas)
        );
    }
}

#[test]
fn les_blancs_et_le_plus_se_lisent_comme_la_bibliotheque_standard() {
    assert_eq!(versets(" 2 , 4 - 6 "), [2, 4, 5, 6]);
    assert_eq!(versets("+7"), [7]);
    assert_eq!(versets("0-2"), [1, 2]);
    assert_eq!(versets("4294967295"), [4294967295]);
    assert!(versets("4294967296").is_empty());
}

#[test]
fn une_suite_trop_longue_ne_se_relit_pas_entiere() {
    let longue: Vec<u32> = (1..=1002).collect();
    assert_eq!(parametre(&longue), "1-1002");
    assert_eq!(versets(&parametre(&longue)).len(), 1001);
}
