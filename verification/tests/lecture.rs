use ontbible::domaine::lecture::{c_est_la_liseuse, corps, preparer, resserrer_texte, Preferences, Theme};
use ontbible::domaine::texte::Noeud;

/// Un verset réel, dans la forme que le pipeline produit : le mot, sa
/// translittération, sa glose, puis la suite de la phrase.
fn verset() -> Vec<Noeud> {
    vec![
        Noeud::Texte("Quand ".into()),
        Noeud::Intraduisible {
            mot: "Elohim".into(),
            lemme: "elohim".into(),
        },
        Noeud::Texte(" ".into()),
        Noeud::Hebreu {
            translitteration: "elohim".into(),
            hebreu: "אֱלֹהִים".into(),
            cible: None,
        },
        Noeud::Texte(" ".into()),
        Noeud::Glose(vec![Noeud::Texte("nom divin laissé intact".into())]),
        Noeud::Texte(" commença à orchestrer".into()),
    ]
}

#[test]
fn par_defaut_rien_n_est_retire() {
    assert_eq!(preparer(&verset(), Preferences::default()), verset());
}

#[test]
fn une_espace_seule_entre_deux_noeuds_survit() {
    let noeuds = vec![
        Noeud::Intraduisible {
            mot: "Elohim".into(),
            lemme: "elohim".into(),
        },
        Noeud::Texte(" ".into()),
        Noeud::Accentuation(vec![Noeud::Texte("Cieux".into())]),
    ];
    assert_eq!(preparer(&noeuds, Preferences::default()), noeuds);
}

#[test]
fn eteindre_les_gloses_ne_touche_pas_au_niveau_3() {
    let p = Preferences {
        gloses: false,
        ..Default::default()
    };
    let resultat = preparer(&verset(), p);
    assert!(!resultat.iter().any(|n| matches!(n, Noeud::Glose(_))));
    assert!(resultat.iter().any(|n| matches!(n, Noeud::Hebreu { .. })));
}

#[test]
fn eteindre_le_niveau_3_ne_touche_pas_aux_gloses() {
    let p = Preferences {
        niveau_3: false,
        ..Default::default()
    };
    let resultat = preparer(&verset(), p);
    assert!(!resultat.iter().any(|n| matches!(n, Noeud::Hebreu { .. })));
    assert!(resultat.iter().any(|n| matches!(n, Noeud::Glose(_))));
}

#[test]
fn le_retrait_ne_laisse_aucun_blanc_derriere_lui() {
    let resultat = preparer(&verset(), Preferences::nu());
    assert_eq!(
        resultat,
        vec![
            Noeud::Texte("Quand ".into()),
            Noeud::Intraduisible {
                mot: "Elohim".into(),
                lemme: "elohim".into(),
            },
            Noeud::Texte(" commença à orchestrer".into()),
        ]
    );
}

#[test]
fn la_ponctuation_se_referme_sur_le_mot() {
    let noeuds = vec![
        Noeud::Texte("ni habitant ".into()),
        Noeud::Glose(vec![Noeud::Texte("tohu wa-bohu".into())]),
        Noeud::Texte(", et la face".into()),
    ];
    assert_eq!(
        preparer(&noeuds, Preferences::nu()),
        vec![Noeud::Texte("ni habitant, et la face".into())]
    );
}

#[test]
fn le_deux_points_garde_son_espace() {
    let noeuds = vec![
        Noeud::Texte("Il dit ".into()),
        Noeud::Glose(vec![Noeud::Texte("wayomer".into())]),
        Noeud::Texte(" : que".into()),
    ];
    assert_eq!(
        preparer(&noeuds, Preferences::nu()),
        vec![Noeud::Texte("Il dit : que".into())]
    );
}

#[test]
fn un_verset_ne_commence_pas_par_un_blanc() {
    let noeuds = vec![
        Noeud::Glose(vec![Noeud::Texte("incise".into())]),
        Noeud::Texte(" Et la Terre".into()),
    ];
    assert_eq!(
        preparer(&noeuds, Preferences::nu()),
        vec![Noeud::Texte("Et la Terre".into())]
    );
}

#[test]
fn une_accentuation_survit_mais_son_contenu_est_nettoye() {
    let noeuds = vec![Noeud::Accentuation(vec![
        Noeud::Texte("Cieux".into()),
        Noeud::Hebreu {
            translitteration: "shamayim".into(),
            hebreu: "שָׁמַיִם".into(),
            cible: None,
        },
    ])];
    assert_eq!(
        preparer(&noeuds, Preferences::nu()),
        vec![Noeud::Accentuation(vec![Noeud::Texte("Cieux".into())])]
    );
}

#[test]
fn un_intraduisible_ne_s_eteint_jamais() {
    let resultat = preparer(&verset(), Preferences::nu());
    assert!(resultat
        .iter()
        .any(|n| matches!(n, Noeud::Intraduisible { .. })));
}

#[test]
fn le_nettoyage_descend_dans_les_enfants() {
    let noeuds = vec![Noeud::Glose(vec![
        Noeud::Texte("forme de ".into()),
        Noeud::Hebreu {
            translitteration: "eloah".into(),
            hebreu: "אֱלוֹהַּ".into(),
            cible: None,
        },
        Noeud::Texte(" au pluriel".into()),
    ])];
    let p = Preferences {
        niveau_3: false,
        ..Default::default()
    };
    assert_eq!(
        preparer(&noeuds, p),
        vec![Noeud::Glose(vec![Noeud::Texte("forme de au pluriel".into())])]
    );
}

#[test]
fn les_trois_pages_de_corpus_portent_la_peau() {
    for chemin in [
        "/fr/lire",
        "/fr/lire/bereshit",
        "/fr/lire/bereshit/bereshit-1",
        "/fr/lexique",
        "/fr/lexique/bara",
    ] {
        assert!(c_est_la_liseuse(chemin), "{chemin} est la liseuse");
    }
}

#[test]
fn l_edition_garde_la_nuit_d_aubergine() {
    for chemin in [
        "/fr",
        "/fr/le-pourquoi",
        "/fr/l-auteur",
        "/fr/l-app",
        "/fr/ce-que-l-ont-n-est-pas",
        "/fr/rechercher",
        "/fr/rechercher?q=ruach",
        "/fr/confidentialite",
        "/fr/conditions",
        "/",
    ] {
        assert!(!c_est_la_liseuse(chemin), "{chemin} est l'édition");
    }
}

#[test]
fn un_prefixe_ne_deborde_pas_sur_le_mot_voisin() {
    for chemin in ["/fr/lirent-ils", "/fr/lexiquement", "/fr/lire-moi"] {
        assert!(!c_est_la_liseuse(chemin), "{chemin} n'est pas la liseuse");
    }
}

#[test]
fn la_barre_finale_est_sans_effet() {
    assert!(c_est_la_liseuse("/fr/lire/"));
    assert!(!c_est_la_liseuse("/fr/"));
}

#[test]
fn le_defaut_est_neutre() {
    let p = Preferences::default();
    assert_eq!(p.corps, Theme::CORPS_PAR_DEFAUT);
    assert!((f64::from(p.corps) / f64::from(Theme::CORPS_PAR_DEFAUT) - 1.0).abs() < f64::EPSILON);
}

#[test]
fn les_bornes_du_corps_encadrent_le_defaut() {
    assert_eq!(Theme::CORPS_MINIMUM, 11);
    assert_eq!(Theme::CORPS_MAXIMUM, 28);
    assert!(Theme::CORPS_MINIMUM <= Theme::CORPS_PAR_DEFAUT);
    assert!(Theme::CORPS_PAR_DEFAUT <= Theme::CORPS_MAXIMUM);
}

#[test]
fn le_resserrement_ne_laisse_aucun_blanc_double() {
    assert_eq!(resserrer_texte("  Et   la \n Terre  ", true, true), "Et la Terre");
    assert_eq!(resserrer_texte("  Et   la  ", false, false), " Et la ");
    assert_eq!(resserrer_texte("mot , suite", true, true), "mot, suite");
}

#[test]
fn un_intraduisible_survit_a_tous_les_reglages() {
    for (gloses, niveau_3) in [(true, true), (true, false), (false, true), (false, false)] {
        let p = Preferences {
            gloses,
            niveau_3,
            ..Default::default()
        };
        let resultat = preparer(&verset(), p);
        let marques: Vec<&Noeud> = resultat
            .iter()
            .filter(|n| matches!(n, Noeud::Intraduisible { .. } | Noeud::Shem { .. }))
            .collect();
        assert_eq!(marques, vec![&verset()[1]]);
    }
}

#[test]
fn le_corps_aplati_ne_garde_que_le_texte() {
    assert_eq!(corps(&verset()), "Quand Elohim commença à orchestrer");
}

#[test]
fn un_blanc_hors_ascii_se_resserre_aussi() {
    assert_eq!(resserrer_texte("a\u{2003}\u{2003}b", false, false), "a b");
    assert_eq!(resserrer_texte("\u{a0}a", true, false), "a");
}

#[test]
fn preparer_deux_fois_ne_change_rien() {
    let desordre = vec![
        Noeud::Texte("  ".into()),
        Noeud::Glose(vec![Noeud::Texte(" a  ".into()), Noeud::Texte(" , b ".into())]),
        Noeud::Texte(" x ".into()),
        Noeud::Hebreu {
            translitteration: "elohim".into(),
            hebreu: "אֱלֹהִים".into(),
            cible: None,
        },
        Noeud::Texte("  y  . ".into()),
        Noeud::Emphase(vec![Noeud::Texte("\t".into())]),
        Noeud::Texte("".into()),
    ];
    for (gloses, niveau_3) in [(true, true), (true, false), (false, true), (false, false)] {
        let p = Preferences {
            gloses,
            niveau_3,
            ..Default::default()
        };
        let une_fois = preparer(&desordre, p);
        let deux_fois = preparer(&une_fois, p);
        assert_eq!(deux_fois, une_fois);
    }
    let p = Preferences {
        niveau_3: false,
        ..Default::default()
    };
    assert_eq!(
        preparer(&desordre, p),
        vec![
            Noeud::Glose(vec![Noeud::Texte("a, b".into())]),
            Noeud::Texte(" x y. ".into()),
            Noeud::Emphase(vec![]),
        ]
    );
}

/// Vérifie, à toute profondeur, ce que promet l'espacement d'une page préparée.
fn bien_espacee(suite: &[Noeud]) -> bool {
    let n = suite.len();
    for (i, noeud) in suite.iter().enumerate() {
        match noeud {
            Noeud::Texte(t) => {
                if t.is_empty() {
                    return false;
                }
                if i + 1 < n && matches!(suite[i + 1], Noeud::Texte(_)) {
                    return false;
                }
                let c: Vec<char> = t.chars().collect();
                if c.iter().any(|x| x.is_whitespace() && *x != ' ') {
                    return false;
                }
                for k in 0..c.len().saturating_sub(1) {
                    if c[k] == ' ' && (c[k + 1] == ' ' || ",.)]…".contains(c[k + 1])) {
                        return false;
                    }
                }
                if i == 0 && c[0] == ' ' {
                    return false;
                }
                if i + 1 == n && c[c.len() - 1] == ' ' {
                    return false;
                }
            }
            Noeud::Glose(e) | Noeud::Accentuation(e) | Noeud::Emphase(e) => {
                if !bien_espacee(e) {
                    return false;
                }
            }
            Noeud::Lien { enfants, .. } => {
                if !bien_espacee(enfants) {
                    return false;
                }
            }
            _ => {}
        }
    }
    true
}

#[test]
fn une_page_preparee_est_bien_espacee() {
    let desordre = vec![
        Noeud::Texte(" \t ".into()),
        Noeud::Accentuation(vec![
            Noeud::Texte("  Cieux ".into()),
            Noeud::Saut,
            Noeud::Texte(" ) ".into()),
        ]),
        Noeud::Texte("et\u{a0}\u{a0}".into()),
        Noeud::Texte("  la  terre  ,  ".into()),
    ];
    assert!(!bien_espacee(&desordre));
    for (gloses, niveau_3) in [(true, true), (false, false)] {
        let p = Preferences {
            gloses,
            niveau_3,
            ..Default::default()
        };
        assert!(bien_espacee(&preparer(&desordre, p)));
        assert!(bien_espacee(&preparer(&verset(), p)));
    }
}

/// La charpente d'une suite : ses nœuds autres que les textes, dans l'ordre,
/// les enfants des conteneurs réduits de même.
fn charpente(suite: &[Noeud]) -> Vec<Noeud> {
    suite
        .iter()
        .filter(|n| !matches!(n, Noeud::Texte(_)))
        .map(|n| match n {
            Noeud::Glose(e) => Noeud::Glose(charpente(e)),
            Noeud::Accentuation(e) => Noeud::Accentuation(charpente(e)),
            Noeud::Emphase(e) => Noeud::Emphase(charpente(e)),
            Noeud::Lien { href, enfants } => Noeud::Lien {
                href: href.clone(),
                enfants: charpente(enfants),
            },
            autre => autre.clone(),
        })
        .collect()
}

#[test]
fn preparer_ne_retire_que_les_niveaux_eteints() {
    let arbre = vec![
        Noeud::Texte("  Au ".into()),
        Noeud::Emphase(vec![
            Noeud::Texte(" début ".into()),
            Noeud::Glose(vec![Noeud::Texte("tête".into())]),
            Noeud::Saut,
        ]),
        Noeud::Texte(" ".into()),
        Noeud::HebreuNu("בְּרֵאשִׁית".into()),
        Noeud::Intraduisible {
            mot: "Elohim".into(),
            lemme: "elohim".into(),
        },
    ];
    let tout = preparer(&arbre, Preferences::default());
    assert_eq!(charpente(&tout), charpente(&arbre));
    let nu = preparer(&arbre, Preferences::nu());
    assert_eq!(
        charpente(&nu),
        vec![
            Noeud::Emphase(vec![Noeud::Saut]),
            Noeud::Intraduisible {
                mot: "Elohim".into(),
                lemme: "elohim".into(),
            },
        ]
    );
}

#[test]
fn les_blancs_sont_ceux_de_la_bibliotheque_standard() {
    for code in 0u32..0x3100 {
        if let Some(c) = char::from_u32(code) {
            let resserre = resserrer_texte(&format!("a{c}b"), false, false);
            if c.is_whitespace() {
                assert_eq!(resserre, "a b", "U+{code:04X}");
            } else {
                assert_eq!(resserre, format!("a{c}b"), "U+{code:04X}");
            }
        }
    }
}
