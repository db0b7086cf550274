use ontbible::domaine::texte::{Noeud, Verset};

fn verset() -> Verset {
    Verset {
        numero: 1,
        noeuds: vec![
            Noeud::Texte("Quand ".into()),
            Noeud::Intraduisible {
                mot: "Elohim".into(),
                lemme: "elohim".into(),
            },
            Noeud::Texte(" ".into()),
            Noeud::Hebreu {
                translitteration: "elohim".into(),
                hebreu: "אֱלֹהִים".into(),
                cible: None,
            },
            Noeud::Texte(" ".into()),
            Noeud::Glose(vec![Noeud::Texte("nom divin laissé intact".into())]),
            Noeud::Texte(" commença à orchestrer".into()),
        ],
    }
}

#[test]
fn le_corps_ecarte_les_niveaux_2_et_3() {
    assert_eq!(verset().corps(), "Quand Elohim commença à orchestrer");
}

#[test]
fn le_corps_referme_la_ponctuation_que_la_glose_laissait_ouverte() {
    let verset = Verset {
        numero: 2,
        noeuds: vec![
            Noeud::Texte("ni habitant ".into()),
            Noeud::Glose(vec![Noeud::Texte("tohu wa-bohu".into())]),
            Noeud::Texte(", et la face des eaux.".into()),
        ],
    };
    assert_eq!(verset.corps(), "ni habitant, et la face des eaux.");
}

#[test]
fn le_corps_garde_l_espace_avant_le_deux_points_et_les_guillemets() {
    let verset = Verset {
        numero: 3,
        noeuds: vec![Noeud::Texte("Il dit : « que la lumière soit ! »".into())],
    };
    assert_eq!(verset.corps(), "Il dit : « que la lumière soit ! »");
}

#[test]
fn le_corps_ne_laisse_pas_de_blancs_doubles() {
    assert!(!verset().corps().contains("  "));
}

#[test]
fn le_corps_garde_les_mots_des_renvois_et_un_saut_devient_une_espace() {
    let verset = Verset {
        numero: 4,
        noeuds: vec![
            Noeud::Texte("déjà posé en".into()),
            Noeud::Saut,
            Noeud::Renvoi {
                libelle: "cette disposition".into(),
                cible: "la-chuqqah".into(),
            },
        ],
    };
    assert_eq!(verset.corps(), "déjà posé en cette disposition");
}
