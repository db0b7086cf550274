use ontbible::domaine::lecture::{c_est_la_liseuse, la_liseuse, Fonte, Theme};
use ontbible::interface::peau::script_de_la_peau;

#[test]
fn le_script_porte_exactement_les_deux_tables() {
    let script = script_de_la_peau();
    for theme in Theme::tous() {
        assert!(
            script.contains(&format!("'{}'", theme.attribut())),
            "le script ignore le thème {}",
            theme.attribut()
        );
    }
    for fonte in Fonte::toutes() {
        assert!(
            script.contains(&format!("'{}'", fonte.attribut())),
            "le script ignore la fonte {}",
            fonte.attribut()
        );
    }
    for prefixe in la_liseuse() {
        assert!(
            script.contains(&format!("'{prefixe}'")),
            "le script ignore le préfixe {prefixe}"
        );
    }
    let chemins: Vec<&str> = script
        .split('\'')
        .filter(|morceau| morceau.starts_with("/fr"))
        .collect();
    assert_eq!(chemins, la_liseuse(), "le script nomme un chemin hors table");
}

#[test]
fn le_script_reprend_les_trois_clauses_de_la_regle() {
    let script = script_de_la_peau();
    for (clause, ce_qu_elle_fait) in [
        (r"replace(/\/+$/,'')", "ignorer la barre finale"),
        ("p===L[i]", "accepter le chemin exact"),
        ("p.indexOf(L[i]+'/')===0", "accepter le préfixe suivi d'une barre"),
    ] {
        assert!(script.contains(clause), "le script ne sait plus {ce_qu_elle_fait}");
    }
}

#[test]
fn la_regle_borne_bien_la_liseuse() {
    assert!(c_est_la_liseuse("/fr/lire/bereshit/bereshit-1"));
    assert!(!c_est_la_liseuse("/fr"));
}

#[test]
fn le_script_borne_la_taille_au_curseur() {
    let script = script_de_la_peau();
    assert!(script.starts_with("try{"));
    assert!(script.ends_with("}catch(e){}"));
    assert!(script.contains("if(n>=11&&n<=28)r.style.setProperty('--lecture',n/19);"));
    assert!(script.contains("L=['/fr/lire','/fr/lexique']"));
    assert!(script.contains(
        "var c=['parchemin','clair','sombre','mystique'];"
    ));
}
