use ontbible::application::ports::Vivier;
use ontbible::domaine::vivier::VersetQuotidien;
use ontbible::infrastructure::vivier::VivierEmbarque;

/// Un extrait du fichier du pipeline, sous sa forme d'origine.
const SOURCE: &str = r#"{"verses":[
  {"b":"bereshit","c":"bereshit-1","n":1,"r":"Bereshit 1:1","t":"Quand Elohim commença."},
  {"b":"bereshit","c":"bereshit-1","n":3,"r":"Bereshit 1:3","t":"Et Elohim dit."},
  {"b":"shemot","c":"shemot-3","n":14,"r":"Shemot 3:14","t":"Je serai qui je serai."}
]}"#;

fn lignes() -> Vec<serde_json::Value> {
    let fichier: serde_json::Value = serde_json::from_str(SOURCE).expect("extrait illisible");
    fichier["verses"].as_array().expect("un tableau de versets").clone()
}

fn champ(ligne: &serde_json::Value, cle: &str) -> String {
    ligne[cle].as_str().expect("un champ texte").to_string()
}

fn charger() -> VivierEmbarque {
    let versets = lignes()
        .iter()
        .map(|l| VersetQuotidien {
            livre: champ(l, "b"),
            unite: champ(l, "c"),
            numero: l["n"].as_u64().expect("un numéro") as u32,
            renvoi: champ(l, "r"),
            texte: champ(l, "t"),
        })
        .collect();
    VivierEmbarque::new(versets)
}

#[test]
fn le_vivier_se_lit() {
    let vivier = charger();
    let versets = vivier.versets();
    assert!(!versets.is_empty(), "vivier vide");
    for v in versets {
        assert!(!v.livre.is_empty() && !v.unite.is_empty(), "{v:?}");
        assert!(!v.renvoi.is_empty() && !v.texte.is_empty(), "{v:?}");
        assert!(v.numero >= 1, "{v:?}");
    }
}

#[test]
fn l_ordre_du_vivier_est_celui_du_fichier() {
    let vivier = charger();
    let fichier = lignes();
    assert_eq!(vivier.versets().len(), fichier.len());
    assert_eq!(vivier.versets()[0].renvoi, champ(&fichier[0], "r"));
    assert_eq!(vivier.versets()[2].renvoi, "Shemot 3:14");
}

#[test]
fn le_chemin_d_un_verset_quotidien() {
    let vivier = charger();
    assert_eq!(vivier.versets()[2].chemin(), "/fr/lire/shemot/shemot-3?v=14");
}
