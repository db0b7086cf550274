use ontbible::application::ports::Horloge;
use ontbible::infrastructure::horloge::{jour_de_minuit, numero_de_jour, HorlogeSysteme};

fn temoin(iso: &str) -> i64 {
    let instant = iso
        .parse::<chrono::DateTime<chrono::Utc>>()
        .expect("instant valide");
    numero_de_jour(instant.timestamp()).expect("minuit existe toujours")
}

#[test]
fn le_numero_de_jour_s_accorde_avec_l_original_swift() {
    assert_eq!(temoin("2026-08-12T10:00:00Z"), 20_676);
    assert_eq!(temoin("2026-01-15T10:00:00Z"), 20_467);
}

#[test]
fn le_verset_change_a_minuit_chez_le_lecteur() {
    assert_eq!(temoin("2026-08-11T21:30:00Z"), 20_675);
    assert_eq!(temoin("2026-08-11T23:30:00Z"), 20_676);
}

#[test]
fn aujourd_hui_est_plausible() {
    let jour = HorlogeSysteme.jour();
    assert!((18_262..47_482).contains(&jour), "jour improbable : {jour}");
}

#[test]
fn le_jour_d_un_minuit_avant_1970_arrondit_vers_le_bas() {
    assert_eq!(jour_de_minuit(0), 0);
    assert_eq!(jour_de_minuit(86_399), 0);
    assert_eq!(jour_de_minuit(86_400), 1);
    assert_eq!(jour_de_minuit(-1), -1);
    assert_eq!(jour_de_minuit(-86_400), -1);
    assert_eq!(jour_de_minuit(-86_401), -2);
    assert_eq!(jour_de_minuit(i64::MIN), i64::MIN.div_euclid(86_400));
}

#[test]
fn minuit_a_paris_precede_minuit_en_utc() {
    assert_eq!(temoin("1970-01-01T00:30:00Z"), -1);
    assert_eq!(temoin("1969-12-31T23:30:00Z"), -1);
    assert_eq!(temoin("1969-12-31T22:30:00Z"), -2);
}

#[test]
fn un_instant_hors_du_calendrier_ne_rend_rien() {
    assert_eq!(numero_de_jour(i64::MAX), None);
}

#[test]
fn le_dernier_instant_du_calendrier_ne_panique_pas() {
    let dernier = chrono::NaiveDate::MAX
        .and_hms_opt(23, 59, 59)
        .unwrap()
        .and_utc()
        .timestamp();
    assert_eq!(numero_de_jour(dernier), None);
    let premier = chrono::NaiveDate::MIN
        .and_hms_opt(0, 0, 0)
        .unwrap()
        .and_utc()
        .timestamp();
    let _ = numero_de_jour(premier);
}
