use ontbible::application::ports::{Horloge, Vivier};
use ontbible::application::verset_du_jour::{choisir, VersetDuJour};
use ontbible::domaine::verset_du_jour::{indice, pas, pgcd};
use ontbible::domaine::vivier::VersetQuotidien;

/// Le nombre d'or moins un.
const NOMBRE_DOR: f64 = 0.618_033_988_749_895;

/// Le point de départ du pas : 0,618 × la taille, tronqué.
fn depart(taille: usize) -> usize {
    (taille as f64 * NOMBRE_DOR) as usize
}

fn indice_du_jour(jour: i64, taille: usize) -> usize {
    indice(jour, taille, depart(taille))
}

fn pas_du_vivier(taille: usize) -> usize {
    pas(taille, depart(taille))
}

#[test]
fn le_portage_s_accorde_avec_l_original_swift() {
    const JOURS: [i64; 8] = [0, 1, 2, 17, 20_678, 20_679, -1, -365];
    const TEMOIN: [(usize, [usize; 8]); 3] = [
        (7, [0, 4, 1, 5, 0, 4, 3, 3]),
        (251, [0, 155, 59, 125, 71, 226, 96, 151]),
        (1000, [0, 619, 238, 523, 682, 301, 381, 65]),
    ];

    for (taille, attendus) in TEMOIN {
        for (jour, attendu) in JOURS.iter().zip(attendus) {
            assert_eq!(
                indice_du_jour(*jour, taille),
                attendu,
                "vivier de {taille}, jour {jour}"
            );
        }
    }

    assert_eq!(pas_du_vivier(7), 4);
    assert_eq!(pas_du_vivier(251), 155);
    assert_eq!(pas_du_vivier(1000), 619);
}

#[test]
fn vivier_vide_ou_unique_ne_choisit_rien() {
    assert_eq!(indice_du_jour(20_000, 0), 0);
    assert_eq!(indice_du_jour(20_000, 1), 0);
}

#[test]
fn le_pas_est_toujours_premier_avec_la_taille() {
    for taille in 2..=1_000 {
        assert_eq!(pgcd(pas_du_vivier(taille), taille), 1, "taille {taille}");
    }
}

#[test]
fn aucun_verset_ne_revient_avant_que_tous_soient_passes() {
    let taille = 251;
    let mut vus = vec![false; taille];
    for jour in 0..taille as i64 {
        let i = indice_du_jour(jour, taille);
        assert!(!vus[i], "le verset {i} revient au jour {jour}");
        vus[i] = true;
    }
    assert!(vus.into_iter().all(|v| v), "des versets n'ont jamais été vus");
}

#[test]
fn deux_jours_voisins_sont_eloignes_dans_le_corpus() {
    let taille = 251;
    for jour in 0..200 {
        let a = indice_du_jour(jour, taille) as i64;
        let b = indice_du_jour(jour + 1, taille) as i64;
        let ecart = (a - b).abs().min(taille as i64 - (a - b).abs());
        assert!(ecart > 10, "jour {jour} : écart de {ecart} seulement");
    }
}

#[test]
fn une_date_d_avant_1970_ne_deborde_pas() {
    assert!(indice_du_jour(-1, 251) < 251);
    assert!(indice_du_jour(-100_000, 251) < 251);
}

#[test]
fn le_pgcd_suit_euclide() {
    assert_eq!(pgcd(12, 18), 6);
    assert_eq!(pgcd(7, 0), 7);
    assert_eq!(pgcd(0, 7), 7);
    assert_eq!(pgcd(155, 251), 1);
}

#[test]
fn un_depart_premier_avec_la_taille_est_garde() {
    assert_eq!(pas(10, 3), 3);
    assert_eq!(pas(10, 4), 7);
    assert_eq!(pas(10, 0), 1);
    assert_eq!(pas(2, 0), 1);
}

#[test]
fn l_indice_avance_du_pas_chaque_jour() {
    assert_eq!(indice(1, 10, 3), 3);
    assert_eq!(indice(2, 10, 3), 6);
    assert_eq!(indice(4, 10, 3), 2);
    assert_eq!(indice(-1, 10, 3), 7);
}

struct HorlogeFigee(i64);
impl Horloge for HorlogeFigee {
    fn jour(&self) -> i64 {
        self.0
    }
}

struct VivierFixe(Vec<VersetQuotidien>);
impl Vivier for VivierFixe {
    fn versets(&self) -> &[VersetQuotidien] {
        &self.0
    }
}

fn vivier(n: u32) -> VivierFixe {
    VivierFixe(
        (0..n)
            .map(|i| VersetQuotidien {
                livre: "bereshit".into(),
                unite: "bereshit-1".into(),
                numero: i + 1,
                renvoi: format!("Bereshit 1:{}", i + 1),
                texte: format!("verset {i}"),
            })
            .collect(),
    )
}

#[test]
fn un_vivier_vide_ne_rend_rien() {
    let vide = VivierFixe(Vec::new());
    assert!(VersetDuJour::new(&HorlogeFigee(20_678), &vide)
        .aujourd_hui(depart(0))
        .is_none());
}

#[test]
fn le_meme_jour_rend_toujours_le_meme_verset() {
    let v = vivier(251);
    let service = VersetDuJour::new(&HorlogeFigee(20_678), &v);
    let a = service.aujourd_hui(depart(251)).unwrap();
    let b = service.aujourd_hui(depart(251)).unwrap();
    assert_eq!(a, b);
}

#[test]
fn le_lendemain_change_de_verset() {
    let v = vivier(251);
    let hier = HorlogeFigee(20_678);
    let demain = HorlogeFigee(20_679);
    assert_ne!(
        VersetDuJour::new(&hier, &v).aujourd_hui(depart(251)),
        VersetDuJour::new(&demain, &v).aujourd_hui(depart(251))
    );
}

#[test]
fn le_chemin_pointe_le_verset_et_non_l_unite() {
    let v = vivier(1);
    let verset = VersetDuJour::new(&HorlogeFigee(0), &v)
        .aujourd_hui(depart(1))
        .unwrap();
    assert_eq!(verset.chemin(), "/fr/lire/bereshit/bereshit-1?v=1");
}

#[test]
fn le_verset_du_jour_est_celui_de_l_indice() {
    let v = vivier(251);
    let choisi = choisir(&v.0, 20_678, depart(251)).unwrap();
    assert_eq!(choisi.numero, 72);
}

#[test]
fn un_depart_hors_du_vivier_ne_choisit_rien() {
    let v = vivier(5);
    assert!(choisir(&v.0, 3, 5).is_none());
    assert!(choisir(&v.0, 3, 2).is_some());
}

#[test]
fn le_cycle_revient_au_bout_du_vivier_et_passe_par_tous() {
    let taille = 251;
    for jour in [-400i64, 0, 17, 20_678] {
        assert_eq!(indice_du_jour(jour + taille as i64, taille), indice_du_jour(jour, taille));
        let mut vus: Vec<usize> = (0..taille as i64).map(|k| indice_du_jour(jour + k, taille)).collect();
        vus.sort();
        assert_eq!(vus, (0..taille).collect::<Vec<_>>());
    }
}
