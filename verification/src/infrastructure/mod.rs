//! L'infrastructure — les réalisations des ports, dont on ne garde ici que le
//! calcul : ce qu'on envoie, et ce qu'on conclut de ce qui revient.

pub mod comptes;
pub mod recherche;
pub mod corpus;
pub mod horloge;
pub mod vivier;
