//! Le domaine — ce que le site sait de La Bible ONT, indépendamment de tout.

pub mod texte;
pub mod lecture;
pub mod selection;
pub mod recherche;
pub mod surlignage;
pub mod verset_du_jour;
pub mod vivier;
pub mod compte;
pub mod profil;
pub mod corpus;
