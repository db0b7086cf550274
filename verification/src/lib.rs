//! La Bible ONT, côté site : le domaine, les règles et leurs preuves.
//!
//! Le domaine dit ce que le site sait du texte et du lecteur ; l'application
//! dit ce qu'il fait ; l'infrastructure et l'interface en sont les bords, dont
//! on ne garde ici que le calcul.

pub mod api;
pub mod application;
pub mod chaines;
pub mod domaine;
pub mod infrastructure;
pub mod interface;
