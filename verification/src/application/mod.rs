//! L'application — ce que le site fait, sans savoir avec quoi. Elle déclare
//! des ports : ce dont un cas d'usage a besoin, exprimé en traits.

pub mod ports;
pub mod verset_du_jour;
