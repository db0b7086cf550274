//! Le système de composants, réduit à ce qu'il calcule.

pub mod blocs;
pub mod image;
pub mod occurrences;
pub mod navigation_de_la_liseuse;
