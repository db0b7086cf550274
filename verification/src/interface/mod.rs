//! L'interface — ce que le site montre et les routes qu'il sert, dont on ne
//! garde ici que le calcul : les adresses, les cookies, les décisions.

pub mod association;
pub mod compte;
pub mod compte_public;
pub mod peau;
pub mod tete;
pub mod design;
