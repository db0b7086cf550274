//! Le vivier embarqué : les versets du jour, dans l'ordre du fichier que le
//! pipeline produit.

use vstd::prelude::*;

use crate::application::ports::Vivier;
use crate::domaine::vivier::VersetQuotidien;

verus! {

/// Le vivier, tel que le fichier du pipeline le donne.
pub struct VivierEmbarque {
    versets: Vec<VersetQuotidien>,
}

impl VivierEmbarque {
    /// Les versets du vivier.
    pub closed spec fn tous(&self) -> Seq<VersetQuotidien> {
        self.versets@
    }

    /// Un vivier de ces versets, dans cet ordre.
    pub fn new(versets: Vec<VersetQuotidien>) -> (r: VivierEmbarque)
        ensures
            r.tous() == versets@,
    {
        VivierEmbarque { versets }
    }
}

impl Vivier for VivierEmbarque {
    open spec fn versets_vus(&self) -> Seq<VersetQuotidien> {
        self.tous()
    }

    fn versets(&self) -> (r: &[VersetQuotidien])
        ensures
            r@ == self.tous(),
    {
        self.versets.as_slice()
    }
}

} // verus!
