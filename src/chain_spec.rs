use vstd::prelude::*;

verus! {

/// Chain-specification parameters of a parachain deployment.
#[derive(Clone, Debug)]
pub struct Extensions {
    /// The relay chain of the parachain.
    pub relay_chain: String,
    /// The id of the parachain.
    pub para_id: u32,
}

impl Default for Extensions {
    fn default() -> (r: Self)
        ensures
            r.relay_chain@ == Seq::<char>::empty(),
            r.para_id == 0,
    {
        Extensions { relay_chain: String::new(), para_id: 0 }
    }
}

} // verus!
