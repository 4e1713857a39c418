use std::sync::Arc;
use vstd::prelude::*;

use crate::pallet::Pallet;
use crate::types::AuraIdRecord;

verus! {

/// The query endpoint that external layers use to read identities.
pub struct AuraIdentityRpcImpl<C> {
    client: Arc<C>,
}

impl<C> AuraIdentityRpcImpl<C> {
    /// The state that the endpoint reads.
    pub closed spec fn client_spec(&self) -> C {
        *self.client
    }

    /// An endpoint over `client`.
    pub fn new(client: Arc<C>) -> (r: Self)
        ensures
            r.client_spec() == *client,
    {
        Self { client }
    }
}

impl AuraIdentityRpcImpl<Pallet> {
    /// The identity of `account`, as the state holds it.
    pub fn get_identity(&self, account: u64) -> (r: Option<&AuraIdRecord>)
        ensures
            match r {
                Some(x) => self.client_spec().identities().contains_key(account) && *x
                    == self.client_spec().identities()[account],
                None => !self.client_spec().identities().contains_key(account),
            },
    {
        self.client.get_aura_id(account)
    }
}

} // verus!
