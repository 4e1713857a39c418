use vstd::prelude::*;

use crate::types::{AccountData, Event, TrusteeShare};

verus! {

/// The balance of `a` in `m`, zero where `a` has none.
pub open spec fn account_of(m: Map<u64, AccountData>, a: u64) -> AccountData {
    if m.contains_key(a) {
        m[a]
    } else {
        AccountData { free: 0, reserved: 0 }
    }
}

/// No account occurs twice in `s`.
pub open spec fn distinct(s: Seq<u64>) -> bool {
    forall|i: int, j: int| 0 <= i < s.len() && 0 <= j < s.len() && i != j ==> s[i] != s[j]
}

/// A share as a trustee receives it on being named: empty and unconfirmed.
pub open spec fn is_fresh_share(s: TrusteeShare, trustee: u64) -> bool {
    &&& s.trustee_account == trustee
    &&& s.share@.len() == 0
    &&& !s.confirmed
}

/// One `TrusteeAdded` event for each of `trustees`, in order.
pub open spec fn trustee_added_events(owner: u64, trustees: Seq<u64>) -> Seq<Event> {
    trustees.map_values(|t: u64| Event::TrusteeAdded { account: owner, trustee: t })
}

/// `new` is `old` with exactly the given trustees of `owner` added, each with a
/// fresh share.
pub open spec fn shares_with_trustees(
    old: Map<(u64, u64), TrusteeShare>,
    new: Map<(u64, u64), TrusteeShare>,
    owner: u64,
    trustees: Seq<u64>,
) -> bool {
    &&& forall|k: (u64, u64)|
        k.0 != owner ==> (#[trigger] new.contains_key(k) == old.contains_key(k)) && (
        old.contains_key(k) ==> new[k] == old[k])
    &&& forall|t: u64| #[trigger] new.contains_key((owner, t)) == trustees.contains(t)
    &&& forall|t: u64| #[trigger] trustees.contains(t) ==> is_fresh_share(new[(owner, t)], t)
}

/// `m` without the shares held for `owner`.
pub open spec fn without_owner(m: Map<(u64, u64), TrusteeShare>, owner: u64) -> Map<
    (u64, u64),
    TrusteeShare,
> {
    Map::new(|k: (u64, u64)| m.contains_key(k) && k.0 != owner, |k: (u64, u64)| m[k])
}

/// `new` is `old` with every share of `owner` marked unconfirmed.
pub open spec fn confirmations_cleared(
    old: Map<(u64, u64), TrusteeShare>,
    new: Map<(u64, u64), TrusteeShare>,
    owner: u64,
) -> bool {
    &&& new.dom() == old.dom()
    &&& forall|k: (u64, u64)|
        #[trigger] old.contains_key(k) && k.0 != owner ==> new[k] == old[k]
    &&& forall|t: u64| #[trigger]
        old.contains_key((owner, t)) ==> new[(owner, t)] == TrusteeShare {
            confirmed: false,
            ..old[(owner, t)]
        }
}

} // verus!
