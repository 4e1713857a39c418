use std::collections::HashMap;
use vstd::prelude::*;

use crate::did::{blake2_256, blake2_256_of, bytes32_eq};
use crate::model::{
    account_of, confirmations_cleared, distinct, is_fresh_share, shares_with_trustees,
    trustee_added_events, without_owner,
};
use crate::types::{
    AccountData, AuraIdRecord, Config, Error, Event, RecoveryConfig, RecoveryRequest,
    TrusteeShare, DEFAULT_RECOVERY_DELAY, MAX_BLOB_LEN, MAX_THRESHOLD, MAX_TRUSTEES, MIN_THRESHOLD,
};

verus! {

broadcast use vstd::std_specs::hash::group_hash_axioms;

/// One entry of the reverse DID index.
#[derive(Clone, Copy)]
struct DidEntry {
    did: [u8; 32],
    account: u64,
}

/// The identity and social-recovery state machine.
///
/// Every operation checks all of its preconditions before it changes
/// anything, so a rejected operation leaves the state exactly as it was.
pub struct Pallet {
    config: Config,
    block_number: u32,
    identities: HashMap<u64, AuraIdRecord>,
    /// The reverse DID index, one entry per DID.
    did_entries: Vec<DidEntry>,
    /// What `did_entries` holds, as a map.
    did_model: Ghost<Map<Seq<u8>, u64>>,
    recovery_configs: HashMap<u64, RecoveryConfig>,
    recovery_deposits: HashMap<u64, u128>,
    /// Each owner's shares, one per trustee.
    trustee_shares: HashMap<u64, Vec<TrusteeShare>>,
    /// What `trustee_shares` holds, keyed by (owner, trustee).
    share_model: Ghost<Map<(u64, u64), TrusteeShare>>,
    active_recoveries: HashMap<u64, RecoveryRequest>,
    balances: HashMap<u64, AccountData>,
    events: Vec<Event>,
}

impl Pallet {
    /// The engine's parameters.
    pub closed spec fn config_spec(&self) -> Config {
        self.config
    }

    /// The current block height.
    pub closed spec fn height(&self) -> u32 {
        self.block_number
    }

    /// Identity records by account.
    pub closed spec fn identities(&self) -> Map<u64, AuraIdRecord> {
        self.identities@
    }

    /// The reverse index: DID bytes to account.
    pub closed spec fn did_index(&self) -> Map<Seq<u8>, u64> {
        self.did_model@
    }

    /// Recovery policies by account.
    pub closed spec fn recovery_configs(&self) -> Map<u64, RecoveryConfig> {
        self.recovery_configs@
    }

    /// Deposits held for recovery policies, by account.
    pub closed spec fn recovery_deposits(&self) -> Map<u64, u128> {
        self.recovery_deposits@
    }

    /// Trustee shares by (owner, trustee).
    pub closed spec fn shares(&self) -> Map<(u64, u64), TrusteeShare> {
        self.share_model@
    }

    /// Pending recovery requests by lost account.
    pub closed spec fn active_recoveries(&self) -> Map<u64, RecoveryRequest> {
        self.active_recoveries@
    }

    /// Balances by account.
    pub closed spec fn balances(&self) -> Map<u64, AccountData> {
        self.balances@
    }

    /// The event log, oldest first.
    pub closed spec fn event_log(&self) -> Seq<Event> {
        self.events@
    }

    closed spec fn wf_identities(&self) -> bool {
        &&& forall|a: u64| #[trigger]
            self.identities@.contains_key(a) ==> self.did_model@.contains_key(
                self.identities@[a].did@,
            ) && self.did_model@[self.identities@[a].did@] == a
        &&& forall|d: Seq<u8>| #[trigger]
            self.did_model@.contains_key(d) ==> self.identities@.contains_key(self.did_model@[d])
                && self.identities@[self.did_model@[d]].did@ == d
        &&& forall|i: int|
            0 <= i < self.did_entries@.len() ==> self.did_model@.contains_key(
                #[trigger] self.did_entries@[i].did@,
            ) && self.did_model@[self.did_entries@[i].did@] == self.did_entries@[i].account
        &&& forall|d: Seq<u8>| #[trigger]
            self.did_model@.contains_key(d) ==> exists|i: int|
                0 <= i < self.did_entries@.len() && #[trigger] self.did_entries@[i].did@ == d
        &&& forall|i: int, j: int|
            0 <= i < self.did_entries@.len() && 0 <= j < self.did_entries@.len() && i != j
                ==> #[trigger] self.did_entries@[i].did@ != #[trigger] self.did_entries@[j].did@
    }

    closed spec fn wf_shares(&self) -> bool {
        &&& forall|o: u64, i: int|
            self.trustee_shares@.contains_key(o) && 0 <= i < self.trustee_shares@[o]@.len()
                ==> self.share_model@.contains_key(
                (o, #[trigger] self.trustee_shares@[o]@[i].trustee_account),
            ) && self.share_model@[(o, self.trustee_shares@[o]@[i].trustee_account)]
                == self.trustee_shares@[o]@[i]
        &&& forall|k: (u64, u64)| #[trigger]
            self.share_model@.contains_key(k) ==> self.trustee_shares@.contains_key(k.0) && exists|
                i: int,
            |
                0 <= i < self.trustee_shares@[k.0]@.len()
                    && #[trigger] self.trustee_shares@[k.0]@[i].trustee_account == k.1
        &&& forall|o: u64, i: int, j: int|
            self.trustee_shares@.contains_key(o) && 0 <= i < self.trustee_shares@[o]@.len() && 0
                <= j < self.trustee_shares@[o]@.len() && i != j
                ==> #[trigger] self.trustee_shares@[o]@[i].trustee_account
                != #[trigger] self.trustee_shares@[o]@[j].trustee_account
    }

    closed spec fn wf_configs(&self) -> bool {
        &&& forall|o: u64| #[trigger]
            self.recovery_configs@.contains_key(o) == self.trustee_shares@.contains_key(o)
        &&& forall|o: u64| #[trigger]
            self.recovery_configs@.contains_key(o) == self.recovery_deposits@.contains_key(o)
        &&& forall|o: u64| #[trigger]
            self.recovery_configs@.contains_key(o) ==> {
                let c = self.recovery_configs@[o];
                &&& self.trustee_shares@[o]@.len() == c.total_trustees
                &&& c.active
                &&& c.threshold <= c.total_trustees
                &&& c.total_trustees <= self.config.max_trustees
                &&& self.recovery_deposits@[o] == c.deposit
                &&& account_of(self.balances@, o).reserved >= c.deposit
            }
        &&& forall|o: u64| #[trigger]
            self.active_recoveries@.contains_key(o) ==> self.recovery_configs@.contains_key(o)
                && self.identities@.contains_key(o)
        &&& forall|a: u64| #[trigger]
            self.balances@.contains_key(a) ==> self.balances@[a].free + self.balances@[a].reserved
                <= u128::MAX
        &&& forall|k: (u64, u64)| #[trigger]
            self.share_model@.contains_key(k) && !self.active_recoveries@.contains_key(k.0)
                ==> !self.share_model@[k].confirmed
    }

    /// The state's invariant.
    pub closed spec fn wf(&self) -> bool {
        &&& self.config.max_trustees <= MAX_TRUSTEES
        &&& self.wf_identities()
        &&& self.wf_shares()
        &&& self.wf_configs()
    }

    /// An empty engine at block height zero.
    pub fn new(config: Config) -> (r: Pallet)
        requires
            config.max_trustees <= MAX_TRUSTEES,
        ensures
            r.wf(),
            r.config_spec() == config,
            r.height() == 0,
            r.identities() == Map::<u64, AuraIdRecord>::empty(),
            r.did_index() == Map::<Seq<u8>, u64>::empty(),
            r.recovery_configs() == Map::<u64, RecoveryConfig>::empty(),
            r.recovery_deposits() == Map::<u64, u128>::empty(),
            r.shares() == Map::<(u64, u64), TrusteeShare>::empty(),
            r.active_recoveries() == Map::<u64, RecoveryRequest>::empty(),
            r.balances() == Map::<u64, AccountData>::empty(),
            r.event_log() == Seq::<Event>::empty(),
    {
        Pallet {
            config,
            block_number: 0,
            identities: HashMap::new(),
            did_entries: Vec::new(),
            did_model: Ghost(Map::empty()),
            recovery_configs: HashMap::new(),
            recovery_deposits: HashMap::new(),
            trustee_shares: HashMap::new(),
            share_model: Ghost(Map::empty()),
            active_recoveries: HashMap::new(),
            balances: HashMap::new(),
            events: Vec::new(),
        }
    }
}

impl Pallet {
    /// The DID of a public key: its BLAKE2-256 digest.
    pub fn generate_did(public_key: &[u8; 32]) -> (did: [u8; 32])
        ensures
            did@ == blake2_256_of(public_key@),
    {
        blake2_256(public_key)
    }

    /// The engine's parameters.
    pub fn config(&self) -> (r: Config)
        ensures
            r == self.config_spec(),
    {
        self.config
    }

    /// The current block height.
    pub fn block_number(&self) -> (r: u32)
        ensures
            r == self.height(),
    {
        self.block_number
    }

    /// The event log, oldest first.
    pub fn events(&self) -> (r: &Vec<Event>)
        ensures
            r@ == self.event_log(),
    {
        &self.events
    }

    /// The identity of `account`.
    pub fn get_aura_id(&self, account: u64) -> (r: Option<&AuraIdRecord>)
        ensures
            match r {
                Some(x) => self.identities().contains_key(account) && *x == self.identities()[account],
                None => !self.identities().contains_key(account),
            },
    {
        self.identities.get(&account)
    }

    /// The account whose identity carries `did`.
    pub fn lookup_by_did(&self, did: &[u8; 32]) -> (r: Option<u64>)
        requires
            self.wf(),
        ensures
            r == (if self.did_index().contains_key(did@) {
                Some(self.did_index()[did@])
            } else {
                None
            }),
    {
        self.did_lookup(did)
    }

    /// The recovery policy of `account`.
    pub fn get_recovery_config(&self, account: u64) -> (r: Option<RecoveryConfig>)
        ensures
            r == (if self.recovery_configs().contains_key(account) {
                Some(self.recovery_configs()[account])
            } else {
                None
            }),
    {
        match self.recovery_configs.get(&account) {
            Some(c) => Some(*c),
            None => None,
        }
    }

    /// The deposit held for `account`'s recovery policy.
    pub fn get_recovery_deposit(&self, account: u64) -> (r: Option<u128>)
        ensures
            r == (if self.recovery_deposits().contains_key(account) {
                Some(self.recovery_deposits()[account])
            } else {
                None
            }),
    {
        match self.recovery_deposits.get(&account) {
            Some(d) => Some(*d),
            None => None,
        }
    }

    /// The pending recovery request on `lost_account`.
    pub fn get_active_recovery(&self, lost_account: u64) -> (r: Option<RecoveryRequest>)
        ensures
            r == (if self.active_recoveries().contains_key(lost_account) {
                Some(self.active_recoveries()[lost_account])
            } else {
                None
            }),
    {
        match self.active_recoveries.get(&lost_account) {
            Some(q) => Some(*q),
            None => None,
        }
    }

    /// The share that `trustee` holds for `owner`.
    pub fn get_trustee_share(&self, owner: u64, trustee: u64) -> (r: Option<&TrusteeShare>)
        requires
            self.wf(),
        ensures
            match r {
                Some(x) => self.shares().contains_key((owner, trustee)) && *x == self.shares()[(
                    owner,
                    trustee,
                )],
                None => !self.shares().contains_key((owner, trustee)),
            },
    {
        match self.trustee_shares.get(&owner) {
            Some(v) => match self.share_index(owner, trustee) {
                Some(i) => Some(&v[i]),
                None => None,
            },
            None => {
                proof {
                    if self.share_model@.contains_key((owner, trustee)) {
                        assert(self.trustee_shares@.contains_key(owner));
                    }
                }
                None
            },
        }
    }

    /// The free balance of `account`.
    pub fn free_balance(&self, account: u64) -> (r: u128)
        ensures
            r == account_of(self.balances(), account).free,
    {
        self.account(account).free
    }

    /// The reserved balance of `account`.
    pub fn reserved_balance(&self, account: u64) -> (r: u128)
        ensures
            r == account_of(self.balances(), account).reserved,
    {
        self.account(account).reserved
    }

    /// Sets the current block height.
    pub fn set_block_number(&mut self, height: u32)
        requires
            old(self).wf(),
        ensures
            final(self).wf(),
            final(self).height() == height,
            final(self).identities() == old(self).identities(),
            final(self).did_index() == old(self).did_index(),
            final(self).recovery_configs() == old(self).recovery_configs(),
            final(self).recovery_deposits() == old(self).recovery_deposits(),
            final(self).shares() == old(self).shares(),
            final(self).active_recoveries() == old(self).active_recoveries(),
            final(self).balances() == old(self).balances(),
            final(self).event_log() == old(self).event_log(),
            final(self).config_spec() == old(self).config_spec(),
    {
        let ghost old_self = *self;
        self.block_number = height;
        proof {
            lemma_identities_frame(&old_self, &*self);
        }
    }

    /// Sets the free balance of `who`, keeping what is reserved.
    pub fn set_balance(&mut self, who: u64, free: u128)
        requires
            old(self).wf(),
            free + account_of(old(self).balances(), who).reserved <= u128::MAX,
        ensures
            final(self).wf(),
            final(self).balances() == old(self).balances().insert(
                who,
                AccountData { free, reserved: account_of(old(self).balances(), who).reserved },
            ),
            final(self).height() == old(self).height(),
            final(self).identities() == old(self).identities(),
            final(self).did_index() == old(self).did_index(),
            final(self).recovery_configs() == old(self).recovery_configs(),
            final(self).recovery_deposits() == old(self).recovery_deposits(),
            final(self).shares() == old(self).shares(),
            final(self).active_recoveries() == old(self).active_recoveries(),
            final(self).event_log() == old(self).event_log(),
            final(self).config_spec() == old(self).config_spec(),
    {
        let ghost old_self = *self;
        let before = self.account(who);
        self.balances.insert(who, AccountData { free, reserved: before.reserved });
        proof {
            lemma_identities_frame(&old_self, &*self);
            assert(self.wf_shares());
            assert(self.wf_configs());
        }
    }
}

impl Pallet {
    /// The account that the index maps `did` to, if any.
    fn did_lookup(&self, did: &[u8; 32]) -> (r: Option<u64>)
        requires
            self.wf(),
        ensures
            r == (if self.did_index().contains_key(did@) {
                Some(self.did_index()[did@])
            } else {
                None
            }),
    {
        let n = self.did_entries.len();
        let mut i: usize = 0;
        while i < n
            invariant
                self.wf(),
                n == self.did_entries@.len(),
                i <= n,
                forall|j: int| 0 <= j < i ==> (#[trigger] self.did_entries@[j]).did@ != did@,
            decreases n - i,
        {
            if bytes32_eq(&self.did_entries[i].did, did) {
                return Some(self.did_entries[i].account);
            }
            i = i + 1;
        }
        proof {
            if self.did_model@.contains_key(did@) {
                let j = choose|j: int|
                    0 <= j < self.did_entries@.len() && #[trigger] self.did_entries@[j].did@ == did@;
                assert(self.did_entries@[j].did@ != did@);
            }
        }
        None
    }

    /// The first precondition of `create_aura_id` that fails, if any.
    pub open spec fn create_aura_id_error(&self, who: u64, public_key: Seq<u8>, blob_len: int) -> Option<
        Error,
    > {
        if self.identities().contains_key(who) {
            Some(Error::AuraIdAlreadyExists)
        } else if blob_len > MAX_BLOB_LEN {
            Some(Error::RecoveryConfigTooLarge)
        } else if self.did_index().contains_key(blake2_256_of(public_key)) {
            Some(Error::DidCollision)
        } else {
            None
        }
    }

    /// Binds `who` to the DID of `public_key`, with `recovery_config` as a
    /// free-form blob, and returns the DID. Each account has one identity and
    /// each DID one account.
    pub fn create_aura_id(&mut self, who: u64, public_key: [u8; 32], recovery_config: Vec<u8>) -> (r:
        Result<[u8; 32], Error>)
        requires
            old(self).wf(),
        ensures
            final(self).wf(),
            r is Err <==> old(self).create_aura_id_error(who, public_key@, recovery_config@.len() as int)
                is Some,
            r matches Err(e) ==> old(self).create_aura_id_error(
                who,
                public_key@,
                recovery_config@.len() as int,
            ) == Some(e) && *final(self) == *old(self),
            r matches Ok(did) ==> {
                &&& did@ == blake2_256_of(public_key@)
                &&& final(self).identities() == old(self).identities().insert(
                    who,
                    AuraIdRecord { did, public_key, recovery_config, created: old(self).height() },
                )
                &&& final(self).did_index() == old(self).did_index().insert(did@, who)
                &&& final(self).event_log() == old(self).event_log().push(
                    Event::AuraIdCreated { account: who, did },
                )
                &&& final(self).recovery_configs() == old(self).recovery_configs()
                &&& final(self).recovery_deposits() == old(self).recovery_deposits()
                &&& final(self).shares() == old(self).shares()
                &&& final(self).active_recoveries() == old(self).active_recoveries()
                &&& final(self).balances() == old(self).balances()
                &&& final(self).height() == old(self).height()
                &&& final(self).config_spec() == old(self).config_spec()
            },
    {
        if self.identities.contains_key(&who) {
            return Err(Error::AuraIdAlreadyExists);
        }
        if recovery_config.len() > MAX_BLOB_LEN {
            return Err(Error::RecoveryConfigTooLarge);
        }
        let did = Self::generate_did(&public_key);
        if self.did_lookup(&did).is_some() {
            return Err(Error::DidCollision);
        }
        let ghost old_self = *self;
        let record = AuraIdRecord { did, public_key, recovery_config, created: self.block_number };
        self.identities.insert(who, record);
        self.did_entries.push(DidEntry { did, account: who });
        self.did_model = Ghost(self.did_model@.insert(did@, who));
        self.events.push(Event::AuraIdCreated { account: who, did });
        proof {
            assert forall|a: u64| #[trigger]
                self.identities@.contains_key(a) implies self.did_model@.contains_key(
                self.identities@[a].did@,
            ) && self.did_model@[self.identities@[a].did@] == a by {
                if a != who {
                    assert(old_self.identities@.contains_key(a));
                    assert(self.identities@[a].did@ != did@);
                }
            }
            assert forall|d: Seq<u8>| #[trigger]
                self.did_model@.contains_key(d) implies exists|i: int|
                0 <= i < self.did_entries@.len() && #[trigger] self.did_entries@[i].did@ == d by {
                if d == did@ {
                    assert(self.did_entries@[old_self.did_entries@.len() as int].did@ == d);
                } else {
                    let i = choose|i: int|
                        0 <= i < old_self.did_entries@.len() && #[trigger] old_self.did_entries@[i].did@
                            == d;
                    assert(self.did_entries@[i] == old_self.did_entries@[i]);
                }
            }
            assert forall|i: int|
                0 <= i < self.did_entries@.len() implies self.did_model@.contains_key(
                #[trigger] self.did_entries@[i].did@,
            ) && self.did_model@[self.did_entries@[i].did@] == self.did_entries@[i].account by {
                if i < old_self.did_entries@.len() {
                    assert(self.did_entries@[i] == old_self.did_entries@[i]);
                }
            }
            assert forall|i: int, j: int|
                0 <= i < self.did_entries@.len() && 0 <= j < self.did_entries@.len() && i != j
                    implies #[trigger] self.did_entries@[i].did@
                != #[trigger] self.did_entries@[j].did@ by {
                let last = old_self.did_entries@.len() as int;
                if i < last {
                    assert(self.did_entries@[i] == old_self.did_entries@[i]);
                    assert(old_self.did_model@.contains_key(old_self.did_entries@[i].did@));
                }
                if j < last {
                    assert(self.did_entries@[j] == old_self.did_entries@[j]);
                    assert(old_self.did_model@.contains_key(old_self.did_entries@[j].did@));
                }
            }
            assert(self.wf_identities());
            assert(self.wf_configs());
        }
        Ok(did)
    }
}

/// Whether no account occurs twice in `v`.
fn distinct_accounts(v: &Vec<u64>) -> (r: bool)
    ensures
        r == distinct(v@),
{
    let n = v.len();
    let mut i: usize = 0;
    while i < n
        invariant
            n == v@.len(),
            i <= n,
            forall|a: int, b: int| 0 <= a < i && 0 <= b < n && a != b ==> v@[a] != v@[b],
        decreases n - i,
    {
        let mut j: usize = 0;
        while j < n
            invariant
                n == v@.len(),
                i < n,
                j <= n,
                forall|a: int, b: int| 0 <= a < i && 0 <= b < n && a != b ==> v@[a] != v@[b],
                forall|b: int| 0 <= b < j && b != i ==> v@[i as int] != v@[b],
            decreases n - j,
        {
            if j != i && v[i] == v[j] {
                return false;
            }
            j = j + 1;
        }
        i = i + 1;
    }
    true
}

impl Pallet {
    /// The balance of `a`.
    fn account(&self, a: u64) -> (r: AccountData)
        ensures
            r == account_of(self.balances@, a),
    {
        match self.balances.get(&a) {
            Some(d) => *d,
            None => AccountData { free: 0, reserved: 0 },
        }
    }

    /// The first precondition of `setup_recovery` that fails, if any.
    pub open spec fn setup_recovery_error(&self, who: u64, threshold: u8, trustees: Seq<u64>) -> Option<
        Error,
    > {
        if self.recovery_configs().contains_key(who) {
            Some(Error::RecoveryAlreadyConfigured)
        } else if threshold < MIN_THRESHOLD || threshold > MAX_THRESHOLD {
            Some(Error::InvalidRecoveryThreshold)
        } else if trustees.len() < threshold || trustees.len() > self.config_spec().max_trustees {
            Some(Error::TooManyTrustees)
        } else if exists|i: int|
            0 <= i < trustees.len() && !self.identities().contains_key(#[trigger] trustees[i]) {
            Some(Error::AuraIdNotFound)
        } else if !distinct(trustees) {
            Some(Error::AlreadyTrustee)
        } else if account_of(self.balances(), who).free < self.config_spec().recovery_deposit {
            Some(Error::InsufficientBalance)
        } else {
            None
        }
    }

    /// Gives `who` a recovery policy: `threshold` confirmations out of
    /// `trustees`, each of whom must have an identity. Reserves the configured
    /// deposit from `who`'s free balance.
    pub fn setup_recovery(&mut self, who: u64, threshold: u8, trustees: Vec<u64>) -> (r: Result<
        (),
        Error,
    >)
        requires
            old(self).wf(),
        ensures
            final(self).wf(),
            r is Err <==> old(self).setup_recovery_error(who, threshold, trustees@) is Some,
            r matches Err(e) ==> old(self).setup_recovery_error(who, threshold, trustees@) == Some(e)
                && *final(self) == *old(self),
            r is Ok ==> {
                let deposit = old(self).config_spec().recovery_deposit;
                let before = account_of(old(self).balances(), who);
                &&& final(self).recovery_configs() == old(self).recovery_configs().insert(
                    who,
                    RecoveryConfig {
                        threshold,
                        total_trustees: trustees@.len() as u8,
                        delay_period: DEFAULT_RECOVERY_DELAY,
                        active: true,
                        deposit,
                    },
                )
                &&& final(self).recovery_deposits() == old(self).recovery_deposits().insert(
                    who,
                    deposit,
                )
                &&& shares_with_trustees(old(self).shares(), final(self).shares(), who, trustees@)
                &&& final(self).balances() == old(self).balances().insert(
                    who,
                    AccountData {
                        free: (before.free - deposit) as u128,
                        reserved: (before.reserved + deposit) as u128,
                    },
                )
                &&& final(self).event_log() == old(self).event_log() + trustee_added_events(
                    who,
                    trustees@,
                ).push(
                    Event::RecoveryConfigured {
                        account: who,
                        threshold,
                        total_trustees: trustees@.len() as u8,
                    },
                )
                &&& final(self).identities() == old(self).identities()
                &&& final(self).did_index() == old(self).did_index()
                &&& final(self).active_recoveries() == old(self).active_recoveries()
                &&& final(self).height() == old(self).height()
                &&& final(self).config_spec() == old(self).config_spec()
            },
    {
        if self.recovery_configs.contains_key(&who) {
            return Err(Error::RecoveryAlreadyConfigured);
        }
        if threshold < MIN_THRESHOLD || threshold > MAX_THRESHOLD {
            return Err(Error::InvalidRecoveryThreshold);
        }
        let n = trustees.len();
        if n < threshold as usize || n > self.config.max_trustees as usize {
            return Err(Error::TooManyTrustees);
        }
        let mut i: usize = 0;
        #[verifier::loop_isolation(false)]
        while i < n
            invariant
                n == trustees@.len(),
                i <= n,
                forall|j: int| 0 <= j < i ==> self.identities@.contains_key(#[trigger] trustees@[j]),
            decreases n - i,
        {
            if !self.identities.contains_key(&trustees[i]) {
                return Err(Error::AuraIdNotFound);
            }
            i = i + 1;
        }
        if !distinct_accounts(&trustees) {
            return Err(Error::AlreadyTrustee);
        }
        let deposit = self.config.recovery_deposit;
        let before = self.account(who);
        if before.free < deposit {
            return Err(Error::InsufficientBalance);
        }
        let total = n as u8;
        let mut shares: Vec<TrusteeShare> = Vec::new();
        let mut added: Vec<Event> = Vec::new();
        let ghost old_model = self.share_model@;
        let ghost mut model = self.share_model@;
        let mut k: usize = 0;
        #[verifier::loop_isolation(false)]
        while k < n
            invariant
                n == trustees@.len(),
                k <= n,
                distinct(trustees@),
                shares@.len() == k,
                added@ == trustee_added_events(who, trustees@.subrange(0, k as int)),
                forall|j: int| 0 <= j < k ==> is_fresh_share(#[trigger] shares@[j], trustees@[j]),
                forall|j: int| 0 <= j < k ==> #[trigger] shares@[j] == model[(who, trustees@[j])],
                forall|j: int| 0 <= j < k ==> model.contains_key((who, #[trigger] trustees@[j])),
                forall|key: (u64, u64)|
                    key.0 != who ==> (#[trigger] model.contains_key(key) == old_model.contains_key(
                        key,
                    )) && (old_model.contains_key(key) ==> model[key] == old_model[key]),
                forall|t: u64| #[trigger]
                    model.contains_key((who, t)) == trustees@.subrange(0, k as int).contains(t),
            decreases n - k,
        {
            let t = trustees[k];
            let ghost prev = shares@;
            let s = TrusteeShare { trustee_account: t, share: Vec::new(), confirmed: false };
            proof {
                model = model.insert((who, t), s);
            }
            shares.push(s);
            added.push(Event::TrusteeAdded { account: who, trustee: t });
            proof {
                assert(trustees@.subrange(0, k + 1) =~= trustees@.subrange(0, k as int).push(t));
                assert(trustee_added_events(who, trustees@.subrange(0, k + 1))
                    =~= trustee_added_events(who, trustees@.subrange(0, k as int)).push(
                    Event::TrusteeAdded { account: who, trustee: t },
                ));
                assert forall|u: u64| #[trigger]
                    model.contains_key((who, u)) == trustees@.subrange(0, k + 1).contains(u) by {
                    if u != t {
                        assert(trustees@.subrange(0, k + 1).contains(u) == trustees@.subrange(
                            0,
                            k as int,
                        ).contains(u));
                    } else {
                        assert(trustees@.subrange(0, k + 1)[k as int] == t);
                    }
                }
            }
            k = k + 1;
            proof {
                assert forall|j: int| 0 <= j < k implies #[trigger] shares@[j] == model[(
                    who,
                    trustees@[j],
                )] by {
                    if j < k - 1 {
                        assert(trustees@[j] != t);
                        assert(shares@[j] == prev[j]);
                    }
                }
            }
        }
        proof {
            assert(trustees@.subrange(0, n as int) =~= trustees@);
        }
        self.balances.insert(
            who,
            AccountData { free: before.free - deposit, reserved: before.reserved + deposit },
        );
        self.recovery_configs.insert(
            who,
            RecoveryConfig {
                threshold,
                total_trustees: total,
                delay_period: DEFAULT_RECOVERY_DELAY,
                active: true,
                deposit,
            },
        );
        self.recovery_deposits.insert(who, deposit);
        self.trustee_shares.insert(who, shares);
        self.share_model = Ghost(model);
        self.events.append(&mut added);
        self.events.push(
            Event::RecoveryConfigured { account: who, threshold, total_trustees: total },
        );
        proof {
            assert(self.event_log() =~= old(self).event_log() + trustee_added_events(
                who,
                trustees@,
            ).push(Event::RecoveryConfigured { account: who, threshold, total_trustees: total }));
            assert forall|t: u64| #[trigger] trustees@.contains(t) implies is_fresh_share(
                self.shares()[(who, t)],
                t,
            ) by {
                let j = choose|j: int| 0 <= j < trustees@.len() && trustees@[j] == t;
                assert(shares@[j] == self.shares()[(who, t)]);
            }
            assert(shares_with_trustees(old(self).shares(), self.shares(), who, trustees@));
            lemma_identities_frame(&*old(self), &*self);
            assert forall|o: u64, i: int|
                self.trustee_shares@.contains_key(o) && 0 <= i < self.trustee_shares@[o]@.len()
                    implies self.share_model@.contains_key(
                (o, #[trigger] self.trustee_shares@[o]@[i].trustee_account),
            ) && self.share_model@[(o, self.trustee_shares@[o]@[i].trustee_account)]
                == self.trustee_shares@[o]@[i] by {
                if o == who {
                    assert(self.trustee_shares@[o]@[i] == shares@[i]);
                } else {
                    assert(self.trustee_shares@[o] == old(self).trustee_shares@[o]);
                }
            }
            assert forall|key: (u64, u64)| #[trigger]
                self.share_model@.contains_key(key) implies self.trustee_shares@.contains_key(key.0)
                && exists|i: int|
                    0 <= i < self.trustee_shares@[key.0]@.len()
                        && #[trigger] self.trustee_shares@[key.0]@[i].trustee_account == key.1 by {
                if key.0 == who {
                    assert(trustees@.contains(key.1));
                    let j = choose|j: int| 0 <= j < trustees@.len() && trustees@[j] == key.1;
                    assert(self.trustee_shares@[key.0]@[j].trustee_account == key.1);
                } else {
                    assert(old(self).share_model@.contains_key(key));
                    assert(self.trustee_shares@[key.0] == old(self).trustee_shares@[key.0]);
                }
            }
            assert forall|o: u64, i: int, j: int|
                self.trustee_shares@.contains_key(o) && 0 <= i < self.trustee_shares@[o]@.len() && 0
                    <= j < self.trustee_shares@[o]@.len() && i != j
                    implies #[trigger] self.trustee_shares@[o]@[i].trustee_account
                != #[trigger] self.trustee_shares@[o]@[j].trustee_account by {
                if o == who {
                    assert(shares@[i].trustee_account == trustees@[i]);
                    assert(shares@[j].trustee_account == trustees@[j]);
                } else {
                    assert(self.trustee_shares@[o] == old(self).trustee_shares@[o]);
                }
            }
            assert(self.wf_shares());
            assert(self.wf_configs());
        }
        Ok(())
    }
}

impl Pallet {
    /// Where `trustee`'s share for `owner` sits in `owner`'s list, if any.
    fn share_index(&self, owner: u64, trustee: u64) -> (r: Option<usize>)
        requires
            self.wf(),
            self.trustee_shares@.contains_key(owner),
        ensures
            match r {
                Some(i) => {
                    &&& i < self.trustee_shares@[owner]@.len()
                    &&& self.trustee_shares@[owner]@[i as int].trustee_account == trustee
                    &&& self.share_model@.contains_key((owner, trustee))
                    &&& self.share_model@[(owner, trustee)] == self.trustee_shares@[owner]@[i as int]
                },
                None => !self.share_model@.contains_key((owner, trustee)),
            },
    {
        match self.trustee_shares.get(&owner) {
            Some(v) => {
                let n = v.len();
                let mut i: usize = 0;
                while i < n
                    invariant
                        self.wf(),
                        self.trustee_shares@.contains_key(owner),
                        *v == self.trustee_shares@[owner],
                        n == v@.len(),
                        i <= n,
                        forall|j: int| 0 <= j < i ==> (#[trigger] v@[j]).trustee_account != trustee,
                    decreases n - i,
                {
                    if v[i].trustee_account == trustee {
                        return Some(i);
                    }
                    i = i + 1;
                }
                proof {
                    if self.share_model@.contains_key((owner, trustee)) {
                        let j = choose|j: int|
                            0 <= j < self.trustee_shares@[owner]@.len()
                                && #[trigger] self.trustee_shares@[owner]@[j].trustee_account
                                == trustee;
                        assert(v@[j].trustee_account != trustee);
                    }
                }
                None
            },
            None => None,
        }
    }

    /// The first precondition of `add_trustee` that fails, if any.
    pub open spec fn add_trustee_error(&self, who: u64, trustee: u64) -> Option<Error> {
        if !self.recovery_configs().contains_key(who) {
            Some(Error::RecoveryNotConfigured)
        } else if self.recovery_configs()[who].total_trustees >= self.config_spec().max_trustees {
            Some(Error::TooManyTrustees)
        } else if !self.identities().contains_key(trustee) {
            Some(Error::AuraIdNotFound)
        } else if self.shares().contains_key((who, trustee)) {
            Some(Error::AlreadyTrustee)
        } else {
            None
        }
    }

    /// Names one more trustee, with a fresh share, in `who`'s policy.
    pub fn add_trustee(&mut self, who: u64, trustee: u64) -> (r: Result<(), Error>)
        requires
            old(self).wf(),
        ensures
            final(self).wf(),
            r is Err <==> old(self).add_trustee_error(who, trustee) is Some,
            r matches Err(e) ==> old(self).add_trustee_error(who, trustee) == Some(e) && *final(self)
                == *old(self),
            r is Ok ==> {
                let c = old(self).recovery_configs()[who];
                &&& final(self).recovery_configs() == old(self).recovery_configs().insert(
                    who,
                    RecoveryConfig { total_trustees: (c.total_trustees + 1) as u8, ..c },
                )
                &&& final(self).shares().contains_key((who, trustee))
                &&& is_fresh_share(final(self).shares()[(who, trustee)], trustee)
                &&& final(self).shares().remove((who, trustee)) == old(self).shares()
                &&& final(self).event_log() == old(self).event_log().push(
                    Event::TrusteeAdded { account: who, trustee },
                )
                &&& final(self).identities() == old(self).identities()
                &&& final(self).did_index() == old(self).did_index()
                &&& final(self).recovery_deposits() == old(self).recovery_deposits()
                &&& final(self).active_recoveries() == old(self).active_recoveries()
                &&& final(self).balances() == old(self).balances()
                &&& final(self).height() == old(self).height()
                &&& final(self).config_spec() == old(self).config_spec()
            },
    {
        let c = match self.recovery_configs.get(&who) {
            Some(c) => *c,
            None => {
                return Err(Error::RecoveryNotConfigured);
            },
        };
        if c.total_trustees as u32 >= self.config.max_trustees {
            return Err(Error::TooManyTrustees);
        }
        if !self.identities.contains_key(&trustee) {
            return Err(Error::AuraIdNotFound);
        }
        if self.share_index(who, trustee).is_some() {
            return Err(Error::AlreadyTrustee);
        }
        let ghost old_self = *self;
        let mut v = match self.trustee_shares.remove(&who) {
            Some(v) => v,
            None => Vec::new(),
        };
        let s = TrusteeShare { trustee_account: trustee, share: Vec::new(), confirmed: false };
        proof {
            self.share_model@ = self.share_model@.insert((who, trustee), s);
        }
        v.push(s);
        self.trustee_shares.insert(who, v);
        self.recovery_configs.insert(
            who,
            RecoveryConfig { total_trustees: c.total_trustees + 1, ..c },
        );
        self.events.push(Event::TrusteeAdded { account: who, trustee });
        proof {
            let ov = old_self.trustee_shares@[who]@;
            let nv = self.trustee_shares@[who]@;
            assert(nv == ov.push(s));
            assert forall|o: u64, i: int|
                self.trustee_shares@.contains_key(o) && 0 <= i < self.trustee_shares@[o]@.len()
                    implies self.share_model@.contains_key(
                (o, #[trigger] self.trustee_shares@[o]@[i].trustee_account),
            ) && self.share_model@[(o, self.trustee_shares@[o]@[i].trustee_account)]
                == self.trustee_shares@[o]@[i] by {
                if o == who {
                    if i < ov.len() {
                        assert(nv[i] == ov[i]);
                        assert(old_self.trustee_shares@[o]@[i] == ov[i]);
                    }
                } else {
                    assert(self.trustee_shares@[o] == old_self.trustee_shares@[o]);
                }
            }
            assert forall|key: (u64, u64)| #[trigger]
                self.share_model@.contains_key(key) implies self.trustee_shares@.contains_key(key.0)
                && exists|i: int|
                    0 <= i < self.trustee_shares@[key.0]@.len()
                        && #[trigger] self.trustee_shares@[key.0]@[i].trustee_account == key.1 by {
                if key == (who, trustee) {
                    assert(nv[ov.len() as int].trustee_account == key.1);
                } else if key.0 == who {
                    let i = choose|i: int|
                        0 <= i < old_self.trustee_shares@[key.0]@.len()
                            && #[trigger] old_self.trustee_shares@[key.0]@[i].trustee_account
                            == key.1;
                    assert(nv[i] == ov[i]);
                } else {
                    assert(self.trustee_shares@[key.0] == old_self.trustee_shares@[key.0]);
                }
            }
            assert forall|o: u64, i: int, j: int|
                self.trustee_shares@.contains_key(o) && 0 <= i < self.trustee_shares@[o]@.len() && 0
                    <= j < self.trustee_shares@[o]@.len() && i != j
                    implies #[trigger] self.trustee_shares@[o]@[i].trustee_account
                != #[trigger] self.trustee_shares@[o]@[j].trustee_account by {
                if o == who {
                    if i < ov.len() {
                        assert(nv[i] == ov[i]);
                        assert(old_self.trustee_shares@[o]@[i] == ov[i]);
                    }
                    if j < ov.len() {
                        assert(nv[j] == ov[j]);
                        assert(old_self.trustee_shares@[o]@[j] == ov[j]);
                    }
                } else {
                    assert(self.trustee_shares@[o] == old_self.trustee_shares@[o]);
                }
            }
            assert(self.wf_shares());
            assert(self.share_model@.remove((who, trustee)) =~= old_self.share_model@);
            lemma_identities_frame(&old_self, &*self);
            assert(self.wf_configs());
        }
        Ok(())
    }
}

impl Pallet {
    /// The first precondition of `remove_trustee` that fails, if any.
    pub open spec fn remove_trustee_error(&self, who: u64, trustee: u64) -> Option<Error> {
        if !self.recovery_configs().contains_key(who) {
            Some(Error::RecoveryNotConfigured)
        } else if !self.shares().contains_key((who, trustee)) {
            Some(Error::TrusteeNotFound)
        } else {
            None
        }
    }

    /// Drops `trustee` from `who`'s policy. Where fewer trustees than the
    /// threshold remain, the threshold is lowered to their number.
    pub fn remove_trustee(&mut self, who: u64, trustee: u64) -> (r: Result<(), Error>)
        requires
            old(self).wf(),
        ensures
            final(self).wf(),
            r is Err <==> old(self).remove_trustee_error(who, trustee) is Some,
            r matches Err(e) ==> old(self).remove_trustee_error(who, trustee) == Some(e)
                && *final(self) == *old(self),
            r is Ok ==> {
                let c = old(self).recovery_configs()[who];
                let total = (c.total_trustees - 1) as u8;
                &&& final(self).recovery_configs() == old(self).recovery_configs().insert(
                    who,
                    RecoveryConfig {
                        total_trustees: total,
                        threshold: if c.threshold > total {
                            total
                        } else {
                            c.threshold
                        },
                        ..c
                    },
                )
                &&& final(self).shares() == old(self).shares().remove((who, trustee))
                &&& final(self).event_log() == old(self).event_log().push(
                    Event::TrusteeRemoved { account: who, trustee },
                )
                &&& final(self).identities() == old(self).identities()
                &&& final(self).did_index() == old(self).did_index()
                &&& final(self).recovery_deposits() == old(self).recovery_deposits()
                &&& final(self).active_recoveries() == old(self).active_recoveries()
                &&& final(self).balances() == old(self).balances()
                &&& final(self).height() == old(self).height()
                &&& final(self).config_spec() == old(self).config_spec()
            },
    {
        let c = match self.recovery_configs.get(&who) {
            Some(c) => *c,
            None => {
                return Err(Error::RecoveryNotConfigured);
            },
        };
        let idx = match self.share_index(who, trustee) {
            Some(i) => i,
            None => {
                return Err(Error::TrusteeNotFound);
            },
        };
        let ghost old_self = *self;
        let mut v = match self.trustee_shares.remove(&who) {
            Some(v) => v,
            None => Vec::new(),
        };
        let ghost ov = v@;
        let _ = v.remove(idx);
        self.trustee_shares.insert(who, v);
        proof {
            self.share_model@ = self.share_model@.remove((who, trustee));
        }
        let total = c.total_trustees - 1;
        let threshold = if c.threshold > total {
            total
        } else {
            c.threshold
        };
        self.recovery_configs.insert(who, RecoveryConfig { total_trustees: total, threshold, ..c });
        self.events.push(Event::TrusteeRemoved { account: who, trustee });
        proof {
            let nv = self.trustee_shares@[who]@;
            let k = idx as int;
            assert(nv == ov.remove(k));
            assert(ov == old_self.trustee_shares@[who]@);
            assert forall|o: u64, i: int|
                self.trustee_shares@.contains_key(o) && 0 <= i < self.trustee_shares@[o]@.len()
                    implies self.share_model@.contains_key(
                (o, #[trigger] self.trustee_shares@[o]@[i].trustee_account),
            ) && self.share_model@[(o, self.trustee_shares@[o]@[i].trustee_account)]
                == self.trustee_shares@[o]@[i] by {
                if o == who {
                    let oi = if i < k {
                        i
                    } else {
                        i + 1
                    };
                    assert(nv[i] == ov[oi]);
                    assert(old_self.trustee_shares@[o]@[oi] == ov[oi]);
                    assert(ov[oi].trustee_account != ov[k].trustee_account);
                } else {
                    assert(self.trustee_shares@[o] == old_self.trustee_shares@[o]);
                }
            }
            assert forall|key: (u64, u64)| #[trigger]
                self.share_model@.contains_key(key) implies self.trustee_shares@.contains_key(key.0)
                && exists|i: int|
                    0 <= i < self.trustee_shares@[key.0]@.len()
                        && #[trigger] self.trustee_shares@[key.0]@[i].trustee_account == key.1 by {
                if key.0 == who {
                    let i = choose|i: int|
                        0 <= i < old_self.trustee_shares@[key.0]@.len()
                            && #[trigger] old_self.trustee_shares@[key.0]@[i].trustee_account
                            == key.1;
                    assert(i != k);
                    if i < k {
                        assert(nv[i] == ov[i]);
                    } else {
                        assert(nv[i - 1] == ov[i]);
                    }
                } else {
                    assert(self.trustee_shares@[key.0] == old_self.trustee_shares@[key.0]);
                }
            }
            assert forall|o: u64, i: int, j: int|
                self.trustee_shares@.contains_key(o) && 0 <= i < self.trustee_shares@[o]@.len() && 0
                    <= j < self.trustee_shares@[o]@.len() && i != j
                    implies #[trigger] self.trustee_shares@[o]@[i].trustee_account
                != #[trigger] self.trustee_shares@[o]@[j].trustee_account by {
                if o == who {
                    let oi = if i < k {
                        i
                    } else {
                        i + 1
                    };
                    let oj = if j < k {
                        j
                    } else {
                        j + 1
                    };
                    assert(nv[i] == ov[oi]);
                    assert(nv[j] == ov[oj]);
                    assert(old_self.trustee_shares@[o]@[oi] == ov[oi]);
                    assert(old_self.trustee_shares@[o]@[oj] == ov[oj]);
                } else {
                    assert(self.trustee_shares@[o] == old_self.trustee_shares@[o]);
                }
            }
            assert(self.wf_shares());
            lemma_identities_frame(&old_self, &*self);
            assert(self.wf_configs());
        }
        Ok(())
    }
}

impl Pallet {
    /// The first precondition of `deactivate_recovery` that fails, if any.
    pub open spec fn deactivate_recovery_error(&self, who: u64) -> Option<Error> {
        if !self.recovery_configs().contains_key(who) {
            Some(Error::RecoveryNotConfigured)
        } else if self.active_recoveries().contains_key(who) {
            Some(Error::RecoveryAlreadyActive)
        } else {
            None
        }
    }

    /// Tears down `who`'s recovery policy while no claim on it is pending:
    /// drops its trustees and releases the deposit to `who`'s free balance.
    pub fn deactivate_recovery(&mut self, who: u64) -> (r: Result<(), Error>)
        requires
            old(self).wf(),
        ensures
            final(self).wf(),
            r is Err <==> old(self).deactivate_recovery_error(who) is Some,
            r matches Err(e) ==> old(self).deactivate_recovery_error(who) == Some(e) && *final(self)
                == *old(self),
            r is Ok ==> {
                let deposit = old(self).recovery_configs()[who].deposit;
                let before = account_of(old(self).balances(), who);
                &&& final(self).recovery_configs() == old(self).recovery_configs().remove(who)
                &&& final(self).recovery_deposits() == old(self).recovery_deposits().remove(who)
                &&& final(self).shares() == without_owner(old(self).shares(), who)
                &&& final(self).balances() == old(self).balances().insert(
                    who,
                    AccountData {
                        free: (before.free + deposit) as u128,
                        reserved: (before.reserved - deposit) as u128,
                    },
                )
                &&& final(self).event_log() == old(self).event_log().push(
                    Event::RecoveryDeactivated { account: who },
                )
                &&& final(self).identities() == old(self).identities()
                &&& final(self).did_index() == old(self).did_index()
                &&& final(self).active_recoveries() == old(self).active_recoveries()
                &&& final(self).height() == old(self).height()
                &&& final(self).config_spec() == old(self).config_spec()
            },
    {
        let c = match self.recovery_configs.get(&who) {
            Some(c) => *c,
            None => {
                return Err(Error::RecoveryNotConfigured);
            },
        };
        if self.active_recoveries.contains_key(&who) {
            return Err(Error::RecoveryAlreadyActive);
        }
        let ghost old_self = *self;
        let before = self.account(who);
        self.balances.insert(
            who,
            AccountData { free: before.free + c.deposit, reserved: before.reserved - c.deposit },
        );
        let _ = self.recovery_configs.remove(&who);
        let _ = self.recovery_deposits.remove(&who);
        let _ = self.trustee_shares.remove(&who);
        proof {
            self.share_model@ = without_owner(self.share_model@, who);
        }
        self.events.push(Event::RecoveryDeactivated { account: who });
        proof {
            lemma_identities_frame(&old_self, &*self);
            assert forall|o: u64, i: int|
                self.trustee_shares@.contains_key(o) && 0 <= i < self.trustee_shares@[o]@.len()
                    implies self.share_model@.contains_key(
                (o, #[trigger] self.trustee_shares@[o]@[i].trustee_account),
            ) && self.share_model@[(o, self.trustee_shares@[o]@[i].trustee_account)]
                == self.trustee_shares@[o]@[i] by {
                assert(self.trustee_shares@[o] == old_self.trustee_shares@[o]);
            }
            assert forall|key: (u64, u64)| #[trigger]
                self.share_model@.contains_key(key) implies self.trustee_shares@.contains_key(key.0)
                && exists|i: int|
                    0 <= i < self.trustee_shares@[key.0]@.len()
                        && #[trigger] self.trustee_shares@[key.0]@[i].trustee_account == key.1 by {
                assert(old_self.share_model@.contains_key(key));
                assert(self.trustee_shares@[key.0] == old_self.trustee_shares@[key.0]);
            }
            assert forall|o: u64, i: int, j: int|
                self.trustee_shares@.contains_key(o) && 0 <= i < self.trustee_shares@[o]@.len() && 0
                    <= j < self.trustee_shares@[o]@.len() && i != j
                    implies #[trigger] self.trustee_shares@[o]@[i].trustee_account
                != #[trigger] self.trustee_shares@[o]@[j].trustee_account by {
                assert(self.trustee_shares@[o] == old_self.trustee_shares@[o]);
            }
            assert(self.wf_shares());
            assert(self.wf_configs());
        }
        Ok(())
    }
}

impl Pallet {
    /// The first precondition of `initiate_recovery` that fails, if any.
    pub open spec fn initiate_recovery_error(&self, lost_account: u64) -> Option<Error> {
        if !self.identities().contains_key(lost_account) {
            Some(Error::AuraIdNotFound)
        } else if !self.recovery_configs().contains_key(lost_account)
            || !self.recovery_configs()[lost_account].active {
            Some(Error::RecoveryNotConfigured)
        } else if self.active_recoveries().contains_key(lost_account) {
            Some(Error::RecoveryAlreadyActive)
        } else {
            None
        }
    }

    /// Opens a claim by `requester` on `lost_account`, proposing
    /// `new_public_key`. It may execute once the policy's delay has passed
    /// (the height saturates at `u32::MAX`).
    pub fn initiate_recovery(&mut self, requester: u64, lost_account: u64, new_public_key: [u8; 32]) -> (r:
        Result<(), Error>)
        requires
            old(self).wf(),
        ensures
            final(self).wf(),
            r is Err <==> old(self).initiate_recovery_error(lost_account) is Some,
            r matches Err(e) ==> old(self).initiate_recovery_error(lost_account) == Some(e)
                && *final(self) == *old(self),
            r is Ok ==> {
                let due = old(self).height() + old(self).recovery_configs()[lost_account].delay_period;
                &&& final(self).active_recoveries() == old(self).active_recoveries().insert(
                    lost_account,
                    RecoveryRequest {
                        requesting_account: requester,
                        new_public_key,
                        submitted_shares: 0,
                        execute_at: if due > u32::MAX {
                            u32::MAX
                        } else {
                            due as u32
                        },
                        completed: false,
                    },
                )
                &&& final(self).event_log() == old(self).event_log().push(
                    Event::RecoveryInitiated { lost_account, requesting_account: requester },
                )
                &&& final(self).identities() == old(self).identities()
                &&& final(self).did_index() == old(self).did_index()
                &&& final(self).recovery_configs() == old(self).recovery_configs()
                &&& final(self).recovery_deposits() == old(self).recovery_deposits()
                &&& final(self).shares() == old(self).shares()
                &&& final(self).balances() == old(self).balances()
                &&& final(self).height() == old(self).height()
                &&& final(self).config_spec() == old(self).config_spec()
            },
    {
        if !self.identities.contains_key(&lost_account) {
            return Err(Error::AuraIdNotFound);
        }
        let c = match self.recovery_configs.get(&lost_account) {
            Some(c) => *c,
            None => {
                return Err(Error::RecoveryNotConfigured);
            },
        };
        if !c.active {
            return Err(Error::RecoveryNotConfigured);
        }
        if self.active_recoveries.contains_key(&lost_account) {
            return Err(Error::RecoveryAlreadyActive);
        }
        let ghost old_self = *self;
        let execute_at = if self.block_number as u64 + c.delay_period as u64 > u32::MAX as u64 {
            u32::MAX
        } else {
            self.block_number + c.delay_period
        };
        self.active_recoveries.insert(
            lost_account,
            RecoveryRequest {
                requesting_account: requester,
                new_public_key,
                submitted_shares: 0,
                execute_at,
                completed: false,
            },
        );
        self.events.push(Event::RecoveryInitiated { lost_account, requesting_account: requester });
        proof {
            lemma_identities_frame(&old_self, &*self);
            assert(self.wf_shares());
            assert(self.wf_configs());
        }
        Ok(())
    }
}

impl Pallet {
    /// The first precondition of `submit_trustee_share` that fails, if any.
    pub open spec fn submit_trustee_share_error(&self, trustee: u64, lost_account: u64, share_len: int) -> Option<
        Error,
    > {
        if !self.active_recoveries().contains_key(lost_account) {
            Some(Error::RecoveryNotActive)
        } else if !self.shares().contains_key((lost_account, trustee)) {
            Some(Error::TrusteeNotFound)
        } else if self.shares()[(lost_account, trustee)].confirmed {
            Some(Error::AlreadyConfirmed)
        } else if share_len > MAX_BLOB_LEN {
            Some(Error::ShareTooLarge)
        } else {
            None
        }
    }

    /// `trustee` confirms the recovery in flight for `lost_account`, handing
    /// over its share. The request's count of confirmations goes up by one
    /// (saturating at `u8::MAX`).
    pub fn submit_trustee_share(&mut self, trustee: u64, lost_account: u64, share: Vec<u8>) -> (r:
        Result<(), Error>)
        requires
            old(self).wf(),
        ensures
            final(self).wf(),
            r is Err <==> old(self).submit_trustee_share_error(trustee, lost_account, share@.len() as int)
                is Some,
            r matches Err(e) ==> old(self).submit_trustee_share_error(
                trustee,
                lost_account,
                share@.len() as int,
            ) == Some(e) && *final(self) == *old(self),
            r is Ok ==> {
                let q = old(self).active_recoveries()[lost_account];
                &&& final(self).shares() == old(self).shares().insert(
                    (lost_account, trustee),
                    TrusteeShare { trustee_account: trustee, share, confirmed: true },
                )
                &&& final(self).active_recoveries() == old(self).active_recoveries().insert(
                    lost_account,
                    RecoveryRequest {
                        submitted_shares: if q.submitted_shares < u8::MAX {
                            (q.submitted_shares + 1) as u8
                        } else {
                            u8::MAX
                        },
                        ..q
                    },
                )
                &&& final(self).event_log() == old(self).event_log().push(
                    Event::RecoveryShareProvided { lost_account, trustee },
                )
                &&& final(self).identities() == old(self).identities()
                &&& final(self).did_index() == old(self).did_index()
                &&& final(self).recovery_configs() == old(self).recovery_configs()
                &&& final(self).recovery_deposits() == old(self).recovery_deposits()
                &&& final(self).balances() == old(self).balances()
                &&& final(self).height() == old(self).height()
                &&& final(self).config_spec() == old(self).config_spec()
            },
    {
        let q = match self.active_recoveries.get(&lost_account) {
            Some(q) => *q,
            None => {
                return Err(Error::RecoveryNotActive);
            },
        };
        let idx = match self.share_index(lost_account, trustee) {
            Some(i) => i,
            None => {
                return Err(Error::TrusteeNotFound);
            },
        };
        let confirmed = match self.trustee_shares.get(&lost_account) {
            Some(v) => v[idx].confirmed,
            None => false,
        };
        if confirmed {
            return Err(Error::AlreadyConfirmed);
        }
        if share.len() > MAX_BLOB_LEN {
            return Err(Error::ShareTooLarge);
        }
        let ghost old_self = *self;
        let mut v = match self.trustee_shares.remove(&lost_account) {
            Some(v) => v,
            None => Vec::new(),
        };
        let ghost ov = v@;
        let s = TrusteeShare { trustee_account: trustee, share, confirmed: true };
        proof {
            self.share_model@ = self.share_model@.insert((lost_account, trustee), s);
        }
        v[idx] = s;
        self.trustee_shares.insert(lost_account, v);
        let submitted = if q.submitted_shares < u8::MAX {
            q.submitted_shares + 1
        } else {
            u8::MAX
        };
        self.active_recoveries.insert(
            lost_account,
            RecoveryRequest { submitted_shares: submitted, ..q },
        );
        self.events.push(Event::RecoveryShareProvided { lost_account, trustee });
        proof {
            let nv = self.trustee_shares@[lost_account]@;
            let k = idx as int;
            assert(nv == ov.update(k, s));
            assert(ov == old_self.trustee_shares@[lost_account]@);
            assert forall|o: u64, i: int|
                self.trustee_shares@.contains_key(o) && 0 <= i < self.trustee_shares@[o]@.len()
                    implies self.share_model@.contains_key(
                (o, #[trigger] self.trustee_shares@[o]@[i].trustee_account),
            ) && self.share_model@[(o, self.trustee_shares@[o]@[i].trustee_account)]
                == self.trustee_shares@[o]@[i] by {
                if o == lost_account {
                    if i != k {
                        assert(nv[i] == ov[i]);
                        assert(old_self.trustee_shares@[o]@[i] == ov[i]);
                        assert(ov[i].trustee_account != ov[k].trustee_account);
                    }
                } else {
                    assert(self.trustee_shares@[o] == old_self.trustee_shares@[o]);
                }
            }
            assert forall|key: (u64, u64)| #[trigger]
                self.share_model@.contains_key(key) implies self.trustee_shares@.contains_key(key.0)
                && exists|i: int|
                    0 <= i < self.trustee_shares@[key.0]@.len()
                        && #[trigger] self.trustee_shares@[key.0]@[i].trustee_account == key.1 by {
                if key.0 == lost_account {
                    let i = choose|i: int|
                        0 <= i < old_self.trustee_shares@[key.0]@.len()
                            && #[trigger] old_self.trustee_shares@[key.0]@[i].trustee_account
                            == key.1;
                    assert(nv[i].trustee_account == ov[i].trustee_account);
                } else {
                    assert(self.trustee_shares@[key.0] == old_self.trustee_shares@[key.0]);
                }
            }
            assert forall|o: u64, i: int, j: int|
                self.trustee_shares@.contains_key(o) && 0 <= i < self.trustee_shares@[o]@.len() && 0
                    <= j < self.trustee_shares@[o]@.len() && i != j
                    implies #[trigger] self.trustee_shares@[o]@[i].trustee_account
                != #[trigger] self.trustee_shares@[o]@[j].trustee_account by {
                if o == lost_account {
                    assert(nv[i].trustee_account == ov[i].trustee_account);
                    assert(nv[j].trustee_account == ov[j].trustee_account);
                    assert(old_self.trustee_shares@[o]@[i] == ov[i]);
                    assert(old_self.trustee_shares@[o]@[j] == ov[j]);
                } else {
                    assert(self.trustee_shares@[o] == old_self.trustee_shares@[o]);
                }
            }
            assert(self.wf_shares());
            lemma_identities_frame(&old_self, &*self);
            assert(self.wf_configs());
        }
        Ok(())
    }
}

impl Pallet {
    /// Marks every share of `owner` unconfirmed, for the next recovery cycle.
    fn reset_confirmations(&mut self, owner: u64)
        requires
            old(self).wf_shares(),
            old(self).trustee_shares@.contains_key(owner),
        ensures
            final(self).wf_shares(),
            confirmations_cleared(old(self).share_model@, final(self).share_model@, owner),
            final(self).trustee_shares@.dom() == old(self).trustee_shares@.dom(),
            final(self).trustee_shares@[owner]@.len() == old(self).trustee_shares@[owner]@.len(),
            forall|o: u64|
                o != owner && #[trigger] old(self).trustee_shares@.contains_key(o)
                    ==> final(self).trustee_shares@[o] == old(self).trustee_shares@[o],
            final(self).identities == old(self).identities,
            final(self).did_entries == old(self).did_entries,
            final(self).did_model == old(self).did_model,
            final(self).recovery_configs == old(self).recovery_configs,
            final(self).recovery_deposits == old(self).recovery_deposits,
            final(self).active_recoveries == old(self).active_recoveries,
            final(self).balances == old(self).balances,
            final(self).events == old(self).events,
            final(self).config == old(self).config,
            final(self).block_number == old(self).block_number,
    {
        let ghost old_self = *self;
        let mut v = match self.trustee_shares.remove(&owner) {
            Some(v) => v,
            None => Vec::new(),
        };
        let ghost ov = v@;
        let n = v.len();
        let mut i: usize = 0;
        while i < n
            invariant
                n == v@.len(),
                n == ov.len(),
                i <= n,
                forall|j: int|
                    0 <= j < i ==> #[trigger] v@[j] == (TrusteeShare { confirmed: false, ..ov[j] }),
                forall|j: int| i <= j < n ==> #[trigger] v@[j] == ov[j],
            decreases n - i,
        {
            v[i].confirmed = false;
            i = i + 1;
        }
        self.trustee_shares.insert(owner, v);
        let ghost model = old_self.share_model@;
        proof {
            self.share_model@ = Map::new(
                |k: (u64, u64)| model.contains_key(k),
                |k: (u64, u64)|
                    if k.0 == owner {
                        TrusteeShare { confirmed: false, ..model[k] }
                    } else {
                        model[k]
                    },
            );
            assert(self.share_model@.dom() =~= model.dom());
            let nv = self.trustee_shares@[owner]@;
            assert(ov == old_self.trustee_shares@[owner]@);
            assert forall|o: u64, i: int|
                self.trustee_shares@.contains_key(o) && 0 <= i < self.trustee_shares@[o]@.len()
                    implies self.share_model@.contains_key(
                (o, #[trigger] self.trustee_shares@[o]@[i].trustee_account),
            ) && self.share_model@[(o, self.trustee_shares@[o]@[i].trustee_account)]
                == self.trustee_shares@[o]@[i] by {
                if o == owner {
                    assert(nv[i] == TrusteeShare { confirmed: false, ..ov[i] });
                    assert(old_self.trustee_shares@[o]@[i] == ov[i]);
                } else {
                    assert(self.trustee_shares@[o] == old_self.trustee_shares@[o]);
                }
            }
            assert forall|key: (u64, u64)| #[trigger]
                self.share_model@.contains_key(key) implies self.trustee_shares@.contains_key(key.0)
                && exists|i: int|
                    0 <= i < self.trustee_shares@[key.0]@.len()
                        && #[trigger] self.trustee_shares@[key.0]@[i].trustee_account == key.1 by {
                assert(old_self.share_model@.contains_key(key));
                assert(old_self.trustee_shares@.contains_key(key.0));
                if key.0 == owner {
                    let i = choose|i: int|
                        0 <= i < old_self.trustee_shares@[key.0]@.len()
                            && #[trigger] old_self.trustee_shares@[key.0]@[i].trustee_account
                            == key.1;
                    assert(nv[i] == TrusteeShare { confirmed: false, ..ov[i] });
                    assert(self.trustee_shares@[key.0]@[i].trustee_account == key.1);
                } else {
                    assert(self.trustee_shares@[key.0] == old_self.trustee_shares@[key.0]);
                }
            }
            assert forall|o: u64, i: int, j: int|
                self.trustee_shares@.contains_key(o) && 0 <= i < self.trustee_shares@[o]@.len() && 0
                    <= j < self.trustee_shares@[o]@.len() && i != j
                    implies #[trigger] self.trustee_shares@[o]@[i].trustee_account
                != #[trigger] self.trustee_shares@[o]@[j].trustee_account by {
                if o == owner {
                    assert(nv[i] == TrusteeShare { confirmed: false, ..ov[i] });
                    assert(nv[j] == TrusteeShare { confirmed: false, ..ov[j] });
                    assert(old_self.trustee_shares@[o]@[i] == ov[i]);
                    assert(old_self.trustee_shares@[o]@[j] == ov[j]);
                } else {
                    assert(self.trustee_shares@[o] == old_self.trustee_shares@[o]);
                }
            }
            assert(self.trustee_shares@.dom() =~= old_self.trustee_shares@.dom());
        }
    }

    /// The first precondition of `cancel_recovery` that fails, if any.
    pub open spec fn cancel_recovery_error(&self, caller: u64, lost_account: u64) -> Option<Error> {
        if !self.active_recoveries().contains_key(lost_account) {
            Some(Error::RecoveryNotActive)
        } else if caller != lost_account {
            Some(Error::NotAuthorized)
        } else {
            None
        }
    }

    /// The owner of `lost_account` withdraws the pending claim on it. All
    /// confirmations given for it are cleared.
    pub fn cancel_recovery(&mut self, caller: u64, lost_account: u64) -> (r: Result<(), Error>)
        requires
            old(self).wf(),
        ensures
            final(self).wf(),
            r is Err <==> old(self).cancel_recovery_error(caller, lost_account) is Some,
            r matches Err(e) ==> old(self).cancel_recovery_error(caller, lost_account) == Some(e)
                && *final(self) == *old(self),
            r is Ok ==> {
                &&& final(self).active_recoveries() == old(self).active_recoveries().remove(
                    lost_account,
                )
                &&& confirmations_cleared(old(self).shares(), final(self).shares(), lost_account)
                &&& final(self).event_log() == old(self).event_log().push(
                    Event::RecoveryCancelled { account: lost_account },
                )
                &&& final(self).identities() == old(self).identities()
                &&& final(self).did_index() == old(self).did_index()
                &&& final(self).recovery_configs() == old(self).recovery_configs()
                &&& final(self).recovery_deposits() == old(self).recovery_deposits()
                &&& final(self).balances() == old(self).balances()
                &&& final(self).height() == old(self).height()
                &&& final(self).config_spec() == old(self).config_spec()
            },
    {
        if !self.active_recoveries.contains_key(&lost_account) {
            return Err(Error::RecoveryNotActive);
        }
        if caller != lost_account {
            return Err(Error::NotAuthorized);
        }
        let ghost old_self = *self;
        self.reset_confirmations(lost_account);
        let _ = self.active_recoveries.remove(&lost_account);
        self.events.push(Event::RecoveryCancelled { account: lost_account });
        proof {
            lemma_identities_frame(&old_self, &*self);
            assert forall|o: u64| #[trigger]
                self.recovery_configs@.contains_key(o) implies self.trustee_shares@[o]@.len()
                == self.recovery_configs@[o].total_trustees by {
                if o != lost_account {
                    assert(self.trustee_shares@[o] == old_self.trustee_shares@[o]);
                }
            }
            assert forall|k: (u64, u64)| #[trigger]
                self.share_model@.contains_key(k) && !self.active_recoveries@.contains_key(k.0)
                    implies !self.share_model@[k].confirmed by {
                if k.0 == lost_account {
                    assert(old_self.share_model@.contains_key((lost_account, k.1)));
                }
            }
            assert(self.wf_configs());
        }
        Ok(())
    }
}

impl Pallet {
    /// Where `did` sits in the reverse index, if anywhere.
    fn did_position(&self, did: &[u8; 32]) -> (r: Option<usize>)
        requires
            self.wf_identities(),
        ensures
            match r {
                Some(i) => {
                    &&& i < self.did_entries@.len()
                    &&& self.did_entries@[i as int].did@ == did@
                    &&& self.did_model@.contains_key(did@)
                },
                None => !self.did_model@.contains_key(did@),
            },
    {
        let n = self.did_entries.len();
        let mut i: usize = 0;
        while i < n
            invariant
                self.wf_identities(),
                n == self.did_entries@.len(),
                i <= n,
                forall|j: int| 0 <= j < i ==> (#[trigger] self.did_entries@[j]).did@ != did@,
            decreases n - i,
        {
            if bytes32_eq(&self.did_entries[i].did, did) {
                return Some(i);
            }
            i = i + 1;
        }
        proof {
            if self.did_model@.contains_key(did@) {
                let j = choose|j: int|
                    0 <= j < self.did_entries@.len() && #[trigger] self.did_entries@[j].did@ == did@;
                assert(self.did_entries@[j].did@ != did@);
            }
        }
        None
    }

    /// The first precondition of `execute_recovery` that fails, if any.
    pub open spec fn execute_recovery_error(&self, lost_account: u64) -> Option<Error> {
        let q = self.active_recoveries()[lost_account];
        let new_did = blake2_256_of(q.new_public_key@);
        if !self.active_recoveries().contains_key(lost_account) || q.completed {
            Some(Error::RecoveryNotActive)
        } else if q.submitted_shares < self.recovery_configs()[lost_account].threshold {
            Some(Error::InsufficientShares)
        } else if self.height() < q.execute_at {
            Some(Error::DelayPeriodNotPassed)
        } else if self.did_index().contains_key(new_did) && self.did_index()[new_did] != lost_account {
            Some(Error::DidCollision)
        } else {
            None
        }
    }

    /// Completes the recovery of `lost_account` once enough trustees have
    /// confirmed and the delay has passed: its public key becomes the one
    /// proposed, and its DID is recomputed and reindexed. The request is
    /// consumed and all confirmations are cleared.
    pub fn execute_recovery(&mut self, lost_account: u64) -> (r: Result<(), Error>)
        requires
            old(self).wf(),
        ensures
            final(self).wf(),
            r is Err <==> old(self).execute_recovery_error(lost_account) is Some,
            r matches Err(e) ==> old(self).execute_recovery_error(lost_account) == Some(e)
                && *final(self) == *old(self),
            r is Ok ==> {
                let q = old(self).active_recoveries()[lost_account];
                let before = old(self).identities()[lost_account];
                let after = final(self).identities()[lost_account];
                &&& final(self).identities().contains_key(lost_account)
                &&& after.did@ == blake2_256_of(q.new_public_key@)
                &&& after.public_key == q.new_public_key
                &&& after.recovery_config == before.recovery_config
                &&& after.created == before.created
                &&& final(self).identities().remove(lost_account) == old(self).identities().remove(
                    lost_account,
                )
                &&& final(self).did_index() == old(self).did_index().remove(before.did@).insert(
                    after.did@,
                    lost_account,
                )
                &&& final(self).active_recoveries() == old(self).active_recoveries().remove(
                    lost_account,
                )
                &&& confirmations_cleared(old(self).shares(), final(self).shares(), lost_account)
                &&& final(self).event_log() == old(self).event_log().push(
                    Event::RecoveryExecuted {
                        lost_account,
                        new_account: q.requesting_account,
                    },
                )
                &&& final(self).recovery_configs() == old(self).recovery_configs()
                &&& final(self).recovery_deposits() == old(self).recovery_deposits()
                &&& final(self).balances() == old(self).balances()
                &&& final(self).height() == old(self).height()
                &&& final(self).config_spec() == old(self).config_spec()
            },
    {
        let q = match self.active_recoveries.get(&lost_account) {
            Some(q) => *q,
            None => {
                return Err(Error::RecoveryNotActive);
            },
        };
        if q.completed {
            return Err(Error::RecoveryNotActive);
        }
        let c = match self.recovery_configs.get(&lost_account) {
            Some(c) => *c,
            None => {
                return Err(Error::RecoveryNotConfigured);
            },
        };
        if q.submitted_shares < c.threshold {
            return Err(Error::InsufficientShares);
        }
        if self.block_number < q.execute_at {
            return Err(Error::DelayPeriodNotPassed);
        }
        let new_did = Self::generate_did(&q.new_public_key);
        match self.did_lookup(&new_did) {
            Some(a) => {
                if a != lost_account {
                    return Err(Error::DidCollision);
                }
            },
            None => {},
        }
        let ghost old_self = *self;
        self.replace_key(lost_account, new_did, q.new_public_key);
        let ghost mid = *self;
        self.reset_confirmations(lost_account);
        let _ = self.active_recoveries.remove(&lost_account);
        self.events.push(
            Event::RecoveryExecuted { lost_account, new_account: q.requesting_account },
        );
        proof {
            lemma_identities_frame(&mid, &*self);
            assert forall|o: u64| #[trigger]
                self.active_recoveries@.contains_key(o) implies self.identities@.contains_key(o) by {
                assert(old_self.identities@.contains_key(o));
                assert(old_self.identities@.remove(lost_account).contains_key(o));
                assert(self.identities@.remove(lost_account).contains_key(o));
            }
            assert forall|o: u64| #[trigger]
                self.recovery_configs@.contains_key(o) implies self.trustee_shares@[o]@.len()
                == self.recovery_configs@[o].total_trustees by {
                if o != lost_account {
                    assert(self.trustee_shares@[o] == old_self.trustee_shares@[o]);
                }
            }
            assert forall|k: (u64, u64)| #[trigger]
                self.share_model@.contains_key(k) && !self.active_recoveries@.contains_key(k.0)
                    implies !self.share_model@[k].confirmed by {
                if k.0 == lost_account {
                    assert(old_self.share_model@.contains_key((lost_account, k.1)));
                }
            }
            assert(self.wf_configs());
        }
        Ok(())
    }
}

impl Pallet {
    /// Gives `account` a new public key and DID, and moves its entry in the
    /// reverse index accordingly.
    fn replace_key(&mut self, account: u64, new_did: [u8; 32], new_public_key: [u8; 32])
        requires
            old(self).wf_identities(),
            old(self).identities@.contains_key(account),
            old(self).did_model@.contains_key(new_did@) ==> old(self).did_model@[new_did@]
                == account,
        ensures
            final(self).wf_identities(),
            final(self).identities@.contains_key(account),
            final(self).identities@[account] == (AuraIdRecord {
                did: new_did,
                public_key: new_public_key,
                ..old(self).identities@[account]
            }),
            final(self).identities@.remove(account) == old(self).identities@.remove(account),
            final(self).did_model@ == old(self).did_model@.remove(
                old(self).identities@[account].did@,
            ).insert(new_did@, account),
            final(self).trustee_shares == old(self).trustee_shares,
            final(self).share_model == old(self).share_model,
            final(self).recovery_configs == old(self).recovery_configs,
            final(self).recovery_deposits == old(self).recovery_deposits,
            final(self).active_recoveries == old(self).active_recoveries,
            final(self).balances == old(self).balances,
            final(self).events == old(self).events,
            final(self).config == old(self).config,
            final(self).block_number == old(self).block_number,
    {
        let ghost old_self = *self;
        let old_did = self.identities.get(&account).unwrap().did;
        let pos = self.did_position(&old_did).unwrap();
        let mut record = self.identities.remove(&account).unwrap();
        let ghost old_entries = self.did_entries@;
        let _ = self.did_entries.remove(pos);
        self.did_entries.push(DidEntry { did: new_did, account });
        proof {
            self.did_model@ = self.did_model@.remove(old_did@).insert(new_did@, account);
        }
        record.did = new_did;
        record.public_key = new_public_key;
        self.identities.insert(account, record);
        proof {
            let oe = old_entries;
            let ne = self.did_entries@;
            let k = pos as int;
            let last = oe.len() - 1;
            assert(ne == oe.remove(k).push(DidEntry { did: new_did, account }));
            assert(old_self.did_model@[old_did@] == account);
            assert forall|a: u64| #[trigger]
                self.identities@.contains_key(a) implies self.did_model@.contains_key(
                self.identities@[a].did@,
            ) && self.did_model@[self.identities@[a].did@] == a by {
                if a != account {
                    assert(old_self.identities@.contains_key(a));
                    assert(old_self.did_model@[old_self.identities@[a].did@] == a);
                    assert(self.identities@[a].did@ != old_did@);
                    assert(self.identities@[a].did@ != new_did@);
                }
            }
            assert forall|d: Seq<u8>| #[trigger]
                self.did_model@.contains_key(d) implies self.identities@.contains_key(
                self.did_model@[d],
            ) && self.identities@[self.did_model@[d]].did@ == d by {
                if d != new_did@ {
                    assert(old_self.did_model@.contains_key(d));
                    assert(d != old_did@);
                    assert(old_self.did_model@[d] != account);
                }
            }
            assert forall|d: Seq<u8>| #[trigger]
                self.did_model@.contains_key(d) implies exists|i: int|
                0 <= i < self.did_entries@.len() && #[trigger] self.did_entries@[i].did@ == d by {
                if d == new_did@ {
                    assert(ne[last].did@ == d);
                } else {
                    let i = choose|i: int|
                        0 <= i < oe.len() && #[trigger] oe[i].did@ == d;
                    assert(i != k);
                    if i < k {
                        assert(ne[i] == oe[i]);
                    } else {
                        assert(ne[i - 1] == oe[i]);
                    }
                }
            }
            assert forall|i: int|
                0 <= i < self.did_entries@.len() implies self.did_model@.contains_key(
                #[trigger] self.did_entries@[i].did@,
            ) && self.did_model@[self.did_entries@[i].did@] == self.did_entries@[i].account by {
                if i < last {
                    let oi = if i < k {
                        i
                    } else {
                        i + 1
                    };
                    assert(ne[i] == oe[oi]);
                    assert(oi != k);
                    assert(oe[oi].did@ != oe[k].did@);
                    assert(old_self.did_model@.contains_key(oe[oi].did@));
                    assert(old_self.did_model@[oe[oi].did@] != account);
                }
            }
            assert forall|i: int, j: int|
                0 <= i < self.did_entries@.len() && 0 <= j < self.did_entries@.len() && i != j
                    implies #[trigger] self.did_entries@[i].did@
                != #[trigger] self.did_entries@[j].did@ by {
                let oi = if i < k {
                    i
                } else {
                    i + 1
                };
                let oj = if j < k {
                    j
                } else {
                    j + 1
                };
                if i < last {
                    assert(ne[i] == oe[oi]);
                    assert(old_self.did_model@.contains_key(oe[oi].did@));
                    assert(oe[oi].did@ != oe[k].did@);
                }
                if j < last {
                    assert(ne[j] == oe[oj]);
                    assert(old_self.did_model@.contains_key(oe[oj].did@));
                    assert(oe[oj].did@ != oe[k].did@);
                }
                if i < last && j < last {
                    assert(oi != oj);
                }
            }
            assert(self.wf_identities());
            assert(self.identities@.remove(account) =~= old_self.identities@.remove(account));
        }
    }
}

impl Pallet {
    /// In a well-formed state each policy is active and its threshold is at
    /// most its number of trustees, which is at most the configured maximum.
    pub proof fn lemma_config_bounds(&self, owner: u64)
        requires
            self.wf(),
            self.recovery_configs().contains_key(owner),
        ensures
            self.recovery_configs()[owner].active,
            self.recovery_configs()[owner].threshold <= self.recovery_configs()[owner].total_trustees,
            self.recovery_configs()[owner].total_trustees <= self.config_spec().max_trustees,
    {
    }

    /// In a well-formed state a pending request is on an account with an
    /// identity and an active policy.
    pub proof fn lemma_pending_request_bounds(&self, lost_account: u64)
        requires
            self.wf(),
            self.active_recoveries().contains_key(lost_account),
        ensures
            self.identities().contains_key(lost_account),
            self.recovery_configs().contains_key(lost_account),
            self.recovery_configs()[lost_account].active,
    {
    }
}

/// The identity part of the invariant depends on the identity fields alone.
proof fn lemma_identities_frame(a: &Pallet, b: &Pallet)
    requires
        a.wf_identities(),
        a.identities == b.identities,
        a.did_entries == b.did_entries,
        a.did_model == b.did_model,
    ensures
        b.wf_identities(),
{
}

} // verus!
