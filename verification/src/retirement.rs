//! Retirement of carbon credits: credits are burned for good, the
//! retirement is recorded against its vintage in the registry, and an
//! immutable record is kept, enumerable per project.
//!
//! Retirements are public by default; a shielded retirement records only a
//! caller-supplied nullifier in place of the retiring address, and each
//! nullifier can be used once.

use vstd::prelude::*;

use crate::common::{
    be_bytes, bytes32_is_zero, bytes32_of, copy_vec, is_zero32, keccak256, keccak256_digest,
    lemma_be_bytes_injective, lemma_be_bytes_len, lemma_bytes32_of, pow256, push_be_bytes,
    push_bytes32, zero_bytes32, Address, Auth, Bytes32, Error, LedgerInfo, RetireeRef,
};
use crate::registry::{RegistryContract, RegistryState};
use crate::table::Table;
use crate::token::{ledger_burn, LedgerState, TokenLedger};

verus! {

/// A retirement record.
#[derive(Clone, Copy, Debug, PartialEq, Eq)]
pub struct RetirementRecord {
    /// Unique identifier of the record.
    pub id: Bytes32,
    /// The project the retired credits belong to.
    pub project_id: Bytes32,
    /// The vintage year of the retired credits.
    pub vintage_year: u32,
    /// Amount of credits retired.
    pub amount: i128,
    /// Ledger sequence of the retirement.
    pub retired_at: u64,
    /// Who retired (public or shielded).
    pub retiree: RetireeRef,
}

/// The bytes from which a record id is derived: the project id, vintage
/// year, amount, ledger sequence and the retirement counter, big-endian.
pub open spec fn record_id_preimage(
    project_id: Bytes32,
    vintage_year: u32,
    amount: i128,
    sequence: u32,
    counter: u32,
) -> Seq<u8> {
    project_id@ + be_bytes(vintage_year as nat, 4) + be_bytes(amount as nat, 16) + be_bytes(
        sequence as nat,
        8,
    ) + be_bytes(counter as nat, 4)
}

/// The id given to a retirement record: the Keccak-256 digest of its
/// preimage.
pub open spec fn record_id_for(
    project_id: Bytes32,
    vintage_year: u32,
    amount: i128,
    sequence: u32,
    counter: u32,
) -> Bytes32 {
    bytes32_of(keccak256_digest(record_id_preimage(project_id, vintage_year, amount, sequence, counter)))
}

/// An event published by the retirement contract.
#[derive(Clone, Copy, Debug, PartialEq, Eq)]
pub enum RetirementEvent {
    /// Credits were retired; a shielded retirement names only its nullifier,
    /// never the retiring address.
    Retire { project_id: Bytes32, retiree: RetireeRef, vintage_year: u32, amount: i128 },
}

/// The abstract state of the retirement contract.
pub struct RetirementState {
    /// The retirement contract's own address (the token's burner).
    pub address: Address,
    pub initialized: bool,
    pub credit_token: Option<Address>,
    pub registry: Option<Address>,
    /// Records by id.
    pub records: Map<Bytes32, RetirementRecord>,
    /// Nullifiers consumed by shielded retirements.
    pub nullified: Set<Bytes32>,
    /// Record ids per project, in retirement order.
    pub ids_by_project: Map<Bytes32, Seq<Bytes32>>,
    /// Number of retirements recorded.
    pub count: u32,
    /// The events published so far, oldest first.
    pub events: Seq<RetirementEvent>,
}

impl RetirementState {
    /// The record ids of `project_id`; empty when none.
    pub open spec fn ids_of(self, project_id: Bytes32) -> Seq<Bytes32> {
        if self.ids_by_project.contains_key(project_id) {
            self.ids_by_project[project_id]
        } else {
            Seq::empty()
        }
    }

    /// Whether a retirement gets as far as burning: a positive amount, and
    /// for a shielded one a non-zero, unused nullifier.
    pub open spec fn reaches_burn(self, amount: i128, shield: bool, nullifier: Bytes32) -> bool {
        &&& amount > 0
        &&& !(shield && is_zero32(nullifier))
        &&& !(shield && self.nullified.contains(nullifier))
    }

    /// Whether `from` retiring `amount` credits of `(project_id,
    /// vintage_year)` goes through; the outcome does not depend on the
    /// record's id or on the ledger sequence.
    pub open spec fn goes_through(
        self,
        ledger: LedgerState,
        registry: RegistryState,
        auth: Auth,
        from: Address,
        project_id: Bytes32,
        vintage_year: u32,
        amount: i128,
        shield: bool,
        nullifier: Bytes32,
    ) -> bool {
        self.retire(
            ledger,
            registry,
            auth,
            from,
            project_id,
            vintage_year,
            amount,
            shield,
            nullifier,
            0,
            zero_bytes32(),
        ) is Ok
    }

    /// The outcome of `from` retiring `amount` credits of
    /// `(project_id, vintage_year)`, the record getting the id `id`: the
    /// credits are burned, the retirement is recorded in the registry, the
    /// nullifier of a shielded retirement is consumed, and the record is
    /// stored and listed under its project.
    pub open spec fn retire(
        self,
        ledger: LedgerState,
        registry: RegistryState,
        auth: Auth,
        from: Address,
        project_id: Bytes32,
        vintage_year: u32,
        amount: i128,
        shield: bool,
        nullifier: Bytes32,
        sequence: u32,
        id: Bytes32,
    ) -> Result<(RetirementState, LedgerState, RegistryState, RetirementRecord), Error> {
        if amount <= 0 {
            Err(Error::NonPositiveAmount)
        } else if shield && is_zero32(nullifier) {
            Err(Error::InvalidNullifier)
        } else if shield && self.nullified.contains(nullifier) {
            Err(Error::AlreadyRegistered)
        } else {
            match ledger_burn(ledger, auth, self.address, self.credit_token.unwrap(), from, amount) {
                Err(e) => Err(e),
                Ok(l) => {
                    let recorded: Result<RegistryState, Error> = if registry.retirement_contract is None {
                        Err(Error::RetirementNotFound)
                    } else if !auth.allows(registry.retirement_contract.unwrap())
                        && registry.retirement_contract.unwrap() != self.address {
                        Err(Error::RetirementNotFound)
                    } else {
                        match registry.record_retirement(project_id, vintage_year, amount) {
                            Ok(g) => Ok(g),
                            Err(_) => Err(Error::RetirementNotFound),
                        }
                    };
                    match recorded {
                        Err(e) => Err(e),
                        Ok(reg) => {
                            let retiree = if shield {
                                RetireeRef::Shielded(nullifier)
                            } else {
                                RetireeRef::Public(from)
                            };
                            let record = RetirementRecord {
                                id,
                                project_id,
                                vintage_year,
                                amount,
                                retired_at: sequence as u64,
                                retiree,
                            };
                            Ok(
                                (
                                    RetirementState {
                                        records: self.records.insert(id, record),
                                        nullified: if shield {
                                            self.nullified.insert(nullifier)
                                        } else {
                                            self.nullified
                                        },
                                        ids_by_project: self.ids_by_project.insert(
                                            project_id,
                                            self.ids_of(project_id).push(id),
                                        ),
                                        count: (self.count + 1) as u32,
                                        events: self.events.push(
                                            RetirementEvent::Retire {
                                                project_id,
                                                retiree,
                                                vintage_year,
                                                amount,
                                            },
                                        ),
                                        ..self
                                    },
                                    l,
                                    reg,
                                    record,
                                ),
                            )
                        },
                    }
                },
            }
        }
    }
}

/// The retirement contract.
pub struct RetirementContract {
    address: Address,
    initialized: bool,
    credit_token: Option<Address>,
    registry: Option<Address>,
    records: Table<Bytes32, RetirementRecord>,
    nullified: Table<Bytes32, bool>,
    ids_by_project: Table<Bytes32, Vec<Bytes32>>,
    count: u32,
    events: Vec<RetirementEvent>,
}

impl View for RetirementContract {
    type V = RetirementState;

    closed spec fn view(&self) -> RetirementState {
        RetirementState {
            address: self.address,
            initialized: self.initialized,
            credit_token: self.credit_token,
            registry: self.registry,
            records: self.records@,
            nullified: self.nullified@.dom(),
            ids_by_project: self.ids_by_project@.map_values(|v: Vec<Bytes32>| v@),
            count: self.count,
            events: self.events@,
        }
    }
}

impl RetirementContract {
    /// A retirement contract deployed at `address`, not initialized yet.
    pub fn new(address: Address) -> (r: Self)
        ensures
            r@.address == address,
            !r@.initialized,
            r@.credit_token is None,
            r@.registry is None,
            r@.records == Map::<Bytes32, RetirementRecord>::empty(),
            r@.nullified == Set::<Bytes32>::empty(),
            r@.ids_by_project == Map::<Bytes32, Seq<Bytes32>>::empty(),
            r@.count == 0,
            r@.events == Seq::<RetirementEvent>::empty(),
    {
        let r = RetirementContract {
            address,
            initialized: false,
            credit_token: None,
            registry: None,
            records: Table::new(),
            nullified: Table::new(),
            ids_by_project: Table::new(),
            count: 0,
            events: Vec::new(),
        };
        assert(r@.nullified =~= Set::<Bytes32>::empty());
        assert(r@.ids_by_project =~= Map::<Bytes32, Seq<Bytes32>>::empty());
        r
    }

    /// The retirement contract's own address.
    pub fn address(&self) -> (r: Address)
        ensures
            r == self@.address,
    {
        self.address
    }

    /// Initialize with the addresses of the credit token and the registry;
    /// `AlreadyInitialized` on a second call.
    pub fn initialize(&mut self, credit_token: Address, registry: Address) -> (r: Result<(), Error>)
        ensures
            old(self)@.initialized ==> r == Err::<(), Error>(Error::AlreadyInitialized)
                && final(self)@ == old(self)@,
            !old(self)@.initialized ==> r is Ok && final(self)@ == (RetirementState {
                initialized: true,
                credit_token: Some(credit_token),
                registry: Some(registry),
                ..old(self)@
            }),
    {
        if self.initialized {
            return Err(Error::AlreadyInitialized);
        }
        self.initialized = true;
        self.credit_token = Some(credit_token);
        self.registry = Some(registry);
        proof {
            assert(self@.ids_by_project =~= old(self)@.ids_by_project);
        }
        Ok(())
    }

    /// The id of the record a retirement with these attributes gets.
    fn record_id(&self, project_id: Bytes32, vintage_year: u32, amount: i128, sequence: u32) -> (r:
        Bytes32)
        requires
            amount > 0,
        ensures
            r == record_id_for(project_id, vintage_year, amount, sequence, self@.count),
    {
        let mut pre: Vec<u8> = Vec::new();
        push_bytes32(&mut pre, &project_id);
        push_be_bytes(&mut pre, vintage_year as u128, 4);
        push_be_bytes(&mut pre, amount as u128, 16);
        push_be_bytes(&mut pre, sequence as u128, 8);
        push_be_bytes(&mut pre, self.count as u128, 4);
        proof {
            assert(pre@ =~= record_id_preimage(
                project_id,
                vintage_year,
                amount,
                sequence,
                self@.count,
            ));
        }
        let id = keccak256(&pre);
        proof {
            lemma_bytes32_of(id);
        }
        id
    }

    /// Retire `amount` credits of `(project_id, vintage_year)` held by
    /// `from`, who must authorize; returns the new record.
    ///
    /// The credits are burned through the credit token (this contract being
    /// its burner), the retirement is recorded against the vintage in the
    /// registry, and the record is stored and listed under its project. With
    /// `shield`, only `nullifier` is recorded, and it can never be used
    /// again. The record id is derived from the project, year, amount,
    /// ledger sequence and retirement counter.
    ///
    /// Refused with `NonPositiveAmount`, `InvalidNullifier` (shielded with
    /// the zero nullifier), `AlreadyRegistered` (nullifier used),
    /// `InsufficientBalance` (the burn failed), or `RetirementNotFound` (no
    /// retirement contract is registered, or the registry refused to record
    /// the retirement, whatever its reason); a refused retirement changes
    /// nothing.
    pub fn retire(
        &mut self,
        auth: &Auth,
        ledger: LedgerInfo,
        tokens: &mut TokenLedger,
        registry: &mut RegistryContract,
        from: Address,
        project_id: Bytes32,
        vintage_year: u32,
        amount: i128,
        shield: bool,
        nullifier: Bytes32,
    ) -> (r: Result<RetirementRecord, Error>)
        requires
            old(registry)@.wf(),
            amount > 0 && !(shield && is_zero32(nullifier)) ==> auth.allows(from),
            old(self)@.reaches_burn(amount, shield, nullifier) ==> old(self)@.initialized
                && old(self)@.credit_token is Some && old(self)@.registry == Some(
                old(registry)@.address,
            ),
            old(self)@.goes_through(
                old(tokens)@,
                old(registry)@,
                *auth,
                from,
                project_id,
                vintage_year,
                amount,
                shield,
                nullifier,
            ) ==> old(self)@.count < u32::MAX,
        ensures
            final(registry)@.wf(),
            match old(self)@.retire(
                old(tokens)@,
                old(registry)@,
                *auth,
                from,
                project_id,
                vintage_year,
                amount,
                shield,
                nullifier,
                ledger.sequence,
                record_id_for(project_id, vintage_year, amount, ledger.sequence, old(self)@.count),
            ) {
                Ok((s, l, g, rec)) => r == Ok::<RetirementRecord, Error>(rec) && final(self)@ == s
                    && final(tokens)@ == l && final(registry)@ == g,
                Err(e) => r == Err::<RetirementRecord, Error>(e) && final(self)@ == old(self)@
                    && final(tokens)@ == old(tokens)@ && final(registry)@ == old(registry)@,
            },
    {
        if amount <= 0 {
            return Err(Error::NonPositiveAmount);
        }
        let id = self.record_id(project_id, vintage_year, amount, ledger.sequence);
        self.retire_with_id(
            auth,
            ledger,
            tokens,
            registry,
            from,
            project_id,
            vintage_year,
            amount,
            shield,
            nullifier,
            id,
        )
    }

    /// Retire credits into a record whose id is `id`: everything `retire`
    /// does once the id has been derived.
    pub fn retire_with_id(
        &mut self,
        auth: &Auth,
        ledger: LedgerInfo,
        tokens: &mut TokenLedger,
        registry: &mut RegistryContract,
        from: Address,
        project_id: Bytes32,
        vintage_year: u32,
        amount: i128,
        shield: bool,
        nullifier: Bytes32,
        id: Bytes32,
    ) -> (r: Result<RetirementRecord, Error>)
        requires
            old(registry)@.wf(),
            amount > 0 && !(shield && is_zero32(nullifier)) ==> auth.allows(from),
            old(self)@.reaches_burn(amount, shield, nullifier) ==> old(self)@.initialized
                && old(self)@.credit_token is Some && old(self)@.registry == Some(
                old(registry)@.address,
            ),
            old(self)@.retire(
                old(tokens)@,
                old(registry)@,
                *auth,
                from,
                project_id,
                vintage_year,
                amount,
                shield,
                nullifier,
                ledger.sequence,
                id,
            ) is Ok ==> old(self)@.count < u32::MAX,
        ensures
            final(registry)@.wf(),
            match old(self)@.retire(
                old(tokens)@,
                old(registry)@,
                *auth,
                from,
                project_id,
                vintage_year,
                amount,
                shield,
                nullifier,
                ledger.sequence,
                id,
            ) {
                Ok((s, l, g, rec)) => r == Ok::<RetirementRecord, Error>(rec) && final(self)@ == s
                    && final(tokens)@ == l && final(registry)@ == g,
                Err(e) => r == Err::<RetirementRecord, Error>(e) && final(self)@ == old(self)@
                    && final(tokens)@ == old(tokens)@ && final(registry)@ == old(registry)@,
            },
    {
        if amount <= 0 {
            return Err(Error::NonPositiveAmount);
        }
        if shield && bytes32_is_zero(&nullifier) {
            return Err(Error::InvalidNullifier);
        }
        if shield && self.nullified.contains_key(&nullifier) {
            return Err(Error::AlreadyRegistered);
        }
        let credit_token = match self.credit_token {
            Some(a) => a,
            None => {
                return Err(Error::NotFound);
            },
        };
        let mut work = tokens.duplicate();
        match work.burn(auth, self.address, credit_token, from, amount) {
            Ok(()) => {},
            Err(e) => {
                return Err(e);
            },
        }
        match registry.retirement_contract() {
            None => {
                return Err(Error::RetirementNotFound);
            },
            Some(rc) => {
                if !auth.authorizes(rc) && rc != self.address {
                    return Err(Error::RetirementNotFound);
                }
            },
        }
        let callee = auth.invoked_by(self.address);
        match registry.record_retirement(&callee, project_id, vintage_year, amount) {
            Ok(()) => {},
            Err(_) => {
                return Err(Error::RetirementNotFound);
            },
        }
        let retiree = if shield {
            RetireeRef::Shielded(nullifier)
        } else {
            RetireeRef::Public(from)
        };
        let record = RetirementRecord {
            id,
            project_id,
            vintage_year,
            amount,
            retired_at: ledger.sequence as u64,
            retiree,
        };
        if shield {
            self.nullified.insert(nullifier, true);
        }
        self.records.insert(id, record);
        let mut ids = match self.ids_by_project.get(&project_id) {
            Some(v) => copy_vec(v),
            None => Vec::new(),
        };
        ids.push(id);
        let ghost ids_view = ids@;
        self.ids_by_project.insert(project_id, ids);
        self.count = self.count + 1;
        self.events.push(RetirementEvent::Retire { project_id, retiree, vintage_year, amount });
        *tokens = work;
        proof {
            assert(ids_view == old(self)@.ids_of(project_id).push(id));
            assert(self@.ids_by_project =~= old(self)@.ids_by_project.insert(project_id, ids_view));
            if shield {
                assert(self@.nullified =~= old(self)@.nullified.insert(nullifier));
            } else {
                assert(self@.nullified =~= old(self)@.nullified);
            }
        }
        Ok(record)
    }

    /// Look up a record by id; `RetirementNotFound` when there is none.
    pub fn get_retirement(&self, id: Bytes32) -> (r: Result<RetirementRecord, Error>)
        ensures
            match r {
                Ok(rec) => self@.records.contains_key(id) && rec == self@.records[id],
                Err(e) => !self@.records.contains_key(id) && e == Error::RetirementNotFound,
            },
    {
        match self.records.get(&id) {
            Some(r) => Ok(*r),
            None => Err(Error::RetirementNotFound),
        }
    }

    /// The events the retirement contract has published, oldest first.
    pub fn events(&self) -> (r: Vec<RetirementEvent>)
        ensures
            r@ == self@.events,
    {
        copy_vec(&self.events)
    }

    /// Number of retirements recorded, across all projects.
    pub fn total_retirements(&self) -> (r: u32)
        ensures
            r == self@.count,
    {
        self.count
    }

    /// Ids of a project's records, in retirement order.
    pub fn get_retirement_ids(&self, project_id: Bytes32) -> (r: Vec<Bytes32>)
        ensures
            r@ == self@.ids_of(project_id),
    {
        match self.ids_by_project.get(&project_id) {
            Some(v) => copy_vec(v),
            None => Vec::new(),
        }
    }

    /// A project's records, in retirement order; ids with no stored record
    /// are skipped.
    pub fn get_retirements_by_project(&self, project_id: Bytes32) -> (r: Vec<RetirementRecord>)
        ensures
            r@ == records_of(self@.ids_of(project_id), self@.records),
    {
        let ids = self.get_retirement_ids(project_id);
        let mut out: Vec<RetirementRecord> = Vec::new();
        let n = ids.len();
        for i in 0..n
            invariant
                n == ids@.len(),
                ids@ == self@.ids_of(project_id),
                out@ == records_of(ids@.subrange(0, i as int), self@.records),
        {
            let id = ids[i];
            assert(ids@.subrange(0, i + 1).drop_last() =~= ids@.subrange(0, i as int));
            match self.records.get(&id) {
                Some(rec) => {
                    out.push(*rec);
                },
                None => {},
            }
        }
        assert(ids@.subrange(0, n as int) =~= ids@);
        out
    }
}

/// The stored records named by `ids`, in order, skipping ids with none.
pub open spec fn records_of(ids: Seq<Bytes32>, records: Map<Bytes32, RetirementRecord>) -> Seq<
    RetirementRecord,
>
    decreases ids.len(),
{
    if ids.len() == 0 {
        Seq::empty()
    } else {
        let rest = records_of(ids.drop_last(), records);
        if records.contains_key(ids.last()) {
            rest.push(records[ids.last()])
        } else {
            rest
        }
    }
}

/// A nullifier serves one shielded retirement only: once one went through,
/// every later shielded retirement with a positive amount and the same
/// nullifier is refused with `AlreadyRegistered`, whoever asks, for any
/// project and vintage.
pub proof fn law_nullifier_single_use(
    s: RetirementState,
    ledger: LedgerState,
    registry: RegistryState,
    auth: Auth,
    from: Address,
    project_id: Bytes32,
    vintage_year: u32,
    amount: i128,
    nullifier: Bytes32,
    sequence: u32,
    id: Bytes32,
    ledger2: LedgerState,
    registry2: RegistryState,
    auth2: Auth,
    from2: Address,
    project_id2: Bytes32,
    vintage_year2: u32,
    amount2: i128,
    sequence2: u32,
    id2: Bytes32,
)
    requires
        s.retire(ledger, registry, auth, from, project_id, vintage_year, amount, true, nullifier, sequence, id) is Ok,
        amount2 > 0,
    ensures
        s.retire(ledger, registry, auth, from, project_id, vintage_year, amount, true, nullifier, sequence, id)->Ok_0.0.retire(
            ledger2,
            registry2,
            auth2,
            from2,
            project_id2,
            vintage_year2,
            amount2,
            true,
            nullifier,
            sequence2,
            id2,
        ) == Err::<(RetirementState, LedgerState, RegistryState, RetirementRecord), Error>(
            Error::AlreadyRegistered,
        ),
{
}

/// A retirement that goes through burns exactly its amount of the credit
/// token from the retiring holder (lowering the total supply by as much),
/// adds exactly its amount to the vintage's retired total, stores its
/// record under its id, listed last under its project, counts one more
/// retirement and publishes it; every other record, and every other
/// project's list, stays as it was.
pub proof fn law_retirement_burns_and_records(
    s: RetirementState,
    ledger: LedgerState,
    registry: RegistryState,
    auth: Auth,
    from: Address,
    project_id: Bytes32,
    vintage_year: u32,
    amount: i128,
    shield: bool,
    nullifier: Bytes32,
    sequence: u32,
    id: Bytes32,
)
    requires
        s.retire(ledger, registry, auth, from, project_id, vintage_year, amount, shield, nullifier, sequence, id) is Ok,
    ensures
        ({
            let (s2, l, g, rec) = s.retire(
                ledger,
                registry,
                auth,
                from,
                project_id,
                vintage_year,
                amount,
                shield,
                nullifier,
                sequence,
                id,
            )->Ok_0;
            let token = s.credit_token.unwrap();
            &&& amount > 0
            &&& l.dom() == ledger.dom()
            &&& l[token].balance(from) == ledger[token].balance(from) - amount
            &&& l[token].total_supply == ledger[token].total_supply - amount
            &&& forall|h: Address| h != from ==> #[trigger] l[token].balance(h) == ledger[token].balance(h)
            &&& g.vintages[(project_id, vintage_year)].total_retired == registry.vintages[(
                project_id,
                vintage_year,
            )].total_retired + amount
            &&& rec.id == id && rec.project_id == project_id && rec.vintage_year == vintage_year
            &&& rec.amount == amount
            &&& rec.retiree == (if shield {
                RetireeRef::Shielded(nullifier)
            } else {
                RetireeRef::Public(from)
            })
            &&& s2.records[id] == rec
            &&& forall|k: Bytes32| k != id && s.records.contains_key(k) ==> #[trigger] s2.records[k]
                == s.records[k] && s2.records.contains_key(k)
            &&& s2.ids_of(project_id) == s.ids_of(project_id).push(id)
            &&& forall|p: Bytes32| p != project_id ==> #[trigger] s2.ids_of(p) == s.ids_of(p)
            &&& s.count < u32::MAX ==> s2.count == s.count + 1
            &&& s2.events == s.events.push(
                RetirementEvent::Retire { project_id, retiree: rec.retiree, vintage_year, amount },
            )
        }),
{
    let l = ledger_burn(ledger, auth, s.address, s.credit_token.unwrap(), from, amount)->Ok_0;
    assert(l.dom() =~= ledger.dom());
}

/// Record ids are digests of preimages that end in the retirement counter:
/// retirements recorded under different counter values, even of the same
/// project, vintage and amount in the same ledger, have different
/// preimages, so their ids can coincide only where Keccak-256 collides.
pub proof fn law_record_preimages_differ(
    project_id1: Bytes32,
    vintage_year1: u32,
    amount1: i128,
    sequence1: u32,
    counter1: u32,
    project_id2: Bytes32,
    vintage_year2: u32,
    amount2: i128,
    sequence2: u32,
    counter2: u32,
)
    requires
        counter1 != counter2,
    ensures
        record_id_preimage(project_id1, vintage_year1, amount1, sequence1, counter1) != record_id_preimage(
            project_id2,
            vintage_year2,
            amount2,
            sequence2,
            counter2,
        ),
{
    let pre1 = record_id_preimage(project_id1, vintage_year1, amount1, sequence1, counter1);
    let pre2 = record_id_preimage(project_id2, vintage_year2, amount2, sequence2, counter2);
    let head1 = project_id1@ + be_bytes(vintage_year1 as nat, 4) + be_bytes(amount1 as nat, 16)
        + be_bytes(sequence1 as nat, 8);
    let head2 = project_id2@ + be_bytes(vintage_year2 as nat, 4) + be_bytes(amount2 as nat, 16)
        + be_bytes(sequence2 as nat, 8);
    let tail1 = be_bytes(counter1 as nat, 4);
    let tail2 = be_bytes(counter2 as nat, 4);
    lemma_be_bytes_len(vintage_year1 as nat, 4);
    lemma_be_bytes_len(amount1 as nat, 16);
    lemma_be_bytes_len(sequence1 as nat, 8);
    lemma_be_bytes_len(counter1 as nat, 4);
    lemma_be_bytes_len(vintage_year2 as nat, 4);
    lemma_be_bytes_len(amount2 as nat, 16);
    lemma_be_bytes_len(sequence2 as nat, 8);
    lemma_be_bytes_len(counter2 as nat, 4);
    assert(head1.len() == 60 && head2.len() == 60);
    assert(pre1 == head1 + tail1);
    assert(pre2 == head2 + tail2);
    assert(pre1.subrange(60, 64) =~= tail1);
    assert(pre2.subrange(60, 64) =~= tail2);
    if pre1 == pre2 {
        assert(pow256(4) == 0x1_0000_0000) by {
            reveal_with_fuel(pow256, 5);
        }
        lemma_be_bytes_injective(counter1 as nat, counter2 as nat, 4);
    }
}

/// A shielded retirement leaves no trace of who retired: two shielded
/// retirements that differ only in the retiring address (and in the
/// authorizations and token balances around them) produce the same record,
/// whose retiree is the nullifier, the same event, the same retirement
/// state and the same registry state.
pub proof fn law_shielded_retirement_hides_the_retiree(
    s: RetirementState,
    ledger1: LedgerState,
    ledger2: LedgerState,
    registry: RegistryState,
    auth1: Auth,
    auth2: Auth,
    from1: Address,
    from2: Address,
    project_id: Bytes32,
    vintage_year: u32,
    amount: i128,
    nullifier: Bytes32,
    sequence: u32,
    id: Bytes32,
)
    requires
        s.retire(ledger1, registry, auth1, from1, project_id, vintage_year, amount, true, nullifier, sequence, id) is Ok,
        s.retire(ledger2, registry, auth2, from2, project_id, vintage_year, amount, true, nullifier, sequence, id) is Ok,
    ensures
        ({
            let (s1, _l1, g1, rec1) = s.retire(
                ledger1,
                registry,
                auth1,
                from1,
                project_id,
                vintage_year,
                amount,
                true,
                nullifier,
                sequence,
                id,
            )->Ok_0;
            let (s2, _l2, g2, rec2) = s.retire(
                ledger2,
                registry,
                auth2,
                from2,
                project_id,
                vintage_year,
                amount,
                true,
                nullifier,
                sequence,
                id,
            )->Ok_0;
            &&& rec1 == rec2
            &&& rec1.retiree == RetireeRef::Shielded(nullifier)
            &&& s1 == s2
            &&& s1.events.last() == RetirementEvent::Retire {
                project_id,
                retiree: RetireeRef::Shielded(nullifier),
                vintage_year,
                amount,
            }
            &&& g1 == g2
        }),
{
}

} // verus!
