//! The project registry: carbon projects, per-year vintages with their
//! issued and retired totals, proof-gated minting, the record of
//! retirements, and the governance of canonical verifying keys.

use vstd::prelude::*;

use crate::amm::fits_i128;
use crate::common::{copy_vec, vec_contains, zero32, zero_bytes32, Address, Auth, Bytes32, Error, LedgerInfo, Symbol};
use crate::governance::{
    proposal_id, proposal_id_for, GovernanceConfig, GovernanceView, Proposal, ProposalTarget,
    ProposalView, TargetView, VkeyState,
};
use crate::table::Table;
use crate::token::{LedgerState, TokenLedger};
use crate::zk::{verify_spec, ZkVerifierContract};

verus! {

/// Canonical metadata for a carbon project.
#[derive(Clone, Debug, PartialEq, Eq)]
pub struct Project {
    /// Unique project identifier.
    pub id: Bytes32,
    /// Methodology code, e.g. "VM0007".
    pub methodology: Symbol,
    /// Country or region code, e.g. "BRA".
    pub geography: Symbol,
    /// Optional cross-reference to an external registry.
    pub external_registry_ref: Option<Vec<u8>>,
    /// Version of the verifying key used for this project's proofs.
    pub verifying_key_version: u32,
}

/// The abstract value of a project.
pub struct ProjectView {
    pub id: Bytes32,
    pub methodology: Symbol,
    pub geography: Symbol,
    pub external_registry_ref: Option<Seq<u8>>,
    pub verifying_key_version: u32,
}

impl View for Project {
    type V = ProjectView;

    open spec fn view(&self) -> ProjectView {
        ProjectView {
            id: self.id,
            methodology: self.methodology,
            geography: self.geography,
            external_registry_ref: match self.external_registry_ref {
                Some(v) => Some(v@),
                None => None,
            },
            verifying_key_version: self.verifying_key_version,
        }
    }
}

impl Project {
    /// A copy of the project.
    pub fn dup(&self) -> (r: Project)
        ensures
            r@ == self@,
    {
        Project {
            id: self.id,
            methodology: self.methodology,
            geography: self.geography,
            external_registry_ref: match &self.external_registry_ref {
                Some(v) => Some(copy_vec(v)),
                None => None,
            },
            verifying_key_version: self.verifying_key_version,
        }
    }
}

/// Per-year issuance and retirement totals of a project.
#[derive(Clone, Copy, Debug, PartialEq, Eq)]
pub struct Vintage {
    /// The project this vintage belongs to.
    pub project_id: Bytes32,
    /// Vintage year.
    pub year: u32,
    /// Cumulative tokens issued for this vintage.
    pub total_issued: i128,
    /// Cumulative tokens retired for this vintage.
    pub total_retired: i128,
}

/// The verifying key state of a methodology that never had one.
pub open spec fn no_vkey() -> VkeyState {
    VkeyState { version: 0, key: zero_bytes32() }
}

/// Whether the token at `token` mints `amount` to the registry at
/// `registry` when the registry asks it to: the token is deployed and
/// initialized, its admin has authorized (the registry authorizes itself),
/// and the mint goes through.
pub open spec fn minting_succeeds(
    ledger: LedgerState,
    auth: Auth,
    registry: Address,
    token: Address,
    amount: i128,
) -> bool {
    &&& ledger.contains_key(token)
    &&& ledger[token].initialized()
    &&& (auth.allows(ledger[token].admin.unwrap()) || ledger[token].admin.unwrap() == registry)
    &&& ledger[token].mint(registry, amount) is Ok
}

/// An event published by the registry.
#[derive(Clone, Copy, Debug, PartialEq, Eq)]
pub enum RegistryEvent {
    /// A retirement of `amount` was recorded against a vintage.
    RetirementRecorded { project_id: Bytes32, vintage_year: u32, amount: i128 },
    /// A methodology's canonical verifying key moved to `version`.
    VkeyUpdated { methodology: Symbol, version: u32 },
}

/// The abstract state of the registry contract.
pub struct RegistryState {
    /// The registry's own address; minted credits go to it.
    pub address: Address,
    pub credit_token: Option<Address>,
    pub zk_verifier: Option<Address>,
    pub projects: Map<Bytes32, ProjectView>,
    pub vintages: Map<(Bytes32, u32), Vintage>,
    pub governance: Option<GovernanceView>,
    pub proposals: Map<Bytes32, ProposalView>,
    pub vkeys: Map<Symbol, VkeyState>,
    /// The contract allowed to record retirements.
    pub retirement_contract: Option<Address>,
    /// The events published so far, oldest first.
    pub events: Seq<RegistryEvent>,
}

impl RegistryState {
    pub open spec fn initialized(self) -> bool {
        self.credit_token is Some
    }

    /// Projects and vintages are stored under their ids, a vintage never
    /// has more retired than issued, no signer approves a proposal twice,
    /// and the governance configuration in force is valid.
    pub open spec fn wf(self) -> bool {
        &&& (self.governance matches Some(cfg) ==> cfg.valid())
        &&& forall|k: Bytes32| #[trigger] self.projects.contains_key(k) ==> self.projects[k].id == k
        &&& forall|k: (Bytes32, u32)|
            #[trigger] self.vintages.contains_key(k) ==> {
                &&& self.vintages[k].project_id == k.0
                &&& self.vintages[k].year == k.1
                &&& 0 <= self.vintages[k].total_retired <= self.vintages[k].total_issued
            }
        &&& forall|k: Bytes32|
            #[trigger] self.proposals.contains_key(k) ==> self.proposals[k].id == k
                && self.proposals[k].approvals.no_duplicates()
    }

    /// The canonical verifying key of `methodology`; version 0 when none.
    pub open spec fn vkey(self, methodology: Symbol) -> VkeyState {
        if self.vkeys.contains_key(methodology) {
            self.vkeys[methodology]
        } else {
            no_vkey()
        }
    }

    /// The vintage of `(project_id, year)`, zero-initialized when absent.
    pub open spec fn vintage_or_new(self, project_id: Bytes32, year: u32) -> Vintage {
        if self.vintages.contains_key((project_id, year)) {
            self.vintages[(project_id, year)]
        } else {
            Vintage { project_id, year, total_issued: 0, total_retired: 0 }
        }
    }

    /// The outcome of registering `p`.
    pub open spec fn register_project(self, p: ProjectView) -> Result<RegistryState, Error> {
        if self.projects.contains_key(p.id) {
            Err(Error::AlreadyRegistered)
        } else {
            Ok(RegistryState { projects: self.projects.insert(p.id, p), ..self })
        }
    }

    /// The vintage a mint request of `amount` for `(project_id, year)`
    /// produces, given the proof's data and public inputs, before any token
    /// is minted: the project must exist, its methodology must have a
    /// canonical key, the project must use that key's version, and the proof
    /// must verify against it.
    pub open spec fn mint_vintage(
        self,
        project_id: Bytes32,
        year: u32,
        amount: i128,
        proof_data: Seq<u8>,
        public_inputs: Seq<Bytes32>,
    ) -> Result<Vintage, Error> {
        if amount <= 0 {
            Err(Error::NonPositiveAmount)
        } else if !self.projects.contains_key(project_id) {
            Err(Error::NotFound)
        } else {
            let project = self.projects[project_id];
            let vkey = self.vkey(project.methodology);
            if vkey.version == 0 {
                Err(Error::VkeyNotFound)
            } else if project.verifying_key_version != vkey.version {
                Err(Error::VkeyMismatch)
            } else {
                match verify_spec(proof_data, public_inputs, project_id, vkey.version, vkey.key) {
                    Err(e) => Err(e),
                    Ok(false) => Err(Error::InvalidProof),
                    Ok(true) => {
                        let v = self.vintage_or_new(project_id, year);
                        if !fits_i128(v.total_issued + amount) {
                            Err(Error::Overflow)
                        } else {
                            Ok(Vintage { total_issued: (v.total_issued + amount) as i128, ..v })
                        }
                    },
                }
            }
        }
    }

    /// The outcome of recording a retirement of `amount` against
    /// `(project_id, year)`, once the retirement contract has authorized.
    pub open spec fn record_retirement(self, project_id: Bytes32, year: u32, amount: i128) -> Result<
        RegistryState,
        Error,
    > {
        if amount <= 0 {
            Err(Error::NonPositiveAmount)
        } else if self.retirement_contract is None {
            Err(Error::NotFound)
        } else if !self.vintages.contains_key((project_id, year)) {
            Err(Error::NotFound)
        } else {
            let v = self.vintages[(project_id, year)];
            if !fits_i128(v.total_retired + amount) {
                Err(Error::Overflow)
            } else if v.total_retired + amount > v.total_issued {
                Err(Error::ExceedsIssued)
            } else {
                Ok(
                    RegistryState {
                        vintages: self.vintages.insert(
                            (project_id, year),
                            Vintage { total_retired: (v.total_retired + amount) as i128, ..v },
                        ),
                        events: self.events.push(
                            RegistryEvent::RetirementRecorded { project_id, vintage_year: year, amount },
                        ),
                        ..self
                    },
                )
            }
        }
    }

    /// The outcome of bootstrapping governance.
    pub open spec fn init_governance(self, config: GovernanceView) -> Result<RegistryState, Error> {
        if !config.valid() {
            Err(Error::InvalidConfig)
        } else {
            Ok(RegistryState { governance: Some(config), ..self })
        }
    }

    /// The check every governance action by `signer` starts with.
    pub open spec fn signer_check(self, signer: Address) -> Result<GovernanceView, Error> {
        match self.governance {
            None => Err(Error::NotFound),
            Some(cfg) => if cfg.is_signer(signer) {
                Ok(cfg)
            } else {
                Err(Error::Unauthorized)
            },
        }
    }

    /// The outcome of `signer` proposing `target` at time `now`; the
    /// proposer's approval counts.
    pub open spec fn propose(self, signer: Address, target: TargetView, now: u64) -> Result<
        (RegistryState, Bytes32),
        Error,
    > {
        match self.signer_check(signer) {
            Err(e) => Err(e),
            Ok(_) => {
                let id = proposal_id_for(target, now, signer);
                let p = ProposalView {
                    id,
                    target,
                    proposed_at: now,
                    approvals: seq![signer],
                    executed: false,
                    cancelled: false,
                };
                Ok((RegistryState { proposals: self.proposals.insert(id, p), ..self }, id))
            },
        }
    }

    /// The outcome of `signer` approving proposal `id`, with the number of
    /// approvals it then has.
    pub open spec fn approve(self, signer: Address, id: Bytes32) -> Result<(RegistryState, nat), Error> {
        match self.signer_check(signer) {
            Err(e) => Err(e),
            Ok(_) => if !self.proposals.contains_key(id) {
                Err(Error::NotFound)
            } else {
                let p = self.proposals[id];
                if p.closed() {
                    Err(Error::OrderClosed)
                } else if p.approvals.contains(signer) {
                    Err(Error::AlreadyRegistered)
                } else {
                    let q = ProposalView { approvals: p.approvals.push(signer), ..p };
                    Ok(
                        (
                            RegistryState { proposals: self.proposals.insert(id, q), ..self },
                            q.approvals.len(),
                        ),
                    )
                }
            },
        }
    }

    /// The outcome of `signer` approving key rotation `id`: proposals that
    /// change the governance configuration are not key rotations.
    pub open spec fn approve_vkey(self, signer: Address, id: Bytes32) -> Result<(RegistryState, nat), Error> {
        match self.signer_check(signer) {
            Err(e) => Err(e),
            Ok(_) => if self.proposals.contains_key(id) && self.proposals[id].target is Governance {
                Err(Error::NotFound)
            } else {
                self.approve(signer, id)
            },
        }
    }

    /// The outcome of `signer` cancelling proposal `id`.
    pub open spec fn cancel(self, signer: Address, id: Bytes32) -> Result<RegistryState, Error> {
        match self.signer_check(signer) {
            Err(e) => Err(e),
            Ok(_) => if !self.proposals.contains_key(id) {
                Err(Error::NotFound)
            } else {
                let p = self.proposals[id];
                if p.closed() {
                    Err(Error::OrderClosed)
                } else {
                    Ok(
                        RegistryState {
                            proposals: self.proposals.insert(
                                id,
                                ProposalView { cancelled: true, ..p },
                            ),
                            ..self
                        },
                    )
                }
            },
        }
    }

    /// The checks shared by both executions of proposal `id` at time `now`:
    /// governance exists, the proposal exists and is open, it has the kind
    /// of target asked for, it reached the threshold, and its timelock has
    /// elapsed.
    pub open spec fn executable(self, id: Bytes32, now: u64, want_vkey: bool) -> Result<
        ProposalView,
        Error,
    > {
        match self.governance {
            None => Err(Error::NotFound),
            Some(cfg) => if !self.proposals.contains_key(id) {
                Err(Error::NotFound)
            } else {
                let p = self.proposals[id];
                if p.closed() {
                    Err(Error::OrderClosed)
                } else if (p.target is Vkey) != want_vkey {
                    Err(Error::InvalidProposalTarget)
                } else if p.approvals.len() < cfg.threshold {
                    Err(Error::ThresholdNotMet)
                } else if (if now >= p.proposed_at {
                    now - p.proposed_at
                } else {
                    0
                }) < cfg.timelock_secs {
                    Err(Error::TimelockPending)
                } else {
                    Ok(p)
                }
            },
        }
    }

    /// The outcome of executing key rotation `id` at time `now`, with the
    /// new canonical key state.
    pub open spec fn execute_vkey(self, id: Bytes32, now: u64) -> Result<
        (RegistryState, VkeyState),
        Error,
    > {
        match self.executable(id, now, true) {
            Err(e) => Err(e),
            Ok(p) => {
                let m = p.target->Vkey_0;
                let old_key = self.vkey(m);
                if old_key.version == u32::MAX {
                    Err(Error::Overflow)
                } else {
                    let new_key = VkeyState {
                        version: (old_key.version + 1) as u32,
                        key: p.target->Vkey_1,
                    };
                    Ok(
                        (
                            RegistryState {
                                proposals: self.proposals.insert(
                                    id,
                                    ProposalView { executed: true, ..p },
                                ),
                                vkeys: self.vkeys.insert(m, new_key),
                                events: self.events.push(
                                    RegistryEvent::VkeyUpdated { methodology: m, version: new_key.version },
                                ),
                                ..self
                            },
                            new_key,
                        ),
                    )
                }
            },
        }
    }

    /// The outcome of executing configuration change `id` at time `now`.
    pub open spec fn execute_governance(self, id: Bytes32, now: u64) -> Result<RegistryState, Error> {
        match self.executable(id, now, false) {
            Err(e) => Err(e),
            Ok(p) => {
                let cfg = p.target->Governance_0;
                if !cfg.valid() {
                    Err(Error::InvalidConfig)
                } else {
                    Ok(
                        RegistryState {
                            proposals: self.proposals.insert(
                                id,
                                ProposalView { executed: true, ..p },
                            ),
                            governance: Some(cfg),
                            ..self
                        },
                    )
                }
            },
        }
    }
}

/// The registry contract.
pub struct RegistryContract {
    address: Address,
    credit_token: Option<Address>,
    zk_verifier: Option<Address>,
    projects: Table<Bytes32, Project>,
    vintages: Table<(Bytes32, u32), Vintage>,
    governance: Option<GovernanceConfig>,
    proposals: Table<Bytes32, Proposal>,
    vkeys: Table<Symbol, VkeyState>,
    retirement_contract: Option<Address>,
    events: Vec<RegistryEvent>,
}

impl View for RegistryContract {
    type V = RegistryState;

    closed spec fn view(&self) -> RegistryState {
        RegistryState {
            address: self.address,
            credit_token: self.credit_token,
            zk_verifier: self.zk_verifier,
            projects: self.projects@.map_values(|p: Project| p@),
            vintages: self.vintages@,
            governance: match self.governance {
                Some(c) => Some(c@),
                None => None,
            },
            proposals: self.proposals@.map_values(|p: Proposal| p@),
            vkeys: self.vkeys@,
            retirement_contract: self.retirement_contract,
            events: self.events@,
        }
    }
}

impl RegistryContract {
    /// A registry deployed at `address`, not initialized yet.
    pub fn new(address: Address) -> (r: Self)
        ensures
            r@.address == address,
            !r@.initialized(),
            r@.zk_verifier is None,
            r@.projects == Map::<Bytes32, ProjectView>::empty(),
            r@.vintages == Map::<(Bytes32, u32), Vintage>::empty(),
            r@.governance is None,
            r@.proposals == Map::<Bytes32, ProposalView>::empty(),
            r@.vkeys == Map::<Symbol, VkeyState>::empty(),
            r@.retirement_contract is None,
            r@.events == Seq::<RegistryEvent>::empty(),
            r@.wf(),
    {
        let r = RegistryContract {
            address,
            credit_token: None,
            zk_verifier: None,
            projects: Table::new(),
            vintages: Table::new(),
            governance: None,
            proposals: Table::new(),
            vkeys: Table::new(),
            retirement_contract: None,
            events: Vec::new(),
        };
        assert(r@.projects =~= Map::<Bytes32, ProjectView>::empty());
        assert(r@.proposals =~= Map::<Bytes32, ProposalView>::empty());
        r
    }

    /// The events the registry has published, oldest first.
    pub fn events(&self) -> (r: Vec<RegistryEvent>)
        ensures
            r@ == self@.events,
    {
        copy_vec(&self.events)
    }

    /// The registry's own address.
    pub fn address(&self) -> (r: Address)
        ensures
            r == self@.address,
    {
        self.address
    }

    /// Initialize the registry with the addresses of the credit token and
    /// the proof verifier. Can only be done once.
    pub fn initialize(&mut self, credit_token: Address, zk_verifier: Address)
        requires
            !old(self)@.initialized(),
        ensures
            old(self)@.wf() ==> final(self)@.wf(),
            final(self)@ == (RegistryState {
                credit_token: Some(credit_token),
                zk_verifier: Some(zk_verifier),
                ..old(self)@
            }),
    {
        self.credit_token = Some(credit_token);
        self.zk_verifier = Some(zk_verifier);
        proof {
            assert(self@.projects =~= old(self)@.projects);
            assert(self@.proposals =~= old(self)@.proposals);
        }
    }

    /// Whether the registry has been initialized.
    pub fn is_initialized(&self) -> (r: bool)
        ensures
            r == self@.initialized(),
    {
        self.credit_token.is_some()
    }

    /// The credit token contract's address, once initialized.
    pub fn credit_token(&self) -> (r: Option<Address>)
        ensures
            r == self@.credit_token,
    {
        self.credit_token
    }

    /// The proof verifier's address, once initialized.
    pub fn zk_verifier(&self) -> (r: Option<Address>)
        ensures
            r == self@.zk_verifier,
    {
        self.zk_verifier
    }

    /// The contract allowed to record retirements, once set.
    pub fn retirement_contract(&self) -> (r: Option<Address>)
        ensures
            r == self@.retirement_contract,
    {
        self.retirement_contract
    }

    /// Register a new project; `AlreadyRegistered` when its id is taken.
    pub fn register_project(&mut self, project: Project) -> (r: Result<(), Error>)
        requires
            old(self)@.wf(),
        ensures
            final(self)@.wf(),
            match old(self)@.register_project(project@) {
                Ok(s) => r is Ok && final(self)@ == s,
                Err(e) => r == Err::<(), Error>(e) && final(self)@ == old(self)@,
            },
    {
        if self.projects.contains_key(&project.id) {
            return Err(Error::AlreadyRegistered);
        }
        let ghost pv = project@;
        self.projects.insert(project.id, project);
        proof {
            assert(self@.projects =~= old(self)@.projects.insert(pv.id, pv));
            assert(self@.proposals =~= old(self)@.proposals);
        }
        Ok(())
    }

    /// Look up a project by id; `NotFound` when there is none.
    pub fn get_project(&self, project_id: Bytes32) -> (r: Result<Project, Error>)
        ensures
            match r {
                Ok(p) => self@.projects.contains_key(project_id) && p@ == self@.projects[project_id],
                Err(e) => !self@.projects.contains_key(project_id) && e == Error::NotFound,
            },
    {
        match self.projects.get(&project_id) {
            Some(p) => Ok(p.dup()),
            None => Err(Error::NotFound),
        }
    }

    /// Look up the vintage of `(project_id, year)`; `NotFound` when none.
    pub fn get_vintage(&self, project_id: Bytes32, year: u32) -> (r: Result<Vintage, Error>)
        ensures
            match r {
                Ok(v) => self@.vintages.contains_key((project_id, year)) && v == self@.vintages[(
                    project_id,
                    year,
                )],
                Err(e) => !self@.vintages.contains_key((project_id, year)) && e == Error::NotFound,
            },
    {
        match self.vintages.get(&(project_id, year)) {
            Some(v) => Ok(*v),
            None => Err(Error::NotFound),
        }
    }

    /// The canonical verifying key of `methodology`; version 0 and an
    /// all-zero key when none was ever set.
    pub fn get_vkey(&self, methodology: Symbol) -> (r: VkeyState)
        ensures
            r == self@.vkey(methodology),
    {
        match self.vkeys.get(&methodology) {
            Some(v) => *v,
            None => {
                VkeyState { version: 0, key: zero32() }
            },
        }
    }

    /// Request a mint of `amount` credits for `(project_id, vintage_year)`.
    ///
    /// The project must exist and use its methodology's canonical verifying
    /// key, and `proof` must verify against that key; the vintage's issued
    /// total then grows by `amount` and the credit token mints `amount` to
    /// the registry. Refused with `NonPositiveAmount`, `NotFound`,
    /// `VkeyNotFound`, `VkeyMismatch`, `InvalidProof` or `Overflow`; a
    /// refused request changes nothing.
    pub fn request_mint(
        &mut self,
        auth: &Auth,
        zk: &ZkVerifierContract,
        tokens: &mut TokenLedger,
        project_id: Bytes32,
        vintage_year: u32,
        amount: i128,
        proof: &crate::common::Proof,
    ) -> (r: Result<(), Error>)
        requires
            old(self)@.wf(),
            old(self)@.mint_vintage(
                project_id,
                vintage_year,
                amount,
                proof.proof_data@,
                proof.public_inputs@,
            ) is Ok ==> {
                &&& old(self)@.initialized()
                &&& old(self)@.zk_verifier == Some(zk@.address)
                &&& minting_succeeds(
                    old(tokens)@,
                    *auth,
                    old(self)@.address,
                    old(self)@.credit_token.unwrap(),
                    amount,
                )
            },
        ensures
            final(self)@.wf(),
            match old(self)@.mint_vintage(
                project_id,
                vintage_year,
                amount,
                proof.proof_data@,
                proof.public_inputs@,
            ) {
                Ok(v) => r is Ok && final(self)@ == (RegistryState {
                    vintages: old(self)@.vintages.insert((project_id, vintage_year), v),
                    ..old(self)@
                }) && final(tokens)@ == old(tokens)@.insert(
                    old(self)@.credit_token.unwrap(),
                    old(tokens)@[old(self)@.credit_token.unwrap()].mint(
                        old(self)@.address,
                        amount,
                    )->Ok_0,
                ),
                Err(e) => r == Err::<(), Error>(e) && final(self)@ == old(self)@ && final(tokens)@
                    == old(tokens)@,
            },
    {
        if amount <= 0 {
            return Err(Error::NonPositiveAmount);
        }
        let project = match self.projects.get(&project_id) {
            Some(p) => p,
            None => {
                return Err(Error::NotFound);
            },
        };
        let vkey = self.get_vkey(project.methodology);
        if vkey.version == 0 {
            return Err(Error::VkeyNotFound);
        }
        if project.verifying_key_version != vkey.version {
            return Err(Error::VkeyMismatch);
        }
        match zk.verify(proof, &proof.public_inputs, project_id, vkey.version, vkey.key) {
            Ok(true) => {},
            Ok(false) => {
                return Err(Error::InvalidProof);
            },
            Err(e) => {
                return Err(e);
            },
        }
        let key = (project_id, vintage_year);
        let vintage = match self.vintages.get(&key) {
            Some(v) => *v,
            None => Vintage { project_id, year: vintage_year, total_issued: 0, total_retired: 0 },
        };
        let total_issued = match vintage.total_issued.checked_add(amount) {
            Some(v) => v,
            None => {
                return Err(Error::Overflow);
            },
        };
        let updated = Vintage { total_issued, ..vintage };
        self.vintages.insert(key, updated);
        let credit_token = match self.credit_token {
            Some(a) => a,
            None => {
                return Err(Error::NotFound);
            },
        };
        let minted = tokens.mint(auth, self.address, credit_token, self.address, amount);
        proof {
            assert(minted is Ok);
            assert(self@.projects =~= old(self)@.projects);
            assert(self@.proposals =~= old(self)@.proposals);
        }
        Ok(())
    }

    /// Set the contract allowed to record retirements; `signer` must
    /// authorize and be a governance signer (`NotFound` without governance,
    /// `Unauthorized` for a non-signer).
    pub fn set_retirement_contract(&mut self, auth: &Auth, signer: Address, retirement: Address) -> (r:
        Result<(), Error>)
        requires
            auth.allows(signer),
        ensures
            old(self)@.wf() ==> final(self)@.wf(),
            match old(self)@.signer_check(signer) {
                Ok(_) => r is Ok && final(self)@ == (RegistryState {
                    retirement_contract: Some(retirement),
                    ..old(self)@
                }),
                Err(e) => r == Err::<(), Error>(e) && final(self)@ == old(self)@,
            },
    {
        match &self.governance {
            None => {
                return Err(Error::NotFound);
            },
            Some(cfg) => {
                if !cfg.is_signer(signer) {
                    return Err(Error::Unauthorized);
                }
            },
        }
        self.retirement_contract = Some(retirement);
        proof {
            assert(self@.projects =~= old(self)@.projects);
            assert(self@.proposals =~= old(self)@.proposals);
        }
        Ok(())
    }

    /// Record a retirement of `amount` against `(project_id, vintage_year)`
    /// on behalf of the retirement contract, which must authorize.
    ///
    /// Refused with `NonPositiveAmount`, `NotFound` (no retirement contract
    /// set, or no such vintage), `Overflow`, or `ExceedsIssued` when the
    /// retired total would pass the issued total.
    pub fn record_retirement(
        &mut self,
        auth: &Auth,
        project_id: Bytes32,
        vintage_year: u32,
        amount: i128,
    ) -> (r: Result<(), Error>)
        requires
            old(self)@.wf(),
            amount > 0 && old(self)@.retirement_contract is Some ==> auth.allows(
                old(self)@.retirement_contract.unwrap(),
            ),
        ensures
            final(self)@.wf(),
            match old(self)@.record_retirement(project_id, vintage_year, amount) {
                Ok(s) => r is Ok && final(self)@ == s,
                Err(e) => r == Err::<(), Error>(e) && final(self)@ == old(self)@,
            },
    {
        if amount <= 0 {
            return Err(Error::NonPositiveAmount);
        }
        if self.retirement_contract.is_none() {
            return Err(Error::NotFound);
        }
        let key = (project_id, vintage_year);
        let vintage = match self.vintages.get(&key) {
            Some(v) => *v,
            None => {
                return Err(Error::NotFound);
            },
        };
        let new_retired = match vintage.total_retired.checked_add(amount) {
            Some(v) => v,
            None => {
                return Err(Error::Overflow);
            },
        };
        if new_retired > vintage.total_issued {
            return Err(Error::ExceedsIssued);
        }
        self.vintages.insert(key, Vintage { total_retired: new_retired, ..vintage });
        self.events.push(RegistryEvent::RetirementRecorded { project_id, vintage_year, amount });
        proof {
            assert(self@.projects =~= old(self)@.projects);
            assert(self@.proposals =~= old(self)@.proposals);
        }
        Ok(())
    }

    /// Bootstrap the governance configuration; `InvalidConfig` unless there
    /// are signers, `1 <= threshold <= signers` and the timelock is
    /// positive. Can only be done once.
    pub fn init_governance(&mut self, threshold: u32, signers: Vec<Address>, timelock_secs: u64) -> (r:
        Result<(), Error>)
        requires
            (GovernanceView { threshold, signers: signers@, timelock_secs }).valid()
                ==> old(self)@.governance is None,
        ensures
            old(self)@.wf() ==> final(self)@.wf(),
            match old(self)@.init_governance(
                GovernanceView { threshold, signers: signers@, timelock_secs },
            ) {
                Ok(s) => r is Ok && final(self)@ == s,
                Err(e) => r == Err::<(), Error>(e) && final(self)@ == old(self)@,
            },
    {
        let config = GovernanceConfig { threshold, signers, timelock_secs };
        if !config.is_valid() {
            return Err(Error::InvalidConfig);
        }
        self.governance = Some(config);
        proof {
            assert(self@.projects =~= old(self)@.projects);
            assert(self@.proposals =~= old(self)@.proposals);
        }
        Ok(())
    }

    /// The governance configuration; `NotFound` before bootstrap.
    pub fn get_governance(&self) -> (r: Result<GovernanceConfig, Error>)
        ensures
            match self@.governance {
                Some(c) => r is Ok && r->Ok_0@ == c,
                None => r == Err::<GovernanceConfig, Error>(Error::NotFound),
            },
    {
        match &self.governance {
            Some(c) => Ok(c.dup()),
            None => Err(Error::NotFound),
        }
    }

    /// Look up a proposal by id; `NotFound` when there is none.
    pub fn get_proposal(&self, proposal_id: Bytes32) -> (r: Result<Proposal, Error>)
        ensures
            match r {
                Ok(p) => self@.proposals.contains_key(proposal_id) && p@
                    == self@.proposals[proposal_id],
                Err(e) => !self@.proposals.contains_key(proposal_id) && e == Error::NotFound,
            },
    {
        match self.proposals.get(&proposal_id) {
            Some(p) => Ok(p.dup()),
            None => Err(Error::NotFound),
        }
    }

    fn check_signer(&self, signer: Address) -> (r: Result<(), Error>)
        ensures
            match self@.signer_check(signer) {
                Ok(_) => r is Ok,
                Err(e) => r == Err::<(), Error>(e),
            },
    {
        match &self.governance {
            None => Err(Error::NotFound),
            Some(cfg) => if cfg.is_signer(signer) {
                Ok(())
            } else {
                Err(Error::Unauthorized)
            },
        }
    }

    fn propose(&mut self, ledger: LedgerInfo, signer: Address, target: ProposalTarget) -> (r: Result<
        Bytes32,
        Error,
    >)
        requires
            old(self)@.wf(),
            match target@ {
                TargetView::Governance(c) => c.signers.len() <= 8000,
                TargetView::Vkey(_, _) => true,
            },
        ensures
            final(self)@.wf(),
            match old(self)@.propose(signer, target@, ledger.timestamp) {
                Ok((s, id)) => r == Ok::<Bytes32, Error>(id) && final(self)@ == s,
                Err(e) => r == Err::<Bytes32, Error>(e) && final(self)@ == old(self)@,
            },
    {
        match self.check_signer(signer) {
            Ok(()) => {},
            Err(e) => {
                return Err(e);
            },
        }
        let id = proposal_id(&target, ledger.timestamp, signer);
        let mut approvals: Vec<Address> = Vec::new();
        approvals.push(signer);
        let proposal = Proposal {
            id,
            target,
            proposed_at: ledger.timestamp,
            approvals,
            executed: false,
            cancelled: false,
        };
        let ghost pv = proposal@;
        assert(pv.approvals =~= seq![signer]);
        self.proposals.insert(id, proposal);
        proof {
            assert(self@.proposals =~= old(self)@.proposals.insert(id, pv));
            assert(self@.projects =~= old(self)@.projects);
        }
        Ok(id)
    }

    /// Propose rotating the canonical verifying key of `methodology` to
    /// `new_key`; `signer` must authorize and be a governance signer, and
    /// the proposal starts with the signer's approval. Returns the proposal
    /// id, derived from the proposal's contents.
    pub fn propose_vkey_update(
        &mut self,
        auth: &Auth,
        ledger: LedgerInfo,
        signer: Address,
        methodology: Symbol,
        new_key: Bytes32,
    ) -> (r: Result<Bytes32, Error>)
        requires
            old(self)@.wf(),
            auth.allows(signer),
        ensures
            final(self)@.wf(),
            match old(self)@.propose(
                signer,
                TargetView::Vkey(methodology, new_key),
                ledger.timestamp,
            ) {
                Ok((s, id)) => r == Ok::<Bytes32, Error>(id) && final(self)@ == s,
                Err(e) => r == Err::<Bytes32, Error>(e) && final(self)@ == old(self)@,
            },
    {
        self.propose(ledger, signer, ProposalTarget::Vkey(methodology, new_key))
    }

    /// Propose replacing the governance configuration with `new_config`;
    /// `signer` must authorize and be a governance signer. The new
    /// configuration is validated when the proposal executes.
    pub fn propose_governance_update(
        &mut self,
        auth: &Auth,
        ledger: LedgerInfo,
        signer: Address,
        new_config: GovernanceConfig,
    ) -> (r: Result<Bytes32, Error>)
        requires
            old(self)@.wf(),
            auth.allows(signer),
            new_config.signers@.len() <= 8000,
        ensures
            final(self)@.wf(),
            match old(self)@.propose(
                signer,
                TargetView::Governance(new_config@),
                ledger.timestamp,
            ) {
                Ok((s, id)) => r == Ok::<Bytes32, Error>(id) && final(self)@ == s,
                Err(e) => r == Err::<Bytes32, Error>(e) && final(self)@ == old(self)@,
            },
    {
        self.propose(ledger, signer, ProposalTarget::Governance(new_config))
    }

    /// Approve proposal `proposal_id`, returning its number of approvals;
    /// `signer` must authorize and be a governance signer.
    ///
    /// Refused with `NotFound` (no governance or no such proposal),
    /// `Unauthorized` (not a signer), `OrderClosed` (executed or
    /// cancelled), or `AlreadyRegistered` (already approved by `signer`).
    pub fn approve_update(&mut self, auth: &Auth, signer: Address, proposal_id: Bytes32) -> (r:
        Result<u32, Error>)
        requires
            old(self)@.wf(),
            auth.allows(signer),
            old(self)@.proposals.contains_key(proposal_id) ==> old(self)@.proposals[proposal_id].approvals.len()
                < u32::MAX,
        ensures
            final(self)@.wf(),
            match old(self)@.approve(signer, proposal_id) {
                Ok((s, n)) => r == Ok::<u32, Error>(n as u32) && final(self)@ == s,
                Err(e) => r == Err::<u32, Error>(e) && final(self)@ == old(self)@,
            },
    {
        match self.check_signer(signer) {
            Ok(()) => {},
            Err(e) => {
                return Err(e);
            },
        }
        match self.proposals.get(&proposal_id) {
            None => {
                return Err(Error::NotFound);
            },
            Some(p) => {
                if p.executed || p.cancelled {
                    return Err(Error::OrderClosed);
                }
                if vec_contains(&p.approvals, signer) {
                    return Err(Error::AlreadyRegistered);
                }
            },
        }
        let mut p = match self.proposals.remove(&proposal_id) {
            Some(p) => p,
            None => {
                return Err(Error::NotFound);
            },
        };
        let ghost before = p@;
        p.approvals.push(signer);
        let approvals = p.approvals.len() as u32;
        let ghost pv = p@;
        self.proposals.insert(proposal_id, p);
        proof {
            assert(pv == ProposalView { approvals: before.approvals.push(signer), ..before });
            assert(self@.proposals =~= old(self)@.proposals.insert(proposal_id, pv));
            assert(self@.projects =~= old(self)@.projects);
            assert forall|i: int, j: int|
                0 <= i < j < pv.approvals.len() implies pv.approvals[i] != pv.approvals[j] by {
                if j == pv.approvals.len() - 1 {
                    assert(before.approvals.contains(pv.approvals[i]));
                }
            }
        }
        Ok(approvals)
    }

    /// Approve the pending key rotation `proposal_id`, as `approve_update`
    /// does; a proposal that changes the governance configuration is no key
    /// rotation and is refused with `NotFound`.
    pub fn approve_vkey_update(&mut self, auth: &Auth, signer: Address, proposal_id: Bytes32) -> (r:
        Result<u32, Error>)
        requires
            old(self)@.wf(),
            auth.allows(signer),
            old(self)@.proposals.contains_key(proposal_id) ==> old(self)@.proposals[proposal_id].approvals.len()
                < u32::MAX,
        ensures
            final(self)@.wf(),
            match old(self)@.approve_vkey(signer, proposal_id) {
                Ok((s, n)) => r == Ok::<u32, Error>(n as u32) && final(self)@ == s,
                Err(e) => r == Err::<u32, Error>(e) && final(self)@ == old(self)@,
            },
    {
        match self.check_signer(signer) {
            Ok(()) => {},
            Err(e) => {
                return Err(e);
            },
        }
        match self.proposals.get(&proposal_id) {
            Some(p) => {
                if let ProposalTarget::Governance(_) = &p.target {
                    return Err(Error::NotFound);
                }
            },
            None => {},
        }
        self.approve_update(auth, signer, proposal_id)
    }

    /// Cancel proposal `proposal_id` so that it can never execute; `signer`
    /// must authorize and be a governance signer.
    ///
    /// Refused with `NotFound`, `Unauthorized`, or `OrderClosed` when the
    /// proposal is already executed or cancelled.
    pub fn cancel_update(&mut self, auth: &Auth, signer: Address, proposal_id: Bytes32) -> (r: Result<
        (),
        Error,
    >)
        requires
            old(self)@.wf(),
            auth.allows(signer),
        ensures
            final(self)@.wf(),
            match old(self)@.cancel(signer, proposal_id) {
                Ok(s) => r is Ok && final(self)@ == s,
                Err(e) => r == Err::<(), Error>(e) && final(self)@ == old(self)@,
            },
    {
        match self.check_signer(signer) {
            Ok(()) => {},
            Err(e) => {
                return Err(e);
            },
        }
        match self.proposals.get(&proposal_id) {
            None => {
                return Err(Error::NotFound);
            },
            Some(p) => {
                if p.executed || p.cancelled {
                    return Err(Error::OrderClosed);
                }
            },
        }
        let mut p = match self.proposals.remove(&proposal_id) {
            Some(p) => p,
            None => {
                return Err(Error::NotFound);
            },
        };
        p.cancelled = true;
        let ghost pv = p@;
        self.proposals.insert(proposal_id, p);
        proof {
            assert(self@.proposals =~= old(self)@.proposals.insert(proposal_id, pv));
            assert(self@.projects =~= old(self)@.projects);
        }
        Ok(())
    }

    fn check_executable(&self, proposal_id: Bytes32, now: u64, want_vkey: bool) -> (r: Result<
        (),
        Error,
    >)
        ensures
            match self@.executable(proposal_id, now, want_vkey) {
                Ok(_) => r is Ok,
                Err(e) => r == Err::<(), Error>(e),
            },
    {
        let cfg = match &self.governance {
            None => {
                return Err(Error::NotFound);
            },
            Some(c) => c,
        };
        let p = match self.proposals.get(&proposal_id) {
            None => {
                return Err(Error::NotFound);
            },
            Some(p) => p,
        };
        if p.executed || p.cancelled {
            return Err(Error::OrderClosed);
        }
        let is_vkey = match &p.target {
            ProposalTarget::Vkey(_, _) => true,
            ProposalTarget::Governance(_) => false,
        };
        if is_vkey != want_vkey {
            return Err(Error::InvalidProposalTarget);
        }
        if (p.approvals.len() as u64) < (cfg.threshold as u64) {
            return Err(Error::ThresholdNotMet);
        }
        let elapsed = now.saturating_sub(p.proposed_at);
        if elapsed < cfg.timelock_secs {
            return Err(Error::TimelockPending);
        }
        Ok(())
    }

    /// Execute an approved, timelock-elapsed key rotation at ledger time
    /// `now`, returning the methodology's new canonical key state (its
    /// version bumped by one). Anyone may execute.
    ///
    /// Refused with `NotFound`, `OrderClosed` (executed or cancelled),
    /// `InvalidProposalTarget` (a configuration change), `ThresholdNotMet`,
    /// `TimelockPending`, or `Overflow` of the version.
    pub fn execute_vkey_update(&mut self, now: u64, proposal_id: Bytes32) -> (r: Result<
        VkeyState,
        Error,
    >)
        requires
            old(self)@.wf(),
        ensures
            final(self)@.wf(),
            match old(self)@.execute_vkey(proposal_id, now) {
                Ok((s, k)) => r == Ok::<VkeyState, Error>(k) && final(self)@ == s,
                Err(e) => r == Err::<VkeyState, Error>(e) && final(self)@ == old(self)@,
            },
    {
        match self.check_executable(proposal_id, now, true) {
            Ok(()) => {},
            Err(e) => {
                return Err(e);
            },
        }
        let mut p = match self.proposals.remove(&proposal_id) {
            Some(p) => p,
            None => {
                return Err(Error::NotFound);
            },
        };
        let (methodology, new_key) = match &p.target {
            ProposalTarget::Vkey(m, k) => (*m, *k),
            ProposalTarget::Governance(_) => {
                self.proposals.insert(proposal_id, p);
                proof {
                    assert(self@.proposals =~= old(self)@.proposals);
                    assert(self@.projects =~= old(self)@.projects);
                }
                return Err(Error::InvalidProposalTarget);
            },
        };
        let current = self.get_vkey(methodology);
        if current.version == u32::MAX {
            self.proposals.insert(proposal_id, p);
            proof {
                assert(self@.proposals =~= old(self)@.proposals);
                assert(self@.projects =~= old(self)@.projects);
            }
            return Err(Error::Overflow);
        }
        let vkey = VkeyState { version: current.version + 1, key: new_key };
        p.executed = true;
        let ghost pv = p@;
        self.proposals.insert(proposal_id, p);
        self.vkeys.insert(methodology, vkey);
        self.events.push(RegistryEvent::VkeyUpdated { methodology, version: vkey.version });
        proof {
            assert(self@.proposals =~= old(self)@.proposals.insert(proposal_id, pv));
            assert(self@.projects =~= old(self)@.projects);
        }
        Ok(vkey)
    }

    /// Execute an approved, timelock-elapsed configuration change at ledger
    /// time `now`, replacing the governance configuration. Anyone may
    /// execute.
    ///
    /// Refused with `NotFound`, `OrderClosed`, `InvalidProposalTarget` (a
    /// key rotation), `ThresholdNotMet`, `TimelockPending`, or
    /// `InvalidConfig` when the proposed configuration is not valid.
    pub fn execute_governance_update(&mut self, now: u64, proposal_id: Bytes32) -> (r: Result<
        (),
        Error,
    >)
        requires
            old(self)@.wf(),
        ensures
            final(self)@.wf(),
            match old(self)@.execute_governance(proposal_id, now) {
                Ok(s) => r is Ok && final(self)@ == s,
                Err(e) => r == Err::<(), Error>(e) && final(self)@ == old(self)@,
            },
    {
        match self.check_executable(proposal_id, now, false) {
            Ok(()) => {},
            Err(e) => {
                return Err(e);
            },
        }
        let mut p = match self.proposals.remove(&proposal_id) {
            Some(p) => p,
            None => {
                return Err(Error::NotFound);
            },
        };
        let config = match &p.target {
            ProposalTarget::Governance(c) => c.dup(),
            ProposalTarget::Vkey(_, _) => {
                self.proposals.insert(proposal_id, p);
                proof {
                    assert(self@.proposals =~= old(self)@.proposals);
                    assert(self@.projects =~= old(self)@.projects);
                }
                return Err(Error::InvalidProposalTarget);
            },
        };
        if !config.is_valid() {
            self.proposals.insert(proposal_id, p);
            proof {
                assert(self@.proposals =~= old(self)@.proposals);
                assert(self@.projects =~= old(self)@.projects);
            }
            return Err(Error::InvalidConfig);
        }
        p.executed = true;
        let ghost pv = p@;
        self.proposals.insert(proposal_id, p);
        self.governance = Some(config);
        proof {
            assert(self@.proposals =~= old(self)@.proposals.insert(proposal_id, pv));
            assert(self@.projects =~= old(self)@.projects);
        }
        Ok(())
    }
}

/// A proposal executes only once it is open, has gathered at least the
/// threshold of approvals (at least one) and has waited out the timelock;
/// executing it closes it.
pub proof fn law_execution_needs_threshold_and_timelock(r: RegistryState, id: Bytes32, now: u64)
    requires
        r.wf(),
    ensures
        r.execute_vkey(id, now) is Ok || r.execute_governance(id, now) is Ok ==> ({
            let cfg = r.governance.unwrap();
            let p = r.proposals[id];
            &&& r.governance is Some
            &&& r.proposals.contains_key(id)
            &&& !p.executed && !p.cancelled
            &&& p.approvals.len() >= cfg.threshold >= 1
            &&& now >= p.proposed_at + cfg.timelock_secs
        }),
        r.execute_vkey(id, now) is Ok ==> r.execute_vkey(id, now)->Ok_0.0.proposals[id].executed,
        r.execute_governance(id, now) is Ok ==> r.execute_governance(id, now)->Ok_0.proposals[id].executed,
{
}

/// An executed proposal never executes again, at any later time and as
/// either kind of change.
pub proof fn law_proposal_executes_once(r: RegistryState, id: Bytes32, now: u64, later: u64)
    ensures
        r.execute_vkey(id, now) is Ok ==> ({
            let s = r.execute_vkey(id, now)->Ok_0.0;
            &&& s.execute_vkey(id, later) == Err::<(RegistryState, VkeyState), Error>(Error::OrderClosed)
            &&& s.execute_governance(id, later) == Err::<RegistryState, Error>(Error::OrderClosed)
        }),
        r.execute_governance(id, now) is Ok ==> ({
            let s = r.execute_governance(id, now)->Ok_0;
            &&& s.execute_vkey(id, later) == Err::<(RegistryState, VkeyState), Error>(Error::OrderClosed)
            &&& s.execute_governance(id, later) == Err::<RegistryState, Error>(Error::OrderClosed)
        }),
{
}

/// A cancelled proposal never executes.
pub proof fn law_cancelled_never_executes(r: RegistryState, signer: Address, id: Bytes32, now: u64)
    requires
        r.cancel(signer, id) is Ok,
    ensures
        r.cancel(signer, id)->Ok_0.execute_vkey(id, now) == Err::<(RegistryState, VkeyState), Error>(
            Error::OrderClosed,
        ),
        r.cancel(signer, id)->Ok_0.execute_governance(id, now) == Err::<RegistryState, Error>(
            Error::OrderClosed,
        ),
{
}

/// Executing a key rotation installs the proposed key under the next
/// version of its methodology, and leaves every other methodology's key
/// and every project and vintage as they were.
pub proof fn law_key_rotation_bumps_version(r: RegistryState, id: Bytes32, now: u64)
    requires
        r.execute_vkey(id, now) is Ok,
    ensures
        ({
            let (s, k) = r.execute_vkey(id, now)->Ok_0;
            let m = r.proposals[id].target->Vkey_0;
            &&& r.proposals[id].target is Vkey
            &&& k.version == r.vkey(m).version + 1
            &&& k.key == r.proposals[id].target->Vkey_1
            &&& s.vkey(m) == k
            &&& forall|other: Symbol| other != m ==> #[trigger] s.vkey(other) == r.vkey(other)
            &&& s.projects == r.projects
            &&& s.vintages == r.vintages
        }),
{
}

/// Each approval comes from a signer who had not approved yet, and adds
/// exactly one to the count.
pub proof fn law_approval_counts_each_signer_once(r: RegistryState, signer: Address, id: Bytes32)
    requires
        r.approve(signer, id) is Ok,
    ensures
        ({
            let (s, n) = r.approve(signer, id)->Ok_0;
            &&& !r.proposals[id].approvals.contains(signer)
            &&& s.proposals[id].approvals == r.proposals[id].approvals.push(signer)
            &&& n == r.proposals[id].approvals.len() + 1
        }),
        r.proposals.contains_key(id) && r.proposals[id].approvals.contains(signer)
            ==> r.approve(signer, id) is Err,
{
}

/// Credits are minted only against a proof that verifies, for the project,
/// under the canonical key of its methodology at the version the project
/// uses; a mint adds exactly its amount to the vintage's issued total and
/// leaves its retired total as it was.
pub proof fn law_minting_needs_verified_proof(
    r: RegistryState,
    project_id: Bytes32,
    year: u32,
    amount: i128,
    proof_data: Seq<u8>,
    public_inputs: Seq<Bytes32>,
)
    requires
        r.mint_vintage(project_id, year, amount, proof_data, public_inputs) is Ok,
    ensures
        ({
            let v = r.mint_vintage(project_id, year, amount, proof_data, public_inputs)->Ok_0;
            let project = r.projects[project_id];
            let key = r.vkey(project.methodology);
            &&& r.projects.contains_key(project_id)
            &&& key.version > 0
            &&& project.verifying_key_version == key.version
            &&& verify_spec(proof_data, public_inputs, project_id, key.version, key.key) == Ok::<
                bool,
                Error,
            >(true)
            &&& amount > 0
            &&& v.total_issued == r.vintage_or_new(project_id, year).total_issued + amount
            &&& v.total_retired == r.vintage_or_new(project_id, year).total_retired
        }),
{
}

/// Recording a retirement adds exactly its amount to the vintage's retired
/// total, and is refused whenever that would retire more than was issued:
/// a vintage never has more retired than issued.
pub proof fn law_retired_never_exceeds_issued(r: RegistryState, project_id: Bytes32, year: u32, amount: i128)
    requires
        r.wf(),
    ensures
        r.record_retirement(project_id, year, amount) is Ok ==> ({
            let s = r.record_retirement(project_id, year, amount)->Ok_0;
            let before = r.vintages[(project_id, year)];
            let after = s.vintages[(project_id, year)];
            &&& s.wf()
            &&& after.total_retired == before.total_retired + amount
            &&& after.total_retired <= after.total_issued == before.total_issued
        }),
        r.vintages.contains_key((project_id, year)) && amount > 0 && r.retirement_contract is Some
            && r.vintages[(project_id, year)].total_retired + amount > r.vintages[(
            project_id,
            year,
        )].total_issued ==> r.record_retirement(project_id, year, amount) is Err,
{
    if r.record_retirement(project_id, year, amount) is Ok {
        let s = r.record_retirement(project_id, year, amount)->Ok_0;
        assert forall|k: (Bytes32, u32)| #[trigger] s.vintages.contains_key(k) implies {
            &&& s.vintages[k].project_id == k.0
            &&& s.vintages[k].year == k.1
            &&& 0 <= s.vintages[k].total_retired <= s.vintages[k].total_issued
        } by {
            if k != (project_id, year) {
                assert(r.vintages.contains_key(k));
            }
        }
    }
}

/// A retirement is refused only for a want of its preconditions or beyond
/// what was issued: on a well-formed registry it is recorded exactly when
/// the amount is positive, the retirement contract is set, the vintage
/// exists and the retired total, with the amount added, stays within the
/// issued total (so retiring everything that remains goes through); the
/// vintage's retired total then grows by the amount and its issued total
/// stays.
pub proof fn law_retirement_up_to_issued_succeeds(
    r: RegistryState,
    project_id: Bytes32,
    year: u32,
    amount: i128,
)
    requires
        r.wf(),
    ensures
        r.record_retirement(project_id, year, amount) is Ok <==> {
            &&& amount > 0
            &&& r.retirement_contract is Some
            &&& r.vintages.contains_key((project_id, year))
            &&& r.vintages[(project_id, year)].total_retired + amount
                <= r.vintages[(project_id, year)].total_issued
        },
        r.record_retirement(project_id, year, amount) is Ok ==> ({
            let s = r.record_retirement(project_id, year, amount)->Ok_0;
            &&& s.vintages[(project_id, year)].total_retired == r.vintages[(
                project_id,
                year,
            )].total_retired + amount
            &&& s.vintages[(project_id, year)].total_issued == r.vintages[(
                project_id,
                year,
            )].total_issued
        }),
{
    if amount > 0 && r.vintages.contains_key((project_id, year)) {
        assert(r.vintages[(project_id, year)].total_retired >= 0);
    }
}

/// A project id is registered once: the first registration stores the
/// project as given, to be read back unchanged, and every later one is
/// refused with `AlreadyRegistered`.
pub proof fn law_project_registered_once(r: RegistryState, p: ProjectView, q: ProjectView)
    requires
        r.register_project(p) is Ok,
        q.id == p.id,
    ensures
        r.register_project(p)->Ok_0.projects[p.id] == p,
        r.register_project(p)->Ok_0.register_project(q) == Err::<RegistryState, Error>(
            Error::AlreadyRegistered,
        ),
{
}

/// Minting accumulates issuance: a mint request that goes through adds its
/// amount to the vintage's issued total (starting from zero for a new
/// vintage), leaves its retired total and every other vintage as they were,
/// and raises the credit token's supply, and the registry's balance, by the
/// amount; two requests for the same vintage add up.
pub proof fn law_request_mint_accumulates(
    r: RegistryState,
    ledger: LedgerState,
    project_id: Bytes32,
    year: u32,
    amount: i128,
    proof_data: Seq<u8>,
    public_inputs: Seq<Bytes32>,
    amount2: i128,
    proof_data2: Seq<u8>,
    public_inputs2: Seq<Bytes32>,
)
    requires
        r.mint_vintage(project_id, year, amount, proof_data, public_inputs) is Ok,
        r.credit_token is Some,
        ledger.contains_key(r.credit_token.unwrap()),
        ledger[r.credit_token.unwrap()].mint(r.address, amount) is Ok,
    ensures
        ({
            let v = r.mint_vintage(project_id, year, amount, proof_data, public_inputs)->Ok_0;
            let r2 = RegistryState { vintages: r.vintages.insert((project_id, year), v), ..r };
            let token = r.credit_token.unwrap();
            let t2 = ledger[token].mint(r.address, amount)->Ok_0;
            &&& r2.vintage_or_new(project_id, year).total_issued == r.vintage_or_new(
                project_id,
                year,
            ).total_issued + amount
            &&& r2.vintage_or_new(project_id, year).total_retired == r.vintage_or_new(
                project_id,
                year,
            ).total_retired
            &&& forall|k: (Bytes32, u32)| k != (project_id, year) ==> #[trigger] r2.vintages.get(k)
                == r.vintages.get(k)
            &&& t2.total_supply == ledger[token].total_supply + amount
            &&& t2.balance(r.address) == ledger[token].balance(r.address) + amount
            &&& r2.mint_vintage(project_id, year, amount2, proof_data2, public_inputs2) is Ok
                ==> r2.mint_vintage(project_id, year, amount2, proof_data2, public_inputs2)->Ok_0.total_issued
                == r.vintage_or_new(project_id, year).total_issued + amount + amount2
        }),
{
    let v = r.mint_vintage(project_id, year, amount, proof_data, public_inputs)->Ok_0;
    let r2 = RegistryState { vintages: r.vintages.insert((project_id, year), v), ..r };
    assert(r2.vintage_or_new(project_id, year) == v);
    assert forall|k: (Bytes32, u32)| k != (project_id, year) implies #[trigger] r2.vintages.get(k)
        == r.vintages.get(k) by {
    }
}

} // verus!
