//! Multi-signature, timelocked governance of the registry.
//!
//! Verifying-key updates are the highest-value attack surface: a malicious
//! key could let forged proofs mint uncapped credits. Every change (a key
//! rotation or a replacement of the governance configuration itself) is a
//! proposal that needs `threshold` signer approvals and a timelock before it
//! can execute, and a signer may cancel it before then.

use vstd::prelude::*;

use crate::common::{
    be_bytes, bytes32_of, copy_vec, keccak256, keccak256_digest, lemma_be_bytes_len,
    lemma_bytes32_of, push_be_bytes, push_bytes32, vec_contains, zero32, Address, Bytes32, Symbol,
};

verus! {

/// Multi-signature and timelock governance configuration.
#[derive(Clone, Debug, PartialEq, Eq)]
pub struct GovernanceConfig {
    /// Minimum number of approvals required to execute a proposal.
    pub threshold: u32,
    /// Addresses authorized to propose, approve and cancel.
    pub signers: Vec<Address>,
    /// Delay (ledger seconds) between proposal and execution.
    pub timelock_secs: u64,
}

/// The abstract value of a governance configuration.
pub struct GovernanceView {
    pub threshold: u32,
    pub signers: Seq<Address>,
    pub timelock_secs: u64,
}

impl GovernanceView {
    /// A configuration is valid when it has signers, its threshold is
    /// between one and the number of signers, and its timelock is positive.
    pub open spec fn valid(self) -> bool {
        &&& self.signers.len() > 0
        &&& self.threshold >= 1
        &&& self.threshold <= self.signers.len()
        &&& self.timelock_secs > 0
    }

    pub open spec fn is_signer(self, a: Address) -> bool {
        self.signers.contains(a)
    }
}

impl View for GovernanceConfig {
    type V = GovernanceView;

    open spec fn view(&self) -> GovernanceView {
        GovernanceView {
            threshold: self.threshold,
            signers: self.signers@,
            timelock_secs: self.timelock_secs,
        }
    }
}

impl GovernanceConfig {
    /// A copy of the configuration.
    pub fn dup(&self) -> (r: GovernanceConfig)
        ensures
            r@ == self@,
    {
        GovernanceConfig {
            threshold: self.threshold,
            signers: copy_vec(&self.signers),
            timelock_secs: self.timelock_secs,
        }
    }

    /// Whether the configuration is valid.
    pub fn is_valid(&self) -> (r: bool)
        ensures
            r == self@.valid(),
    {
        !(self.signers.len() == 0 || self.threshold == 0 || self.threshold as usize
            > self.signers.len() || self.timelock_secs == 0)
    }

    /// Whether `addr` is one of the signers.
    pub fn is_signer(&self, addr: Address) -> (r: bool)
        ensures
            r == self@.is_signer(addr),
    {
        vec_contains(&self.signers, addr)
    }
}

/// Current canonical verifying key for a methodology.
#[derive(Clone, Copy, Debug, PartialEq, Eq)]
pub struct VkeyState {
    /// Latest version number (bumped on every executed update).
    pub version: u32,
    /// The verifying key bytes.
    pub key: Bytes32,
}

/// What a proposal changes when executed.
#[derive(Clone, Debug, PartialEq, Eq)]
pub enum ProposalTarget {
    /// Rotate the canonical verifying key of a methodology.
    Vkey(Symbol, Bytes32),
    /// Replace the governance configuration.
    Governance(GovernanceConfig),
}

/// The abstract value of a proposal target.
pub enum TargetView {
    Vkey(Symbol, Bytes32),
    Governance(GovernanceView),
}

impl View for ProposalTarget {
    type V = TargetView;

    open spec fn view(&self) -> TargetView {
        match self {
            ProposalTarget::Vkey(m, k) => TargetView::Vkey(*m, *k),
            ProposalTarget::Governance(c) => TargetView::Governance(c@),
        }
    }
}

impl ProposalTarget {
    /// A copy of the target.
    pub fn dup(&self) -> (r: ProposalTarget)
        ensures
            r@ == self@,
    {
        match self {
            ProposalTarget::Vkey(m, k) => ProposalTarget::Vkey(*m, *k),
            ProposalTarget::Governance(c) => ProposalTarget::Governance(c.dup()),
        }
    }
}

/// A governance proposal, subject to approvals and a timelock.
#[derive(Clone, Debug, PartialEq, Eq)]
pub struct Proposal {
    /// Unique proposal identifier.
    pub id: Bytes32,
    /// The change being proposed.
    pub target: ProposalTarget,
    /// Ledger timestamp when the proposal was created.
    pub proposed_at: u64,
    /// Signers who have approved so far.
    pub approvals: Vec<Address>,
    /// Whether the proposal has been executed.
    pub executed: bool,
    /// Whether a signer cancelled the proposal before execution.
    pub cancelled: bool,
}

/// The abstract value of a proposal.
pub struct ProposalView {
    pub id: Bytes32,
    pub target: TargetView,
    pub proposed_at: u64,
    pub approvals: Seq<Address>,
    pub executed: bool,
    pub cancelled: bool,
}

impl ProposalView {
    /// Executed or cancelled proposals are closed.
    pub open spec fn closed(self) -> bool {
        self.executed || self.cancelled
    }
}

impl View for Proposal {
    type V = ProposalView;

    open spec fn view(&self) -> ProposalView {
        ProposalView {
            id: self.id,
            target: self.target@,
            proposed_at: self.proposed_at,
            approvals: self.approvals@,
            executed: self.executed,
            cancelled: self.cancelled,
        }
    }
}

impl Proposal {
    /// A copy of the proposal.
    pub fn dup(&self) -> (r: Proposal)
        ensures
            r@ == self@,
    {
        Proposal {
            id: self.id,
            target: self.target.dup(),
            proposed_at: self.proposed_at,
            approvals: copy_vec(&self.approvals),
            executed: self.executed,
            cancelled: self.cancelled,
        }
    }
}

/// The bytes of a list of addresses, each big-endian.
pub open spec fn addresses_bytes(s: Seq<Address>) -> Seq<u8>
    decreases s.len(),
{
    if s.len() == 0 {
        Seq::empty()
    } else {
        addresses_bytes(s.drop_last()) + be_bytes(s.last() as nat, 8)
    }
}

proof fn lemma_addresses_bytes_len(s: Seq<Address>)
    ensures
        addresses_bytes(s).len() == 8 * s.len(),
    decreases s.len(),
{
    if s.len() > 0 {
        lemma_addresses_bytes_len(s.drop_last());
        lemma_be_bytes_len(s.last() as nat, 8);
    }
}

/// The bytes of a proposal target: a tag, then the methodology and key of
/// a key rotation, or the threshold, signers and timelock of a
/// configuration.
pub open spec fn target_bytes(t: TargetView) -> Seq<u8> {
    match t {
        TargetView::Vkey(m, k) => seq![0u8] + be_bytes(m@.len() as nat, 1) + m@ + k@,
        TargetView::Governance(c) => seq![1u8] + be_bytes(c.threshold as nat, 4) + be_bytes(
            c.signers.len(),
            4,
        ) + addresses_bytes(c.signers) + be_bytes(c.timelock_secs as nat, 8),
    }
}

/// The bytes from which the id of a fresh proposal is derived: its (still
/// zero) id, target, creation time, its single approval by the proposer,
/// and its two open flags.
pub open spec fn proposal_preimage(target: TargetView, proposed_at: u64, proposer: Address) -> Seq<
    u8,
> {
    Seq::new(32, |i: int| 0u8) + target_bytes(target) + be_bytes(proposed_at as nat, 8) + be_bytes(
        1,
        4,
    ) + be_bytes(proposer as nat, 8) + seq![0u8, 0u8]
}

/// The id given to a fresh proposal: the Keccak-256 digest of its preimage.
pub open spec fn proposal_id_for(target: TargetView, proposed_at: u64, proposer: Address) -> Bytes32 {
    bytes32_of(keccak256_digest(proposal_preimage(target, proposed_at, proposer)))
}

/// The id of a fresh proposal of `target` made by `proposer` at
/// `proposed_at`.
pub(crate) fn proposal_id(target: &ProposalTarget, proposed_at: u64, proposer: Address) -> (r: Bytes32)
    requires
        match target@ {
            TargetView::Governance(c) => c.signers.len() <= 8000,
            TargetView::Vkey(_, _) => true,
        },
    ensures
        r == proposal_id_for(target@, proposed_at, proposer),
{
    broadcast use vstd::array::group_array_axioms;
    let mut pre: Vec<u8> = Vec::new();
    let zero = zero32();
    push_bytes32(&mut pre, &zero);
    assert(zero@ =~= Seq::new(32, |i: int| 0u8));
    let ghost base = pre@;
    match target {
        ProposalTarget::Vkey(m, k) => {
            let _symbol_len = m.len();
            pre.push(0u8);
            m.push_bytes(&mut pre);
            push_bytes32(&mut pre, k);
            assert(pre@ =~= base + target_bytes(target@));
        },
        ProposalTarget::Governance(c) => {
            pre.push(1u8);
            push_be_bytes(&mut pre, c.threshold as u128, 4);
            push_be_bytes(&mut pre, c.signers.len() as u128, 4);
            let ghost mid = pre@;
            let n = c.signers.len();
            for i in 0..n
                invariant
                    n == c.signers@.len(),
                    n <= 8000,
                    pre@ == mid + addresses_bytes(c.signers@.subrange(0, i as int)),
            {
                push_be_bytes(&mut pre, c.signers[i] as u128, 8);
                assert(c.signers@.subrange(0, i + 1).drop_last() =~= c.signers@.subrange(
                    0,
                    i as int,
                ));
                assert(pre@ =~= mid + addresses_bytes(c.signers@.subrange(0, i + 1)));
            }
            assert(c.signers@.subrange(0, n as int) =~= c.signers@);
            push_be_bytes(&mut pre, c.timelock_secs as u128, 8);
            assert(pre@ =~= base + target_bytes(target@));
        },
    }
    let ghost after_target = pre@;
    push_be_bytes(&mut pre, proposed_at as u128, 8);
    push_be_bytes(&mut pre, 1, 4);
    push_be_bytes(&mut pre, proposer as u128, 8);
    pre.push(0u8);
    pre.push(0u8);
    proof {
        assert(pre@ =~= proposal_preimage(target@, proposed_at, proposer));
        lemma_be_bytes_len(proposed_at as nat, 8);
        lemma_be_bytes_len(1, 4);
        lemma_be_bytes_len(proposer as nat, 8);
        match target@ {
            TargetView::Vkey(m, k) => {
                lemma_be_bytes_len(m@.len() as nat, 1);
            },
            TargetView::Governance(c) => {
                lemma_be_bytes_len(c.threshold as nat, 4);
                lemma_be_bytes_len(c.signers.len(), 4);
                lemma_be_bytes_len(c.timelock_secs as nat, 8);
                lemma_addresses_bytes_len(c.signers);
            },
        }
    }
    let id = keccak256(&pre);
    proof {
        lemma_bytes32_of(id);
    }
    id
}

} // verus!
