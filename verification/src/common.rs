//! Values shared by every contract of the protocol: account addresses,
//! 32-byte identifiers, the protocol-wide error type, authorization of an
//! invocation, ledger information, and the byte framing used to derive ids.

use vstd::prelude::*;
use vstd::string::StringSliceAdditionalSpecFns;

verus! {

/// An account or contract address, identified by a number.
pub type Address = u64;

/// A fixed 32-byte value (identifiers, verifying keys, nullifiers).
pub type Bytes32 = [u8; 32];

/// Errors shared across the protocol's contracts.
#[derive(PartialEq, Eq, Structural, Clone, Copy, Debug)]
pub enum Error {
    /// The caller is not authorized for this operation.
    Unauthorized,
    /// The requested entity was not found.
    NotFound,
    /// An arithmetic overflow occurred.
    Overflow,
    /// The proof provided is invalid or malformed.
    InvalidProof,
    /// The entity has already been registered (or the vote already cast).
    AlreadyRegistered,
    /// The amount specified is non-positive.
    NonPositiveAmount,
    /// This feature is not yet implemented.
    NotYetImplemented,
    /// Insufficient token balance for the requested operation.
    InsufficientBalance,
    /// The pool does not exist.
    PoolNotFound,
    /// The retirement record was not found.
    RetirementNotFound,
    /// The order or proposal is closed (executed or cancelled).
    OrderClosed,
    /// A governance configuration is invalid.
    InvalidConfig,
    /// A retirement would exceed the issued amount of its vintage.
    ExceedsIssued,
    /// A shielded retirement was given the all-zero nullifier.
    InvalidNullifier,
    /// The contract has already been initialized.
    AlreadyInitialized,
    /// A proposal does not have enough approvals.
    ThresholdNotMet,
    /// A proposal's timelock has not elapsed yet.
    TimelockPending,
    /// No canonical verifying key exists for the methodology.
    VkeyNotFound,
    /// The project's verifying key version is not the canonical one.
    VkeyMismatch,
    /// A proposal was executed through the wrong path.
    InvalidProposalTarget,
}

impl Error {
    /// The numeric contract error code of the variant, as the contracts
    /// report it.
    pub open spec fn spec_code(self) -> u32 {
        match self {
            Error::Unauthorized => 1,
            Error::NotFound => 2,
            Error::Overflow => 3,
            Error::InvalidProof => 4,
            Error::AlreadyRegistered => 5,
            Error::NonPositiveAmount => 6,
            Error::NotYetImplemented => 7,
            Error::InsufficientBalance => 8,
            Error::PoolNotFound => 9,
            Error::RetirementNotFound => 10,
            Error::OrderClosed => 11,
            Error::InvalidConfig => 12,
            Error::ExceedsIssued => 13,
            Error::InvalidNullifier => 14,
            Error::AlreadyInitialized => 15,
            Error::ThresholdNotMet => 16,
            Error::TimelockPending => 17,
            Error::VkeyNotFound => 18,
            Error::VkeyMismatch => 19,
            Error::InvalidProposalTarget => 20,
        }
    }

    /// The numeric contract error code of the variant.
    pub fn code(&self) -> (c: u32)
        ensures
            c == self.spec_code(),
    {
        match self {
            Error::Unauthorized => 1,
            Error::NotFound => 2,
            Error::Overflow => 3,
            Error::InvalidProof => 4,
            Error::AlreadyRegistered => 5,
            Error::NonPositiveAmount => 6,
            Error::NotYetImplemented => 7,
            Error::InsufficientBalance => 8,
            Error::PoolNotFound => 9,
            Error::RetirementNotFound => 10,
            Error::OrderClosed => 11,
            Error::InvalidConfig => 12,
            Error::ExceedsIssued => 13,
            Error::InvalidNullifier => 14,
            Error::AlreadyInitialized => 15,
            Error::ThresholdNotMet => 16,
            Error::TimelockPending => 17,
            Error::VkeyNotFound => 18,
            Error::VkeyMismatch => 19,
            Error::InvalidProposalTarget => 20,
        }
    }
}

/// Side of a limit order.
#[derive(PartialEq, Eq, Structural, Clone, Copy, Debug)]
pub enum OrderSide {
    /// Buy credit tokens with the paired asset.
    Buy,
    /// Sell credit tokens for the paired asset.
    Sell,
}

/// Reference to who performed a retirement.
#[derive(PartialEq, Eq, Clone, Copy, Debug)]
pub enum RetireeRef {
    /// Public retirement: the retiring address is recorded.
    Public(Address),
    /// Shielded retirement: only a nullifier is recorded.
    Shielded(Bytes32),
}

/// A zero-knowledge proof submitted with a mint request.
#[derive(Clone, Debug, PartialEq, Eq)]
pub struct Proof {
    /// Opaque proof bytes.
    pub proof_data: Vec<u8>,
    /// Public inputs to the proof circuit.
    pub public_inputs: Vec<Bytes32>,
}

/// Ledger information visible to a contract invocation.
#[derive(PartialEq, Eq, Structural, Clone, Copy, Debug)]
pub struct LedgerInfo {
    /// Ledger close time, in seconds.
    pub timestamp: u64,
    /// Ledger sequence number.
    pub sequence: u32,
}

/// The addresses whose authorization accompanies an invocation.
///
/// `all` stands for an invocation in which every authorization requirement
/// is satisfied.
#[derive(Clone, Debug)]
pub struct Auth {
    pub all: bool,
    pub signers: Vec<Address>,
}

impl Auth {
    /// Whether `a` has authorized the invocation.
    pub open spec fn allows(&self, a: Address) -> bool {
        self.all || self.signers@.contains(a)
    }

    /// An authorization that satisfies every requirement.
    pub fn everyone() -> (r: Auth)
        ensures
            forall|a: Address| r.allows(a),
    {
        Auth { all: true, signers: Vec::new() }
    }

    /// An authorization given exactly by `signers`.
    pub fn signed_by(signers: Vec<Address>) -> (r: Auth)
        ensures
            forall|a: Address| r.allows(a) <==> signers@.contains(a),
    {
        Auth { all: false, signers }
    }

    /// Tests whether `a` has authorized the invocation.
    pub fn authorizes(&self, a: Address) -> (r: bool)
        ensures
            r == self.allows(a),
    {
        if self.all {
            return true;
        }
        let n = self.signers.len();
        for i in 0..n
            invariant
                n == self.signers@.len(),
                forall|j: int| 0 <= j < i ==> self.signers@[j] != a,
        {
            if self.signers[i] == a {
                return true;
            }
        }
        false
    }

    /// The authorization seen by a contract invoked by the contract at
    /// `invoker`: the invoker authorizes its own address.
    pub fn invoked_by(&self, invoker: Address) -> (r: Auth)
        ensures
            forall|a: Address| #[trigger] r.allows(a) <==> (self.allows(a) || a == invoker),
    {
        let mut signers = self.signers.clone();
        proof {
            assert forall|k: int| 0 <= k < signers@.len() implies signers@[k] == self.signers@[k] by {
            }
            assert(signers@ =~= self.signers@);
        }
        signers.push(invoker);
        let r = Auth { all: self.all, signers };
        proof {
            assert forall|a: Address| #[trigger] r.allows(a) <==> (self.allows(a) || a == invoker) by {
                if a == invoker {
                    assert(r.signers@[r.signers@.len() - 1] == a);
                }
                if self.signers@.contains(a) {
                    let k = choose|k: int| 0 <= k < self.signers@.len() && self.signers@[k] == a;
                    assert(r.signers@[k] == a);
                }
                if r.signers@.contains(a) && a != invoker {
                    let k = choose|k: int| 0 <= k < r.signers@.len() && r.signers@[k] == a;
                    assert(self.signers@[k] == a);
                }
            }
        }
        r
    }
}

/// Whether two 32-byte values are equal.
pub fn bytes32_eq(a: &Bytes32, b: &Bytes32) -> (r: bool)
    ensures
        r == (*a == *b),
{
    broadcast use vstd::array::group_array_axioms;
    let mut i: usize = 0;
    while i < 32
        invariant
            i <= 32,
            forall|j: int| 0 <= j < i ==> a@[j] == b@[j],
        decreases 32 - i,
    {
        if a[i] != b[i] {
            assert(a@[i as int] != b@[i as int]);
            return false;
        }
        i = i + 1;
    }
    assert(*a =~= *b);
    true
}

/// Whether every byte of a 32-byte value is zero.
pub open spec fn is_zero32(a: Bytes32) -> bool {
    forall|j: int| 0 <= j < 32 ==> #[trigger] a@[j] == 0
}

/// The all-zero 32-byte value.
pub open spec fn zero_bytes32() -> Bytes32 {
    choose|b: Bytes32| is_zero32(b)
}

/// The all-zero 32-byte value.
pub fn zero32() -> (r: Bytes32)
    ensures
        is_zero32(r),
        r == zero_bytes32(),
{
    broadcast use vstd::array::group_array_axioms;
    let r = [0u8; 32];
    proof {
        assert(is_zero32(r));
        let z = zero_bytes32();
        assert(is_zero32(z));
        assert(z =~= r);
    }
    r
}

/// Tests whether every byte of a 32-byte value is zero.
pub fn bytes32_is_zero(a: &Bytes32) -> (r: bool)
    ensures
        r == is_zero32(*a),
{
    broadcast use vstd::array::group_array_axioms;
    let mut i: usize = 0;
    while i < 32
        invariant
            i <= 32,
            forall|j: int| 0 <= j < i ==> a@[j] == 0,
        decreases 32 - i,
    {
        if a[i] != 0 {
            return false;
        }
        i = i + 1;
    }
    true
}

/// The `n` low-order bytes of `v`, most significant first.
pub open spec fn be_bytes(v: nat, n: nat) -> Seq<u8>
    decreases n,
{
    if n == 0 {
        Seq::empty()
    } else {
        be_bytes(v / 256, (n - 1) as nat).push((v % 256) as u8)
    }
}

/// `be_bytes(v, n)` has `n` bytes.
pub proof fn lemma_be_bytes_len(v: nat, n: nat)
    ensures
        be_bytes(v, n).len() == n,
    decreases n,
{
    if n > 0 {
        lemma_be_bytes_len(v / 256, (n - 1) as nat);
    }
}

/// `256` to the power `n`.
pub open spec fn pow256(n: nat) -> nat
    decreases n,
{
    if n == 0 {
        1
    } else {
        256 * pow256((n - 1) as nat)
    }
}

/// Two values below `256^n` with the same `n` big-endian bytes are equal.
pub proof fn lemma_be_bytes_injective(v1: nat, v2: nat, n: nat)
    requires
        v1 < pow256(n),
        v2 < pow256(n),
        be_bytes(v1, n) == be_bytes(v2, n),
    ensures
        v1 == v2,
    decreases n,
{
    if n > 0 {
        let p = pow256((n - 1) as nat);
        assert(v1 / 256 < p);
        assert(v2 / 256 < p);
        assert(be_bytes(v1, n).last() == (v1 % 256) as u8);
        assert(be_bytes(v2, n).last() == (v2 % 256) as u8);
        assert(be_bytes(v1 / 256, (n - 1) as nat) == be_bytes(v1, n).drop_last());
        assert(be_bytes(v2 / 256, (n - 1) as nat) == be_bytes(v2, n).drop_last());
        lemma_be_bytes_injective(v1 / 256, v2 / 256, (n - 1) as nat);
    }
}

/// Appends the `n` low-order bytes of `v` to `out`, most significant first.
pub fn push_be_bytes(out: &mut Vec<u8>, v: u128, n: usize)
    requires
        n <= 16,
    ensures
        final(out)@ == old(out)@ + be_bytes(v as nat, n as nat),
        final(out)@.len() == old(out)@.len() + n,
    decreases n,
{
    proof {
        lemma_be_bytes_len(v as nat, n as nat);
    }
    if n == 0 {
        assert(old(out)@ + be_bytes(v as nat, 0) =~= old(out)@);
        return;
    }
    push_be_bytes(out, v / 256, n - 1);
    out.push((v % 256) as u8);
    proof {
        assert((v / 256) as nat == (v as nat) / 256);
        let prev = old(out)@ + be_bytes((v as nat) / 256, (n - 1) as nat);
        assert(final(out)@ =~= old(out)@ + be_bytes(v as nat, n as nat)) by {
            assert(be_bytes(v as nat, n as nat) == be_bytes((v as nat) / 256, (n - 1) as nat).push(
                ((v as nat) % 256) as u8,
            ));
        }
    }
}

/// Appends the bytes of a 32-byte value to `out`.
pub fn push_bytes32(out: &mut Vec<u8>, a: &Bytes32)
    ensures
        final(out)@ == old(out)@ + a@,
{
    broadcast use vstd::array::group_array_axioms;
    let mut i: usize = 0;
    while i < 32
        invariant
            i <= 32,
            out@ == old(out)@ + a@.subrange(0, i as int),
        decreases 32 - i,
    {
        out.push(a[i]);
        assert(a@.subrange(0, i + 1) =~= a@.subrange(0, i as int).push(a@[i as int]));
        assert(out@ =~= old(out)@ + a@.subrange(0, i + 1));
        i = i + 1;
    }
    assert(a@.subrange(0, 32) =~= a@);
}

/// The Keccak-256 digest of a byte string.
pub uninterp spec fn keccak256_digest(data: Seq<u8>) -> Seq<u8>;

/// Keccak-256 of `data`, computed by `soroban_sdk::crypto::Crypto::keccak256`
/// in a fresh host environment.
///
/// Trusted: the result is the digest named `keccak256_digest` of the bytes,
/// a function of the bytes alone. The input is kept to 64 KiB, well inside
/// the host's default CPU budget for hashing; nothing is said of the
/// digest's value.
#[verifier::external_body]
pub(crate) fn keccak256(data: &Vec<u8>) -> (r: Bytes32)
    requires
        data@.len() <= 65536,
    ensures
        r@ == keccak256_digest(data@),
{
    let env = soroban_sdk::Env::new_with_config(
        soroban_sdk::testutils::EnvTestConfig { capture_snapshot_at_drop: false },
    );
    let bytes = soroban_sdk::Bytes::from_slice(&env, data.as_slice());
    env.crypto().keccak256(&bytes).to_array()
}


/// Whether `c` may appear in a symbol: `[a-zA-Z0-9_]`.
pub open spec fn is_symbol_char(c: u8) -> bool {
    (0x30 <= c <= 0x39) || (0x41 <= c <= 0x5a) || (0x61 <= c <= 0x7a) || c == 0x5f
}

/// A short identifier of at most 32 characters from `[a-zA-Z0-9_]`
/// (methodologies, geographies, asset tickers).
#[derive(Clone, Copy, PartialEq, Eq, Debug)]
pub struct Symbol {
    chars: Bytes32,
    len: u8,
}

impl Symbol {
    #[verifier::type_invariant]
    spec fn inv(self) -> bool {
        self.len <= 32
    }
}

impl View for Symbol {
    type V = Seq<u8>;

    closed spec fn view(&self) -> Seq<u8> {
        self.chars@.subrange(0, self.len as int)
    }
}

impl Symbol {
    /// The symbol spelled by `s`.
    pub fn new(s: &str) -> (r: Symbol)
        requires
            s.spec_bytes().len() <= 32,
            forall|i: int| 0 <= i < s.spec_bytes().len() ==> is_symbol_char(#[trigger] s.spec_bytes()[i]),
        ensures
            r@ == s.spec_bytes(),
    {
        broadcast use vstd::array::group_array_axioms;
        let b = s.as_bytes();
        let n = b.len();
        let mut chars = [0u8; 32];
        let mut i: usize = 0;
        while i < n
            invariant
                n == b@.len(),
                n <= 32,
                i <= n,
                forall|j: int| 0 <= j < i ==> chars@[j] == b@[j],
            decreases n - i,
        {
            chars[i] = b[i];
            i = i + 1;
        }
        let r = Symbol { chars, len: n as u8 };
        assert(r@ =~= s.spec_bytes());
        r
    }

    /// The number of characters, at most 32.
    pub fn len(&self) -> (r: usize)
        ensures
            r == self@.len(),
            r <= 32,
    {
        proof {
            use_type_invariant(self);
        }
        self.len as usize
    }

    /// Appends the symbol's length byte and characters to `out`.
    pub fn push_bytes(&self, out: &mut Vec<u8>)
        ensures
            final(out)@ == old(out)@ + be_bytes(self@.len() as nat, 1) + self@,
    {
        broadcast use vstd::array::group_array_axioms;
        proof {
            use_type_invariant(self);
        }
        push_be_bytes(out, self.len as u128, 1);
        let ghost base = out@;
        let n = self.len as usize;
        let mut i: usize = 0;
        while i < n
            invariant
                n == self.len,
                n <= 32,
                i <= n,
                out@ == base + self.chars@.subrange(0, i as int),
            decreases n - i,
        {
            out.push(self.chars[i]);
            assert(self.chars@.subrange(0, i + 1) =~= self.chars@.subrange(0, i as int).push(
                self.chars@[i as int],
            ));
            assert(out@ =~= base + self.chars@.subrange(0, i + 1));
            i = i + 1;
        }
        assert(out@ =~= old(out)@ + be_bytes(self@.len() as nat, 1) + self@);
    }

    /// Whether two symbols are the same.
    pub fn same(&self, other: &Symbol) -> (r: bool)
        ensures
            r == (*self == *other),
    {
        bytes32_eq(&self.chars, &other.chars) && self.len == other.len
    }
}


/// The 32-byte value whose bytes are `d` (meaningful when `d` has 32 bytes).
pub open spec fn bytes32_of(d: Seq<u8>) -> Bytes32 {
    choose|b: Bytes32| b@ == d
}

/// A 32-byte value is the one its bytes name.
pub proof fn lemma_bytes32_of(b: Bytes32)
    ensures
        bytes32_of(b@) == b,
{
    broadcast use vstd::array::group_array_axioms;
    let c = bytes32_of(b@);
    assert(c@ == b@);
    assert(c =~= b);
}


/// A copy of a vector of plain values.
pub fn copy_vec<T: Copy>(v: &Vec<T>) -> (r: Vec<T>)
    ensures
        r@ == v@,
{
    let mut r: Vec<T> = Vec::new();
    let n = v.len();
    for i in 0..n
        invariant
            n == v@.len(),
            r@ == v@.subrange(0, i as int),
    {
        r.push(v[i]);
        assert(r@ =~= v@.subrange(0, i + 1));
    }
    assert(r@ =~= v@);
    r
}

/// Whether `a` occurs in `v`.
pub fn vec_contains(v: &Vec<Address>, a: Address) -> (r: bool)
    ensures
        r == v@.contains(a),
{
    let n = v.len();
    for i in 0..n
        invariant
            n == v@.len(),
            forall|j: int| 0 <= j < i ==> v@[j] != a,
    {
        if v[i] == a {
            return true;
        }
    }
    false
}

} // verus!
