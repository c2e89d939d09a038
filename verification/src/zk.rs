//! The proof verifier that gates minting.
//!
//! The verifier checks the shape of a proof and the bindings every real
//! proof also commits to: a non-empty proof and public inputs, a live
//! canonical verifying key (non-zero version and key), and a first public
//! input equal to the project being minted for, so that a proof cannot be
//! replayed across projects. A call with these bindings is accepted.

use vstd::prelude::*;

use crate::common::{bytes32_eq, bytes32_is_zero, is_zero32, Address, Bytes32, Error, Proof};

verus! {

/// The outcome of verifying a proof for `project_id` under the verifying
/// key `(vkey_version, vkey_key)`.
pub open spec fn verify_spec(
    proof_data: Seq<u8>,
    public_inputs: Seq<Bytes32>,
    project_id: Bytes32,
    vkey_version: u32,
    vkey_key: Bytes32,
) -> Result<bool, Error> {
    if proof_data.len() == 0 {
        Err(Error::InvalidProof)
    } else if public_inputs.len() == 0 {
        Err(Error::InvalidProof)
    } else if vkey_version == 0 || is_zero32(vkey_key) {
        Err(Error::InvalidProof)
    } else if public_inputs[0] != project_id {
        Err(Error::InvalidProof)
    } else {
        Ok(true)
    }
}

/// The abstract state of the verifier contract.
pub struct VerifierState {
    pub address: Address,
    pub initialized: bool,
}

/// The proof verifier contract.
pub struct ZkVerifierContract {
    address: Address,
    initialized: bool,
}

impl View for ZkVerifierContract {
    type V = VerifierState;

    closed spec fn view(&self) -> VerifierState {
        VerifierState { address: self.address, initialized: self.initialized }
    }
}

impl ZkVerifierContract {
    /// A verifier deployed at `address`, not initialized yet.
    pub fn new(address: Address) -> (r: Self)
        ensures
            r@ == (VerifierState { address, initialized: false }),
    {
        ZkVerifierContract { address, initialized: false }
    }

    /// Initialize the verifier. Can only be done once.
    pub fn initialize(&mut self)
        requires
            !old(self)@.initialized,
        ensures
            final(self)@ == (VerifierState { initialized: true, ..old(self)@ }),
    {
        self.initialized = true;
    }

    /// The verifier's own address.
    pub fn address(&self) -> (r: Address)
        ensures
            r == self@.address,
    {
        self.address
    }

    /// Whether the verifier has been initialized.
    pub fn is_initialized(&self) -> (r: bool)
        ensures
            r == self@.initialized,
    {
        self.initialized
    }

    /// Verify `proof` with `public_inputs` for `project_id` under the
    /// verifying key `(vkey_version, vkey_key)`: `InvalidProof` when the
    /// proof data or the inputs are empty, the key is not live, or the first
    /// input is not the project; `true` otherwise.
    pub fn verify(
        &self,
        proof: &Proof,
        public_inputs: &Vec<Bytes32>,
        project_id: Bytes32,
        vkey_version: u32,
        vkey_key: Bytes32,
    ) -> (r: Result<bool, Error>)
        ensures
            r == verify_spec(proof.proof_data@, public_inputs@, project_id, vkey_version, vkey_key),
    {
        if proof.proof_data.len() == 0 {
            return Err(Error::InvalidProof);
        }
        if public_inputs.len() == 0 {
            return Err(Error::InvalidProof);
        }
        if vkey_version == 0 || bytes32_is_zero(&vkey_key) {
            return Err(Error::InvalidProof);
        }
        if !bytes32_eq(&public_inputs[0], &project_id) {
            return Err(Error::InvalidProof);
        }
        Ok(true)
    }
}

/// The verifier never answers `false`: a call is either refused with
/// `InvalidProof` or accepted, and it is accepted only when the proof data
/// and the inputs are non-empty, the verifying key is live, and the first
/// public input is the project's id.
pub proof fn law_verify_binds_project(
    proof_data: Seq<u8>,
    public_inputs: Seq<Bytes32>,
    project_id: Bytes32,
    vkey_version: u32,
    vkey_key: Bytes32,
)
    ensures
        verify_spec(proof_data, public_inputs, project_id, vkey_version, vkey_key) is Err ==> verify_spec(
            proof_data,
            public_inputs,
            project_id,
            vkey_version,
            vkey_key,
        ) == Err::<bool, Error>(Error::InvalidProof),
        verify_spec(proof_data, public_inputs, project_id, vkey_version, vkey_key) is Ok <==> ({
            &&& proof_data.len() > 0
            &&& public_inputs.len() > 0
            &&& public_inputs[0] == project_id
            &&& vkey_version > 0
            &&& !is_zero32(vkey_key)
        }),
        verify_spec(proof_data, public_inputs, project_id, vkey_version, vkey_key) != Ok::<bool, Error>(false),
{
}

} // verus!
