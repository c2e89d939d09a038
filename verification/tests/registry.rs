use cambium::{
    Address, Auth, CreditTokenContract, Error, GovernanceConfig, LedgerInfo, Project, Proof,
    ProposalTarget, RegistryContract, Symbol, TokenLedger, Vintage, ZkVerifierContract,
};

const TOKEN: Address = 200;
const REGISTRY: Address = 300;
const ZK: Address = 400;

struct Stack {
    reg: RegistryContract,
    tokens: TokenLedger,
    zk: ZkVerifierContract,
    now: u64,
    auth: Auth,
}

fn at(now: u64) -> LedgerInfo {
    LedgerInfo { timestamp: now, sequence: 0 }
}

/// A registry wired to a credit token (whose admin it is) and a verifier.
fn setup() -> Stack {
    let mut tokens = TokenLedger::new();
    let mut token = CreditTokenContract::new();
    token.initialize(REGISTRY);
    tokens.deploy(TOKEN, token);
    let mut zk = ZkVerifierContract::new(ZK);
    zk.initialize();
    let mut reg = RegistryContract::new(REGISTRY);
    reg.initialize(TOKEN, ZK);
    Stack { reg, tokens, zk, now: 0, auth: Auth::everyone() }
}

fn sample_proof(project_id: [u8; 32]) -> Proof {
    Proof { proof_data: vec![1u8, 2, 3, 4], public_inputs: vec![project_id] }
}

fn empty_proof() -> Proof {
    Proof { proof_data: vec![], public_inputs: vec![] }
}

fn make_project(id_byte: u8) -> Project {
    Project {
        id: [id_byte; 32],
        methodology: Symbol::new("VM0007"),
        geography: Symbol::new("BRA"),
        external_registry_ref: None,
        verifying_key_version: 1,
    }
}

/// Bootstrap a canonical verifying key (version 1) for "VM0007"; returns the
/// governance signer.
fn bootstrap_vkey(s: &mut Stack) -> Address {
    let signer = 50;
    s.reg.init_governance(1, vec![signer], 3600).unwrap();
    let proposal_id = s
        .reg
        .propose_vkey_update(&s.auth, at(s.now), signer, Symbol::new("VM0007"), [5u8; 32])
        .unwrap();
    s.now += 4000;
    let vkey = s.reg.execute_vkey_update(s.now, proposal_id).unwrap();
    assert_eq!(vkey.version, 1);
    signer
}

fn mint(s: &mut Stack, project_id: [u8; 32], year: u32, amount: i128) -> Result<(), Error> {
    let proof = sample_proof(project_id);
    s.reg.request_mint(&s.auth, &s.zk, &mut s.tokens, project_id, year, amount, &proof)
}

// ---- register_project tests ----

#[test]
fn register_project_succeeds() {
    let mut s = setup();
    let project = make_project(1);
    s.reg.register_project(project.clone()).unwrap();
    assert_eq!(s.reg.get_project(project.id), Ok(project));
}

#[test]
fn register_project_duplicate_fails() {
    let mut s = setup();
    let project = make_project(1);
    s.reg.register_project(project.clone()).unwrap();
    assert_eq!(s.reg.register_project(project), Err(Error::AlreadyRegistered));
}

#[test]
fn register_project_with_external_registry_ref() {
    let mut s = setup();
    let project = Project {
        id: [2u8; 32],
        methodology: Symbol::new("ARR"),
        geography: Symbol::new("KEN"),
        external_registry_ref: Some(b"VCS-1234".to_vec()),
        verifying_key_version: 1,
    };
    s.reg.register_project(project.clone()).unwrap();
    assert_eq!(s.reg.get_project([2u8; 32]), Ok(project));
}

#[test]
fn get_project_not_found() {
    let s = setup();
    assert_eq!(s.reg.get_project([99u8; 32]), Err(Error::NotFound));
}

#[test]
fn get_vintage_not_found() {
    let s = setup();
    assert_eq!(s.reg.get_vintage([1u8; 32], 2025), Err(Error::NotFound));
}

// ---- request_mint tests ----

#[test]
fn request_mint_creates_vintage_and_updates_issued() {
    let mut s = setup();
    let project = make_project(1);
    let project_id = project.id;
    s.reg.register_project(project).unwrap();
    bootstrap_vkey(&mut s);

    mint(&mut s, project_id, 2025, 1000).unwrap();
    assert_eq!(
        s.reg.get_vintage(project_id, 2025),
        Ok(Vintage { project_id, year: 2025, total_issued: 1000, total_retired: 0 })
    );
}

#[test]
fn request_mint_accumulates_issuance() {
    let mut s = setup();
    let project = make_project(1);
    let project_id = project.id;
    s.reg.register_project(project).unwrap();
    bootstrap_vkey(&mut s);

    mint(&mut s, project_id, 2025, 500).unwrap();
    mint(&mut s, project_id, 2025, 300).unwrap();
    assert_eq!(
        s.reg.get_vintage(project_id, 2025),
        Ok(Vintage { project_id, year: 2025, total_issued: 800, total_retired: 0 })
    );
}

#[test]
fn request_mint_fails_on_missing_project() {
    let mut s = setup();
    assert_eq!(mint(&mut s, [99u8; 32], 2025, 1000), Err(Error::NotFound));
}

#[test]
fn request_mint_fails_on_zero_amount() {
    let mut s = setup();
    let project = make_project(1);
    let project_id = project.id;
    s.reg.register_project(project).unwrap();
    assert_eq!(mint(&mut s, project_id, 2025, 0), Err(Error::NonPositiveAmount));
}

#[test]
fn request_mint_fails_on_negative_amount() {
    let mut s = setup();
    let project = make_project(1);
    let project_id = project.id;
    s.reg.register_project(project).unwrap();
    assert_eq!(mint(&mut s, project_id, 2025, -100), Err(Error::NonPositiveAmount));
}

#[test]
fn request_mint_fails_on_empty_proof() {
    let mut s = setup();
    let project = make_project(1);
    let project_id = project.id;
    s.reg.register_project(project).unwrap();
    bootstrap_vkey(&mut s);
    let proof = empty_proof();
    let result =
        s.reg.request_mint(&s.auth, &s.zk, &mut s.tokens, project_id, 2025, 1000, &proof);
    assert_eq!(result, Err(Error::InvalidProof));
}

#[test]
fn request_mint_fails_without_canonical_vkey() {
    let mut s = setup();
    let project = make_project(1);
    let project_id = project.id;
    s.reg.register_project(project).unwrap();
    assert_eq!(mint(&mut s, project_id, 2025, 1000), Err(Error::VkeyNotFound));
}

#[test]
fn request_mint_fails_on_stale_project_key_version() {
    let mut s = setup();
    let project = make_project(1);
    let project_id = project.id;
    s.reg.register_project(project).unwrap();

    let signer = bootstrap_vkey(&mut s);
    let proposal_id = s
        .reg
        .propose_vkey_update(&s.auth, at(s.now), signer, Symbol::new("VM0007"), [6u8; 32])
        .unwrap();
    s.now += 4000;
    let vkey = s.reg.execute_vkey_update(s.now, proposal_id).unwrap();
    assert_eq!(vkey.version, 2);

    assert_eq!(mint(&mut s, project_id, 2025, 1000), Err(Error::VkeyMismatch));
}

#[test]
fn request_mint_separate_vintages() {
    let mut s = setup();
    let project = make_project(1);
    let project_id = project.id;
    s.reg.register_project(project).unwrap();
    bootstrap_vkey(&mut s);

    mint(&mut s, project_id, 2024, 500).unwrap();
    mint(&mut s, project_id, 2025, 700).unwrap();
    assert_eq!(
        s.reg.get_vintage(project_id, 2024),
        Ok(Vintage { project_id, year: 2024, total_issued: 500, total_retired: 0 })
    );
    assert_eq!(
        s.reg.get_vintage(project_id, 2025),
        Ok(Vintage { project_id, year: 2025, total_issued: 700, total_retired: 0 })
    );
}

#[test]
fn request_mint_issues_tokens_to_registry() {
    let mut s = setup();
    let project = make_project(1);
    let project_id = project.id;
    s.reg.register_project(project).unwrap();
    bootstrap_vkey(&mut s);
    mint(&mut s, project_id, 2025, 1000).unwrap();
    assert_eq!(s.tokens.balance_of(TOKEN, REGISTRY), 1000);
}

#[test]
fn request_mint_fails_when_proof_names_another_project() {
    let mut s = setup();
    let project = make_project(1);
    let project_id = project.id;
    s.reg.register_project(project).unwrap();
    bootstrap_vkey(&mut s);
    let proof = sample_proof([2u8; 32]);
    let result =
        s.reg.request_mint(&s.auth, &s.zk, &mut s.tokens, project_id, 2025, 1000, &proof);
    assert_eq!(result, Err(Error::InvalidProof));
    assert_eq!(s.reg.get_vintage(project_id, 2025), Err(Error::NotFound));
    assert_eq!(s.tokens.balance_of(TOKEN, REGISTRY), 0);
}

// ---- governance tests ----

fn governance_setup() -> (Stack, Vec<Address>) {
    let mut s = setup();
    let signers = vec![51, 52, 53];
    s.reg.init_governance(2, signers.clone(), 3600).unwrap();
    (s, signers)
}

#[test]
fn init_governance_succeeds() {
    let mut reg = RegistryContract::new(REGISTRY);
    reg.init_governance(2, vec![61, 62, 63], 3600).unwrap();
    let config = reg.get_governance().unwrap();
    assert_eq!(config.threshold, 2);
    assert_eq!(config.signers.len(), 3);
    assert_eq!(config.timelock_secs, 3600);
}

#[test]
fn init_governance_validates_config() {
    let mut s = setup();
    assert_eq!(s.reg.init_governance(0, vec![61], 3600), Err(Error::InvalidConfig));
    assert_eq!(s.reg.init_governance(2, vec![62], 3600), Err(Error::InvalidConfig));
    assert_eq!(s.reg.init_governance(1, vec![], 3600), Err(Error::InvalidConfig));
    assert_eq!(s.reg.init_governance(1, vec![63], 0), Err(Error::InvalidConfig));
}

#[test]
fn get_vkey_returns_zero_default() {
    let (s, _signers) = governance_setup();
    assert_eq!(s.reg.get_vkey(Symbol::new("VM0007")).version, 0);
}

#[test]
fn propose_requires_signer() {
    let (mut s, _signers) = governance_setup();
    let outsider = 70;
    let result =
        s.reg.propose_vkey_update(&s.auth, at(s.now), outsider, Symbol::new("VM0007"), [7u8; 32]);
    assert_eq!(result, Err(Error::Unauthorized));
}

#[test]
fn full_governance_flow_updates_vkey() {
    let (mut s, signers) = governance_setup();
    let s1 = signers[0];
    let s2 = signers[1];
    let methodology = Symbol::new("VM0007");
    let new_key = [7u8; 32];

    let proposal_id =
        s.reg.propose_vkey_update(&s.auth, at(s.now), s1, methodology, new_key).unwrap();
    assert_ne!(proposal_id, [0u8; 32]);

    assert_eq!(s.reg.execute_vkey_update(s.now, proposal_id), Err(Error::ThresholdNotMet));

    assert_eq!(s.reg.approve_update(&s.auth, s2, proposal_id), Ok(2));

    assert_eq!(s.reg.execute_vkey_update(s.now, proposal_id), Err(Error::TimelockPending));

    s.now += 4000;
    let vkey = s.reg.execute_vkey_update(s.now, proposal_id).unwrap();
    assert_eq!(vkey.version, 1);
    assert_eq!(vkey.key, new_key);

    let canonical = s.reg.get_vkey(methodology);
    assert_eq!(canonical.version, 1);
    assert_eq!(canonical.key, new_key);

    assert_eq!(s.reg.execute_vkey_update(s.now, proposal_id), Err(Error::OrderClosed));
}

#[test]
fn governance_requires_threshold_not_all_signers() {
    let (mut s, signers) = governance_setup();
    let s1 = signers[0];
    let proposal_id = s
        .reg
        .propose_vkey_update(&s.auth, at(s.now), s1, Symbol::new("ARR"), [9u8; 32])
        .unwrap();

    assert_eq!(s.reg.approve_update(&s.auth, s1, proposal_id), Err(Error::AlreadyRegistered));

    s.now += 4000;
    assert_eq!(s.reg.execute_vkey_update(s.now, proposal_id), Err(Error::ThresholdNotMet));
}

#[test]
fn approve_requires_signer() {
    let (mut s, signers) = governance_setup();
    let proposal_id = s
        .reg
        .propose_vkey_update(&s.auth, at(s.now), signers[0], Symbol::new("VM0007"), [7u8; 32])
        .unwrap();
    let outsider = 70;
    assert_eq!(s.reg.approve_update(&s.auth, outsider, proposal_id), Err(Error::Unauthorized));
}

#[test]
fn approve_missing_proposal_fails() {
    let (mut s, signers) = governance_setup();
    assert_eq!(s.reg.approve_update(&s.auth, signers[0], [99u8; 32]), Err(Error::NotFound));
}

#[test]
fn governance_update_rotates_signer_set() {
    let (mut s, signers) = governance_setup();
    let s1 = signers[0];
    let s2 = signers[1];
    let new_signer1 = 81;
    let new_signer2 = 82;
    let new_config =
        GovernanceConfig { threshold: 2, signers: vec![new_signer1, new_signer2], timelock_secs: 7200 };

    let proposal_id =
        s.reg.propose_governance_update(&s.auth, at(s.now), s1, new_config.clone()).unwrap();
    assert_ne!(proposal_id, [0u8; 32]);

    assert_eq!(s.reg.approve_update(&s.auth, s2, proposal_id), Ok(2));

    s.now += 4000;
    s.reg.execute_governance_update(s.now, proposal_id).unwrap();

    let config = s.reg.get_governance().unwrap();
    assert_eq!(config.threshold, 2);
    assert_eq!(config.signers.len(), 2);
    assert_eq!(config.signers[0], new_signer1);
    assert_eq!(config.signers[1], new_signer2);
    assert_eq!(config.timelock_secs, 7200);

    let result = s.reg.propose_governance_update(&s.auth, at(s.now), s1, new_config);
    assert_eq!(result, Err(Error::Unauthorized));
}

#[test]
fn execute_governance_update_rejects_vkey_proposal() {
    let (mut s, signers) = governance_setup();
    let s1 = signers[0];
    let s2 = signers[1];

    let proposal_id = s
        .reg
        .propose_vkey_update(&s.auth, at(s.now), s1, Symbol::new("VM0007"), [7u8; 32])
        .unwrap();
    s.reg.approve_update(&s.auth, s2, proposal_id).unwrap();
    s.now += 4000;
    assert_eq!(
        s.reg.execute_governance_update(s.now, proposal_id),
        Err(Error::InvalidProposalTarget)
    );

    let new_config = GovernanceConfig { threshold: 2, signers: vec![s1, s2], timelock_secs: 7200 };
    let gov_proposal =
        s.reg.propose_governance_update(&s.auth, at(s.now), s1, new_config).unwrap();
    s.reg.approve_update(&s.auth, s2, gov_proposal).unwrap();
    s.now += 4000;
    assert_eq!(s.reg.execute_vkey_update(s.now, gov_proposal), Err(Error::InvalidProposalTarget));
}

#[test]
fn execute_governance_update_rejects_invalid_config() {
    let (mut s, signers) = governance_setup();
    let s1 = signers[0];
    let s2 = signers[1];
    let bad_config = GovernanceConfig { threshold: 0, signers: vec![s1], timelock_secs: 3600 };
    let proposal_id =
        s.reg.propose_governance_update(&s.auth, at(s.now), s1, bad_config).unwrap();
    s.reg.approve_update(&s.auth, s2, proposal_id).unwrap();
    s.now += 4000;
    assert_eq!(s.reg.execute_governance_update(s.now, proposal_id), Err(Error::InvalidConfig));

    let config = s.reg.get_governance().unwrap();
    assert_eq!(config.signers.len(), 3);
    assert_eq!(config.threshold, 2);
}

// ---- proposal cancellation ----

#[test]
fn cancel_update_prevents_execution() {
    let (mut s, signers) = governance_setup();
    let s1 = signers[0];
    let s2 = signers[1];
    let proposal_id = s
        .reg
        .propose_vkey_update(&s.auth, at(s.now), s1, Symbol::new("VM0007"), [7u8; 32])
        .unwrap();
    s.reg.approve_update(&s.auth, s2, proposal_id).unwrap();

    s.reg.cancel_update(&s.auth, s2, proposal_id).unwrap();

    s.now += 4000;
    assert_eq!(s.reg.execute_vkey_update(s.now, proposal_id), Err(Error::OrderClosed));
    assert_eq!(s.reg.get_vkey(Symbol::new("VM0007")).version, 0);

    assert_eq!(s.reg.cancel_update(&s.auth, s1, proposal_id), Err(Error::OrderClosed));
}

#[test]
fn cancel_update_requires_signer() {
    let (mut s, signers) = governance_setup();
    let proposal_id = s
        .reg
        .propose_vkey_update(&s.auth, at(s.now), signers[0], Symbol::new("VM0007"), [7u8; 32])
        .unwrap();
    let outsider = 70;
    assert_eq!(s.reg.cancel_update(&s.auth, outsider, proposal_id), Err(Error::Unauthorized));
}

#[test]
fn cancel_missing_proposal_fails() {
    let (mut s, signers) = governance_setup();
    assert_eq!(s.reg.cancel_update(&s.auth, signers[0], [99u8; 32]), Err(Error::NotFound));
}

#[test]
fn get_proposal_returns_stored_proposal() {
    let (mut s, signers) = governance_setup();
    let s1 = signers[0];
    let new_key = [7u8; 32];
    let methodology = Symbol::new("VM0007");

    let proposal_id =
        s.reg.propose_vkey_update(&s.auth, at(s.now), s1, methodology, new_key).unwrap();
    let proposal = s.reg.get_proposal(proposal_id).unwrap();
    assert_eq!(proposal.id, proposal_id);
    assert_eq!(proposal.approvals.len(), 1);
    assert!(!proposal.executed);
    assert!(!proposal.cancelled);
    assert_eq!(proposal.target, ProposalTarget::Vkey(methodology, new_key));

    assert_eq!(s.reg.get_proposal([99u8; 32]), Err(Error::NotFound));
}

// ---- retirement recording tests ----

#[test]
fn set_retirement_contract_requires_signer() {
    let mut s = setup();
    let signer = 50;
    s.reg.init_governance(1, vec![signer], 3600).unwrap();
    let outsider = 70;
    let retirement = 71;
    assert_eq!(s.reg.set_retirement_contract(&s.auth, outsider, retirement), Err(Error::Unauthorized));
}

#[test]
fn record_retirement_updates_vintage() {
    let mut s = setup();
    let retirement = 71;
    let signer = bootstrap_vkey(&mut s);
    s.reg.set_retirement_contract(&s.auth, signer, retirement).unwrap();

    let project = make_project(1);
    let project_id = project.id;
    s.reg.register_project(project).unwrap();
    mint(&mut s, project_id, 2025, 1000).unwrap();

    s.reg.record_retirement(&s.auth, project_id, 2025, 400).unwrap();
    let vintage = s.reg.get_vintage(project_id, 2025).unwrap();
    assert_eq!(vintage.total_issued, 1000);
    assert_eq!(vintage.total_retired, 400);

    assert_eq!(s.reg.record_retirement(&s.auth, project_id, 2025, 700), Err(Error::ExceedsIssued));
    assert_eq!(s.reg.get_vintage(project_id, 2025).unwrap().total_retired, 400);
}

#[test]
fn record_retirement_unknown_vintage_fails() {
    let mut s = setup();
    let signer = 50;
    let retirement = 71;
    s.reg.init_governance(1, vec![signer], 3600).unwrap();
    s.reg.set_retirement_contract(&s.auth, signer, retirement).unwrap();
    assert_eq!(s.reg.record_retirement(&s.auth, [99u8; 32], 2025, 100), Err(Error::NotFound));
}

#[test]
fn record_retirement_without_retirement_contract_fails() {
    let mut s = setup();
    assert_eq!(s.reg.record_retirement(&s.auth, [1u8; 32], 2025, 100), Err(Error::NotFound));
}

#[test]
fn proposal_ids_depend_on_content() {
    let (mut s, signers) = governance_setup();
    let a = s
        .reg
        .propose_vkey_update(&s.auth, at(s.now), signers[0], Symbol::new("VM0007"), [7u8; 32])
        .unwrap();
    let b = s
        .reg
        .propose_vkey_update(&s.auth, at(s.now), signers[0], Symbol::new("VM0007"), [8u8; 32])
        .unwrap();
    let c = s
        .reg
        .propose_vkey_update(&s.auth, at(s.now + 1), signers[0], Symbol::new("VM0007"), [7u8; 32])
        .unwrap();
    assert_ne!(a, b);
    assert_ne!(a, c);
    assert_ne!(b, c);
}

#[test]
fn each_key_rotation_bumps_the_version() {
    let mut s = setup();
    let signer = bootstrap_vkey(&mut s);
    let methodology = Symbol::new("VM0007");
    let proposal_id = s
        .reg
        .propose_vkey_update(&s.auth, at(s.now), signer, methodology, [8u8; 32])
        .unwrap();
    s.now += 4000;
    let vkey = s.reg.execute_vkey_update(s.now, proposal_id).unwrap();
    assert_eq!(vkey.version, 2);
    assert_eq!(vkey.key, [8u8; 32]);
    assert_eq!(s.reg.get_vkey(methodology), vkey);
    // Another methodology keeps its (absent) key.
    assert_eq!(s.reg.get_vkey(Symbol::new("ARR")).version, 0);
}

#[test]
fn approve_vkey_update_counts_key_rotation_approvals_only() {
    let (mut s, signers) = governance_setup();
    let s1 = signers[0];
    let s2 = signers[1];
    let rotation = s
        .reg
        .propose_vkey_update(&s.auth, at(s.now), s1, Symbol::new("VM0007"), [7u8; 32])
        .unwrap();
    assert_eq!(s.reg.approve_vkey_update(&s.auth, s2, rotation), Ok(2));
    assert_eq!(s.reg.approve_vkey_update(&s.auth, s2, rotation), Err(Error::AlreadyRegistered));

    let config = GovernanceConfig { threshold: 1, signers: vec![s1], timelock_secs: 60 };
    let change = s.reg.propose_governance_update(&s.auth, at(s.now), s1, config).unwrap();
    assert_eq!(s.reg.approve_vkey_update(&s.auth, s2, change), Err(Error::NotFound));
    assert_eq!(s.reg.get_proposal(change).unwrap().approvals, vec![s1]);
    assert_eq!(s.reg.approve_vkey_update(&s.auth, 99, rotation), Err(Error::Unauthorized));
}
