use cambium::{
    Address, Auth, CreditTokenContract, Error, LedgerInfo, MarketplaceContract, OrderSide, Project,
    Proof, RegistryContract, RetireeRef, RetirementContract, Symbol, TokenLedger,
    ZkVerifierContract,
};

const MARKET: Address = 100;
const CREDIT: Address = 200;
const PAIRED: Address = 201;
const REGISTRY: Address = 300;
const ZK: Address = 400;
const RETIREMENT: Address = 500;
const SIGNER: Address = 50;

struct Deployment {
    tokens: TokenLedger,
    zk: ZkVerifierContract,
    reg: RegistryContract,
    market: MarketplaceContract,
    ret: RetirementContract,
    auth: Auth,
}

/// All contracts deployed and wired: the registry administers the credit
/// token, the retirement contract is its burner and is registered with the
/// registry, and the marketplace is initialized.
fn deploy_all() -> Deployment {
    let auth = Auth::everyone();
    let mut credit = CreditTokenContract::new();
    credit.initialize(REGISTRY);
    credit.set_burner(&auth, RETIREMENT).unwrap();
    let mut tokens = TokenLedger::new();
    tokens.deploy(CREDIT, credit);

    let mut zk = ZkVerifierContract::new(ZK);
    zk.initialize();

    let mut market = MarketplaceContract::new(MARKET);
    market.initialize();

    let mut ret = RetirementContract::new(RETIREMENT);
    ret.initialize(CREDIT, REGISTRY).unwrap();

    let mut reg = RegistryContract::new(REGISTRY);
    reg.initialize(CREDIT, ZK);
    reg.init_governance(1, vec![SIGNER], 3600).unwrap();
    reg.set_retirement_contract(&auth, SIGNER, RETIREMENT).unwrap();

    Deployment { tokens, zk, reg, market, ret, auth }
}

fn ledger() -> LedgerInfo {
    LedgerInfo { timestamp: 0, sequence: 0 }
}

/// The limit order book end to end: a resting sell order is taken by a
/// crossing buy order and both escrows settle.
#[test]
fn orderbook_sell_then_buy_settles() {
    let mut d = deploy_all();
    // A second token acts as the paired asset.
    let mut paired = CreditTokenContract::new();
    paired.initialize(901);
    d.tokens.deploy(PAIRED, paired);

    let pool_id = [3u8; 32];
    d.market.create_pool(pool_id, CREDIT, Symbol::new("USDC"), 1000, 5000).unwrap();

    let seller: Address = 10;
    let buyer: Address = 11;
    d.tokens.mint(&d.auth, 0, CREDIT, seller, 1000).unwrap();
    d.tokens.mint(&d.auth, 0, PAIRED, buyer, 10000).unwrap();

    d.market
        .place_limit_order(&mut d.tokens, &d.auth, seller, OrderSide::Sell, 100, 10, pool_id, PAIRED, ledger())
        .unwrap();
    d.market
        .place_limit_order(&mut d.tokens, &d.auth, buyer, OrderSide::Buy, 100, 10, pool_id, PAIRED, ledger())
        .unwrap();

    // Escrows settled: seller paid credits, received paired; buyer vice versa.
    assert_eq!(d.tokens.balance_of(CREDIT, seller), 900);
    assert_eq!(d.tokens.balance_of(PAIRED, seller), 1000);
    assert_eq!(d.tokens.balance_of(CREDIT, buyer), 100);
    assert_eq!(d.tokens.balance_of(PAIRED, buyer), 9000);

    // The book is empty after the cross.
    assert_eq!(d.market.get_orders(pool_id).len(), 0);
}

#[test]
fn duplicate_project_registration_fails() {
    let mut d = deploy_all();
    let project = Project {
        id: [1u8; 32],
        methodology: Symbol::new("VM0007"),
        geography: Symbol::new("BRA"),
        external_registry_ref: None,
        verifying_key_version: 1,
    };
    d.reg.register_project(project.clone()).unwrap();
    let result = d.reg.register_project(project);
    assert_eq!(result, Err(Error::AlreadyRegistered));
}

#[test]
fn get_nonexistent_project_fails() {
    let d = deploy_all();
    let result = d.reg.get_project([99u8; 32]);
    assert_eq!(result, Err(Error::NotFound));
}

#[test]
fn duplicate_pool_creation_fails() {
    let mut d = deploy_all();
    let pool_id = [1u8; 32];
    d.market.create_pool(pool_id, CREDIT, Symbol::new("XLM"), 100, 500).unwrap();
    let result = d.market.create_pool(pool_id, CREDIT, Symbol::new("XLM"), 100, 500);
    assert_eq!(result, Err(Error::AlreadyRegistered));
}

#[test]
fn create_pool_nonpositive_fails() {
    let mut d = deploy_all();
    let result = d.market.create_pool([1u8; 32], CREDIT, Symbol::new("XLM"), 0, 500);
    assert_eq!(result, Err(Error::NonPositiveAmount));
}

#[test]
fn get_nonexistent_pool_fails() {
    let d = deploy_all();
    let result = d.market.get_pool([99u8; 32]);
    assert_eq!(result, Err(Error::PoolNotFound));
}

#[test]
fn swap_nonexistent_pool_fails() {
    let mut d = deploy_all();
    let result = d.market.swap([99u8; 32], 100, 0);
    assert_eq!(result, Err(Error::PoolNotFound));
}

#[test]
fn get_nonexistent_retirement_fails() {
    let d = deploy_all();
    let result = d.ret.get_retirement([99u8; 32]);
    assert_eq!(result, Err(Error::RetirementNotFound));
}

/// Register a project, mint against a verified proof, trade on a pool, and
/// retire publicly and then shielded, checking the vintage totals.
#[test]
fn lifecycle_register_mint_swap_retire() {
    let mut d = deploy_all();
    // A canonical key for the project's methodology.
    let proposal = d
        .reg
        .propose_vkey_update(&d.auth, ledger(), SIGNER, Symbol::new("VM0007"), [5u8; 32])
        .unwrap();
    d.reg.execute_vkey_update(4000, proposal).unwrap();

    let project_id = [1u8; 32];
    let project = Project {
        id: project_id,
        methodology: Symbol::new("VM0007"),
        geography: Symbol::new("BRA"),
        external_registry_ref: None,
        verifying_key_version: 1,
    };
    d.reg.register_project(project.clone()).unwrap();
    assert_eq!(d.reg.get_project(project_id), Ok(project));

    let proof = Proof { proof_data: vec![1u8, 2, 3, 4], public_inputs: vec![project_id] };
    d.reg.request_mint(&d.auth, &d.zk, &mut d.tokens, project_id, 2025, 1000, &proof).unwrap();
    let vintage = d.reg.get_vintage(project_id, 2025).unwrap();
    assert_eq!(vintage.total_issued, 1000);
    assert_eq!(vintage.total_retired, 0);
    assert_eq!(d.tokens.balance_of(CREDIT, REGISTRY), 1000);

    let user: Address = 12;
    d.tokens.transfer(&d.auth, REGISTRY, CREDIT, REGISTRY, user, 500).unwrap();
    assert_eq!(d.tokens.balance_of(CREDIT, user), 500);
    assert_eq!(d.tokens.balance_of(CREDIT, REGISTRY), 500);

    let pool_id = [2u8; 32];
    let pool = d.market.create_pool(pool_id, CREDIT, Symbol::new("XLM"), 500, 2500).unwrap();
    assert_eq!(pool.credit_reserves, 500);
    assert_eq!(pool.paired_reserves, 2500);
    // (2500 * 100) / (500 + 100) rounds down to 416.
    assert_eq!(d.market.swap(pool_id, 100, 0), Ok(416));
    let updated = d.market.get_pool(pool_id).unwrap();
    assert_eq!(updated.credit_reserves, 600);
    assert_eq!(updated.paired_reserves, 2084);

    let at = LedgerInfo { timestamp: 5000, sequence: 9 };
    let record = d
        .ret
        .retire(&d.auth, at, &mut d.tokens, &mut d.reg, user, project_id, 2025, 200, false, [0u8; 32])
        .unwrap();
    assert_eq!(record.project_id, project_id);
    assert_eq!(record.vintage_year, 2025);
    assert_eq!(record.amount, 200);
    assert_eq!(record.retiree, RetireeRef::Public(user));
    assert_eq!(d.ret.get_retirement(record.id), Ok(record));

    let shielded = d
        .ret
        .retire(&d.auth, at, &mut d.tokens, &mut d.reg, user, project_id, 2025, 100, true, [42u8; 32])
        .unwrap();
    assert_eq!(shielded.retiree, RetireeRef::Shielded([42u8; 32]));
    assert_eq!(d.tokens.balance_of(CREDIT, user), 200);

    let vintage = d.reg.get_vintage(project_id, 2025).unwrap();
    assert_eq!(vintage.total_issued, 1000);
    assert_eq!(vintage.total_retired, 300);
}
