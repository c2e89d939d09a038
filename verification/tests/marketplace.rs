use cambium::{
    calculate_swap_output, Address, Auth, CreditTokenContract, Error, LedgerInfo, MarketEvent,
    MarketplaceContract, OrderSide, Pool, Symbol, TokenLedger,
};

const MARKET: Address = 100;
const CREDIT: Address = 200;
const PAIRED: Address = 201;

fn setup() -> MarketplaceContract {
    let mut m = MarketplaceContract::new(MARKET);
    m.initialize();
    m
}

fn sample_pool_id() -> [u8; 32] {
    [1u8; 32]
}

fn ledger() -> LedgerInfo {
    LedgerInfo { timestamp: 0, sequence: 0 }
}

/// A marketplace with a pool for credits against a paired asset, and two
/// deployed tokens serving as the credit and the paired asset.
fn order_setup() -> (MarketplaceContract, TokenLedger) {
    let mut m = setup();
    let mut tokens = TokenLedger::new();
    let mut credit = CreditTokenContract::new();
    credit.initialize(900);
    let mut paired = CreditTokenContract::new();
    paired.initialize(901);
    tokens.deploy(CREDIT, credit);
    tokens.deploy(PAIRED, paired);
    m.create_pool(sample_pool_id(), CREDIT, Symbol::new("USDC"), 1000, 5000).unwrap();
    (m, tokens)
}

fn mint(tokens: &mut TokenLedger, token: Address, to: Address, amount: i128) {
    tokens.mint(&Auth::everyone(), 0, token, to, amount).unwrap();
}

fn make_pool(credit: i128, paired: i128) -> Pool {
    Pool {
        id: [1u8; 32],
        credit_token: 7,
        paired_asset: Symbol::new("XLM"),
        credit_reserves: credit,
        paired_reserves: paired,
    }
}

// ---- amm tests ----

#[test]
fn calculate_swap_output_basic() {
    let pool = make_pool(1000, 5000);
    assert_eq!(calculate_swap_output(&pool, 100).unwrap(), 454);
}

#[test]
fn calculate_swap_output_zero_fails() {
    let pool = make_pool(1000, 5000);
    assert_eq!(calculate_swap_output(&pool, 0), Err(Error::NonPositiveAmount));
}

#[test]
fn calculate_swap_output_negative_fails() {
    let pool = make_pool(1000, 5000);
    assert_eq!(calculate_swap_output(&pool, -100), Err(Error::NonPositiveAmount));
}

#[test]
fn calculate_swap_output_overflow_fails() {
    let pool = make_pool(1000, i128::MAX);
    assert_eq!(calculate_swap_output(&pool, 2), Err(Error::Overflow));
}

#[test]
fn calculate_swap_output_rounds_toward_zero_with_negative_reserves() {
    // (-7 * 2) / (1 + 2) = -14 / 3 rounds to -4: not positive.
    let pool = make_pool(1, -7);
    assert_eq!(calculate_swap_output(&pool, 2), Err(Error::NonPositiveAmount));
    // (-9 * 3) / (-6 + 3) = -27 / -3 = 9.
    let pool = make_pool(-6, -9);
    assert_eq!(calculate_swap_output(&pool, 3), Ok(9));
}

// ---- initialize tests ----

#[test]
fn initialize_sets_initialized() {
    let m = setup();
    assert_eq!(m.get_pool(sample_pool_id()), Err(Error::PoolNotFound));
}

// ---- create_pool tests ----

#[test]
fn create_pool_succeeds() {
    let mut m = setup();
    let pool_id = sample_pool_id();
    let credit_token = 5;
    let paired_asset = Symbol::new("XLM");
    let pool = m.create_pool(pool_id, credit_token, paired_asset, 1000, 5000).unwrap();
    assert_eq!(pool.id, pool_id);
    assert_eq!(pool.credit_token, credit_token);
    assert_eq!(pool.paired_asset, paired_asset);
    assert_eq!(pool.credit_reserves, 1000);
    assert_eq!(pool.paired_reserves, 5000);
}

#[test]
fn create_pool_duplicate_fails() {
    let mut m = setup();
    let pool_id = sample_pool_id();
    m.create_pool(pool_id, 5, Symbol::new("XLM"), 1000, 5000).unwrap();
    let result = m.create_pool(pool_id, 5, Symbol::new("XLM"), 1000, 5000);
    assert_eq!(result, Err(Error::AlreadyRegistered));
}

#[test]
fn create_pool_zero_credit_fails() {
    let mut m = setup();
    let result = m.create_pool(sample_pool_id(), 5, Symbol::new("XLM"), 0, 5000);
    assert_eq!(result, Err(Error::NonPositiveAmount));
}

#[test]
fn create_pool_negative_paired_fails() {
    let mut m = setup();
    let result = m.create_pool(sample_pool_id(), 5, Symbol::new("XLM"), 1000, -1);
    assert_eq!(result, Err(Error::NonPositiveAmount));
}

// ---- get_pool tests ----

#[test]
fn get_pool_not_found() {
    let m = setup();
    assert_eq!(m.get_pool([99u8; 32]), Err(Error::PoolNotFound));
}

// ---- swap tests ----

#[test]
fn swap_succeeds() {
    let mut m = setup();
    let pool_id = sample_pool_id();
    m.create_pool(pool_id, 5, Symbol::new("XLM"), 1000, 5000).unwrap();
    assert_eq!(m.swap(pool_id, 100, 0), Ok(454));
    let pool = m.get_pool(pool_id).unwrap();
    assert_eq!(pool.credit_reserves, 1100);
    assert_eq!(pool.paired_reserves, 4546);
}

#[test]
fn swap_with_min_amount_out_succeeds() {
    let mut m = setup();
    let pool_id = sample_pool_id();
    m.create_pool(pool_id, 5, Symbol::new("XLM"), 1000, 5000).unwrap();
    assert_eq!(m.swap(pool_id, 100, 450), Ok(454));
}

#[test]
fn swap_slippage_protection_fails() {
    let mut m = setup();
    let pool_id = sample_pool_id();
    m.create_pool(pool_id, 5, Symbol::new("XLM"), 1000, 5000).unwrap();
    assert_eq!(m.swap(pool_id, 100, 500), Err(Error::NonPositiveAmount));
}

#[test]
fn swap_zero_amount_fails() {
    let mut m = setup();
    let pool_id = sample_pool_id();
    m.create_pool(pool_id, 5, Symbol::new("XLM"), 1000, 5000).unwrap();
    assert_eq!(m.swap(pool_id, 0, 0), Err(Error::NonPositiveAmount));
}

#[test]
fn swap_negative_amount_fails() {
    let mut m = setup();
    let pool_id = sample_pool_id();
    m.create_pool(pool_id, 5, Symbol::new("XLM"), 1000, 5000).unwrap();
    assert_eq!(m.swap(pool_id, -100, 0), Err(Error::NonPositiveAmount));
}

#[test]
fn swap_pool_not_found() {
    let mut m = setup();
    assert_eq!(m.swap([99u8; 32], 100, 0), Err(Error::PoolNotFound));
}

#[test]
fn swap_fractional_amounts() {
    let mut m = setup();
    let pool_id = sample_pool_id();
    m.create_pool(pool_id, 5, Symbol::new("XLM"), 1000, 1000).unwrap();
    assert_eq!(m.swap(pool_id, 1, 0), Err(Error::NonPositiveAmount));
}

#[test]
fn swap_multiple_swaps() {
    let mut m = setup();
    let pool_id = sample_pool_id();
    m.create_pool(pool_id, 5, Symbol::new("XLM"), 1000, 5000).unwrap();
    assert_eq!(m.swap(pool_id, 100, 0), Ok(454));
    assert_eq!(m.swap(pool_id, 100, 0), Ok(378));
}

#[test]
fn swap_never_lowers_reserve_product() {
    let mut m = setup();
    let pool_id = sample_pool_id();
    m.create_pool(pool_id, 5, Symbol::new("XLM"), 1000, 5000).unwrap();
    for amount in [1i128, 7, 100, 999, 12345] {
        let before = m.get_pool(pool_id).unwrap();
        if m.swap(pool_id, amount, 0).is_ok() {
            let after = m.get_pool(pool_id).unwrap();
            assert!(after.credit_reserves * after.paired_reserves
                >= before.credit_reserves * before.paired_reserves);
            assert!(after.paired_reserves > 0);
        }
    }
}

// ---- place_limit_order tests ----

#[test]
fn place_sell_order_escrows_credits() {
    let (mut m, mut tokens) = order_setup();
    let pool_id = sample_pool_id();
    let seller = 10;
    let auth = Auth::everyone();
    mint(&mut tokens, CREDIT, seller, 1000);

    let order_id = m
        .place_limit_order(&mut tokens, &auth, seller, OrderSide::Sell, 100, 10, pool_id, PAIRED, ledger())
        .unwrap();

    assert_eq!(tokens.balance_of(CREDIT, seller), 900);

    let order = m.get_order(order_id).unwrap();
    assert_eq!(order.side, OrderSide::Sell);
    assert_eq!(order.amount, 100);
    assert_eq!(order.remaining, 100);
    assert_eq!(order.price, 10);

    let orders = m.get_orders(pool_id);
    assert_eq!(orders.len(), 1);
    assert_eq!(orders[0].id, order_id);
}

#[test]
fn place_buy_order_escrows_paired() {
    let (mut m, mut tokens) = order_setup();
    let pool_id = sample_pool_id();
    let buyer = 11;
    let auth = Auth::everyone();
    mint(&mut tokens, PAIRED, buyer, 10000);

    let order_id = m
        .place_limit_order(&mut tokens, &auth, buyer, OrderSide::Buy, 100, 10, pool_id, PAIRED, ledger())
        .unwrap();

    assert_eq!(tokens.balance_of(PAIRED, buyer), 9000);
    let order = m.get_order(order_id).unwrap();
    assert_eq!(order.side, OrderSide::Buy);
    assert_eq!(order.remaining, 100);
}

#[test]
fn sell_then_buy_fills_and_settles() {
    let (mut m, mut tokens) = order_setup();
    let pool_id = sample_pool_id();
    let seller = 10;
    let buyer = 11;
    let auth = Auth::everyone();
    mint(&mut tokens, CREDIT, seller, 1000);
    mint(&mut tokens, PAIRED, buyer, 10000);

    m.place_limit_order(&mut tokens, &auth, seller, OrderSide::Sell, 100, 10, pool_id, PAIRED, ledger())
        .unwrap();
    m.place_limit_order(&mut tokens, &auth, buyer, OrderSide::Buy, 100, 10, pool_id, PAIRED, ledger())
        .unwrap();

    assert_eq!(tokens.balance_of(CREDIT, seller), 900);
    assert_eq!(tokens.balance_of(PAIRED, seller), 1000);
    assert_eq!(tokens.balance_of(CREDIT, buyer), 100);
    assert_eq!(tokens.balance_of(PAIRED, buyer), 9000);
    assert_eq!(m.get_orders(pool_id).len(), 0);
}

#[test]
fn partial_fill_rests_maker_remainder() {
    let (mut m, mut tokens) = order_setup();
    let pool_id = sample_pool_id();
    let seller = 10;
    let buyer = 11;
    let auth = Auth::everyone();
    mint(&mut tokens, CREDIT, seller, 1000);
    mint(&mut tokens, PAIRED, buyer, 10000);

    let sell_id = m
        .place_limit_order(&mut tokens, &auth, seller, OrderSide::Sell, 100, 10, pool_id, PAIRED, ledger())
        .unwrap();
    let buy_id = m
        .place_limit_order(&mut tokens, &auth, buyer, OrderSide::Buy, 60, 10, pool_id, PAIRED, ledger())
        .unwrap();

    assert_eq!(m.get_order(sell_id).unwrap().remaining, 40);
    assert_eq!(m.get_order(buy_id), Err(Error::NotFound));
    assert_eq!(m.get_orders(pool_id).len(), 1);
}

#[test]
fn buy_fills_at_maker_price_and_refunds_overpayment() {
    let (mut m, mut tokens) = order_setup();
    let pool_id = sample_pool_id();
    let seller = 10;
    let buyer = 11;
    let auth = Auth::everyone();
    mint(&mut tokens, CREDIT, seller, 1000);
    mint(&mut tokens, PAIRED, buyer, 10000);

    m.place_limit_order(&mut tokens, &auth, seller, OrderSide::Sell, 100, 10, pool_id, PAIRED, ledger())
        .unwrap();
    m.place_limit_order(&mut tokens, &auth, buyer, OrderSide::Buy, 100, 12, pool_id, PAIRED, ledger())
        .unwrap();

    assert_eq!(tokens.balance_of(PAIRED, buyer), 8800 + 200);
    assert_eq!(tokens.balance_of(PAIRED, seller), 1000);
    assert_eq!(tokens.balance_of(CREDIT, buyer), 100);
}

#[test]
fn non_crossing_orders_rest() {
    let (mut m, mut tokens) = order_setup();
    let pool_id = sample_pool_id();
    let seller = 10;
    let buyer = 11;
    let auth = Auth::everyone();
    mint(&mut tokens, CREDIT, seller, 1000);
    mint(&mut tokens, PAIRED, buyer, 10000);

    m.place_limit_order(&mut tokens, &auth, seller, OrderSide::Sell, 100, 12, pool_id, PAIRED, ledger())
        .unwrap();
    m.place_limit_order(&mut tokens, &auth, buyer, OrderSide::Buy, 100, 10, pool_id, PAIRED, ledger())
        .unwrap();

    assert_eq!(m.get_orders(pool_id).len(), 2);
}

#[test]
fn place_limit_order_without_pool_fails() {
    let (mut m, mut tokens) = order_setup();
    let trader = 12;
    let auth = Auth::everyone();
    mint(&mut tokens, CREDIT, trader, 1000);
    let result = m.place_limit_order(
        &mut tokens, &auth, trader, OrderSide::Sell, 100, 10, [99u8; 32], PAIRED, ledger(),
    );
    assert_eq!(result, Err(Error::PoolNotFound));
}

#[test]
fn place_limit_order_insufficient_escrow_fails() {
    let (mut m, mut tokens) = order_setup();
    let trader = 12;
    let auth = Auth::everyone();
    let result = m.place_limit_order(
        &mut tokens, &auth, trader, OrderSide::Sell, 100, 10, sample_pool_id(), PAIRED, ledger(),
    );
    assert_eq!(result, Err(Error::InsufficientBalance));
}

#[test]
fn place_limit_order_nonpositive_fails() {
    let (mut m, mut tokens) = order_setup();
    let trader = 12;
    let auth = Auth::everyone();
    let result = m.place_limit_order(
        &mut tokens, &auth, trader, OrderSide::Sell, 0, 10, sample_pool_id(), PAIRED, ledger(),
    );
    assert_eq!(result, Err(Error::NonPositiveAmount));
    let result = m.place_limit_order(
        &mut tokens, &auth, trader, OrderSide::Sell, 100, 0, sample_pool_id(), PAIRED, ledger(),
    );
    assert_eq!(result, Err(Error::NonPositiveAmount));
}

#[test]
fn failed_payout_rolls_back_the_whole_order() {
    let (mut m, mut tokens) = order_setup();
    let pool_id = sample_pool_id();
    let seller = 10;
    let buyer = 11;
    let auth = Auth::everyone();
    mint(&mut tokens, CREDIT, seller, 1000);
    mint(&mut tokens, PAIRED, buyer, 10000);
    let sell_id = m
        .place_limit_order(&mut tokens, &auth, seller, OrderSide::Sell, 100, 10, pool_id, PAIRED, ledger())
        .unwrap();
    // Turn on the credit token's allowlist without the buyer on it: the
    // buy escrows its paired units, then the credit payout to the buyer is
    // refused, so nothing may move.
    let mut credit = tokens.take(CREDIT).unwrap();
    credit.set_allowlisted(&auth, MARKET, true).unwrap();
    credit.set_allowlisted(&auth, seller, true).unwrap();
    credit.enable_allowlist(&auth, true).unwrap();
    tokens.deploy(CREDIT, credit);
    let result = m.place_limit_order(
        &mut tokens, &auth, buyer, OrderSide::Buy, 100, 10, pool_id, PAIRED, ledger(),
    );
    assert_eq!(result, Err(Error::InsufficientBalance));
    assert_eq!(tokens.balance_of(PAIRED, buyer), 10000);
    assert_eq!(m.get_order(sell_id).unwrap().remaining, 100);
}

// ---- cancel_order tests ----

#[test]
fn cancel_sell_refunds_credits() {
    let (mut m, mut tokens) = order_setup();
    let pool_id = sample_pool_id();
    let seller = 10;
    let auth = Auth::everyone();
    mint(&mut tokens, CREDIT, seller, 1000);

    let order_id = m
        .place_limit_order(&mut tokens, &auth, seller, OrderSide::Sell, 100, 10, pool_id, PAIRED, ledger())
        .unwrap();
    m.cancel_order(&mut tokens, &auth, seller, order_id).unwrap();

    assert_eq!(tokens.balance_of(CREDIT, seller), 1000);
    assert_eq!(m.get_orders(pool_id).len(), 0);
    assert_eq!(m.get_order(order_id), Err(Error::NotFound));
}

#[test]
fn cancel_buy_refunds_paired() {
    let (mut m, mut tokens) = order_setup();
    let pool_id = sample_pool_id();
    let buyer = 11;
    let auth = Auth::everyone();
    mint(&mut tokens, PAIRED, buyer, 10000);

    let order_id = m
        .place_limit_order(&mut tokens, &auth, buyer, OrderSide::Buy, 100, 10, pool_id, PAIRED, ledger())
        .unwrap();
    m.cancel_order(&mut tokens, &auth, buyer, order_id).unwrap();
    assert_eq!(tokens.balance_of(PAIRED, buyer), 10000);
}

#[test]
fn cancel_others_order_fails() {
    let (mut m, mut tokens) = order_setup();
    let pool_id = sample_pool_id();
    let seller = 10;
    let attacker = 13;
    let auth = Auth::everyone();
    mint(&mut tokens, PAIRED, seller, 10000);

    let order_id = m
        .place_limit_order(&mut tokens, &auth, seller, OrderSide::Buy, 100, 10, pool_id, PAIRED, ledger())
        .unwrap();
    let result = m.cancel_order(&mut tokens, &auth, attacker, order_id);
    assert_eq!(result, Err(Error::Unauthorized));
}

#[test]
fn cancel_missing_order_fails() {
    let (mut m, mut tokens) = order_setup();
    let trader = 12;
    let auth = Auth::everyone();
    let result = m.cancel_order(&mut tokens, &auth, trader, [99u8; 32]);
    assert_eq!(result, Err(Error::NotFound));
}

#[test]
fn cancel_closed_order_fails() {
    let (mut m, mut tokens) = order_setup();
    let pool_id = sample_pool_id();
    let seller = 10;
    let auth = Auth::everyone();
    mint(&mut tokens, CREDIT, seller, 1000);

    let order_id = m
        .place_limit_order(&mut tokens, &auth, seller, OrderSide::Sell, 100, 10, pool_id, PAIRED, ledger())
        .unwrap();
    m.cancel_order(&mut tokens, &auth, seller, order_id).unwrap();
    let result = m.cancel_order(&mut tokens, &auth, seller, order_id);
    assert_eq!(result, Err(Error::NotFound));
}

// ---- get_order / get_orders tests ----

#[test]
fn get_order_not_found() {
    let m = setup();
    assert_eq!(m.get_order([99u8; 32]), Err(Error::NotFound));
}

#[test]
fn get_orders_empty_pool() {
    let (m, _tokens) = order_setup();
    assert_eq!(m.get_orders(sample_pool_id()).len(), 0);
}

#[test]
fn order_ids_differ_between_orders() {
    let (mut m, mut tokens) = order_setup();
    let pool_id = sample_pool_id();
    let seller = 10;
    let auth = Auth::everyone();
    mint(&mut tokens, CREDIT, seller, 1000);
    let a = m
        .place_limit_order(&mut tokens, &auth, seller, OrderSide::Sell, 100, 12, pool_id, PAIRED, ledger())
        .unwrap();
    let b = m
        .place_limit_order(&mut tokens, &auth, seller, OrderSide::Sell, 100, 12, pool_id, PAIRED, ledger())
        .unwrap();
    assert_ne!(a, b);
    assert_ne!(a, [0u8; 32]);
    let ids: Vec<[u8; 32]> = m.get_orders(pool_id).iter().map(|o| o.id).collect();
    assert_eq!(ids, vec![a, b]);
}

#[test]
fn sell_taker_receives_the_resting_buyers_price() {
    let (mut m, mut tokens) = order_setup();
    let pool_id = sample_pool_id();
    let seller = 10;
    let buyer = 11;
    let auth = Auth::everyone();
    mint(&mut tokens, CREDIT, seller, 1000);
    mint(&mut tokens, PAIRED, buyer, 10000);

    // The buyer rests at 10; the seller asks only 8 and is paid 10 per credit.
    m.place_limit_order(&mut tokens, &auth, buyer, OrderSide::Buy, 50, 10, pool_id, PAIRED, ledger())
        .unwrap();
    m.place_limit_order(&mut tokens, &auth, seller, OrderSide::Sell, 50, 8, pool_id, PAIRED, ledger())
        .unwrap();

    assert_eq!(tokens.balance_of(PAIRED, seller), 500);
    assert_eq!(tokens.balance_of(CREDIT, seller), 950);
    assert_eq!(tokens.balance_of(CREDIT, buyer), 50);
    assert_eq!(tokens.balance_of(PAIRED, buyer), 9500);
    assert_eq!(m.get_orders(pool_id).len(), 0);
}

#[test]
fn order_placement_keeps_token_supplies() {
    let (mut m, mut tokens) = order_setup();
    let pool_id = sample_pool_id();
    let seller = 10;
    let buyer = 11;
    let auth = Auth::everyone();
    mint(&mut tokens, CREDIT, seller, 1000);
    mint(&mut tokens, PAIRED, buyer, 10000);
    let credit_supply = tokens.get(CREDIT).unwrap().total_supply();
    let paired_supply = tokens.get(PAIRED).unwrap().total_supply();

    m.place_limit_order(&mut tokens, &auth, seller, OrderSide::Sell, 100, 10, pool_id, PAIRED, ledger())
        .unwrap();
    m.place_limit_order(&mut tokens, &auth, buyer, OrderSide::Buy, 60, 12, pool_id, PAIRED, ledger())
        .unwrap();
    let resting = m.get_orders(pool_id);
    assert_eq!(resting.len(), 1);
    m.cancel_order(&mut tokens, &auth, seller, resting[0].id).unwrap();

    assert_eq!(tokens.get(CREDIT).unwrap().total_supply(), credit_supply);
    assert_eq!(tokens.get(PAIRED).unwrap().total_supply(), paired_supply);
    assert_eq!(tokens.balance_of(CREDIT, seller) + tokens.balance_of(CREDIT, buyer), 1000);
    assert_eq!(tokens.balance_of(PAIRED, seller) + tokens.balance_of(PAIRED, buyer), 10000);
    assert_eq!(tokens.balance_of(CREDIT, MARKET), 0);
    assert_eq!(tokens.balance_of(PAIRED, MARKET), 0);
}

#[test]
fn fill_pays_in_the_takers_paired_asset() {
    // A resting buy escrowed in one asset is filled by a seller naming
    // another: the seller is paid in the asset it named, out of whatever the
    // marketplace holds of it.
    let (mut m, mut tokens) = order_setup();
    let other: Address = 202;
    let mut other_token = CreditTokenContract::new();
    other_token.initialize(902);
    tokens.deploy(other, other_token);
    let pool_id = sample_pool_id();
    let buyer = 11;
    let other_buyer = 12;
    let seller = 10;
    let auth = Auth::everyone();
    mint(&mut tokens, PAIRED, buyer, 100);
    mint(&mut tokens, other, other_buyer, 100);
    mint(&mut tokens, CREDIT, seller, 100);

    m.place_limit_order(&mut tokens, &auth, buyer, OrderSide::Buy, 10, 1, pool_id, PAIRED, ledger())
        .unwrap();
    m.create_pool([2u8; 32], CREDIT, Symbol::new("XLM"), 10, 10).unwrap();
    m.place_limit_order(&mut tokens, &auth, other_buyer, OrderSide::Buy, 10, 1, [2u8; 32], other, ledger())
        .unwrap();
    m.place_limit_order(&mut tokens, &auth, seller, OrderSide::Sell, 10, 1, pool_id, other, ledger())
        .unwrap();

    assert_eq!(tokens.balance_of(other, seller), 10);
    assert_eq!(tokens.balance_of(CREDIT, buyer), 10);
    assert_eq!(tokens.balance_of(PAIRED, MARKET), 10);
    assert_eq!(tokens.balance_of(other, MARKET), 0);
    assert_eq!(m.get_orders(pool_id).len(), 0);
    assert_eq!(m.get_orders([2u8; 32]).len(), 1);
}

#[test]
fn buy_sweeps_the_lowest_ask_first() {
    let (mut m, mut tokens) = order_setup();
    let pool_id = sample_pool_id();
    let (s1, s2, buyer) = (10, 13, 11);
    let auth = Auth::everyone();
    mint(&mut tokens, CREDIT, s1, 1000);
    mint(&mut tokens, CREDIT, s2, 1000);
    mint(&mut tokens, PAIRED, buyer, 10000);

    let a = m
        .place_limit_order(&mut tokens, &auth, s1, OrderSide::Sell, 100, 12, pool_id, PAIRED, ledger())
        .unwrap();
    let b = m
        .place_limit_order(&mut tokens, &auth, s2, OrderSide::Sell, 100, 10, pool_id, PAIRED, ledger())
        .unwrap();
    m.place_limit_order(&mut tokens, &auth, buyer, OrderSide::Buy, 100, 12, pool_id, PAIRED, ledger())
        .unwrap();

    assert_eq!(m.get_order(b), Err(Error::NotFound));
    assert_eq!(m.get_order(a).unwrap().remaining, 100);
    assert_eq!(tokens.balance_of(PAIRED, s2), 1000);
    assert_eq!(tokens.balance_of(PAIRED, s1), 0);
    // Bought at 10 with an escrow at 12: the difference comes back.
    assert_eq!(tokens.balance_of(PAIRED, buyer), 9000);
    assert_eq!(tokens.balance_of(CREDIT, buyer), 100);
}

#[test]
fn sell_sweeps_the_highest_bid_first_and_earlier_among_equals() {
    let (mut m, mut tokens) = order_setup();
    let pool_id = sample_pool_id();
    let (b1, b2, b3, seller) = (20, 21, 22, 10);
    let auth = Auth::everyone();
    for b in [b1, b2, b3] {
        mint(&mut tokens, PAIRED, b, 10000);
    }
    mint(&mut tokens, CREDIT, seller, 1000);

    let first = m
        .place_limit_order(&mut tokens, &auth, b1, OrderSide::Buy, 50, 9, pool_id, PAIRED, ledger())
        .unwrap();
    let second = m
        .place_limit_order(&mut tokens, &auth, b2, OrderSide::Buy, 50, 11, pool_id, PAIRED, ledger())
        .unwrap();
    let third = m
        .place_limit_order(&mut tokens, &auth, b3, OrderSide::Buy, 50, 11, pool_id, PAIRED, ledger())
        .unwrap();
    m.place_limit_order(&mut tokens, &auth, seller, OrderSide::Sell, 70, 9, pool_id, PAIRED, ledger())
        .unwrap();

    // 50 at 11 from the earlier bid at 11, then 20 at 11 from the later one.
    assert_eq!(m.get_order(second), Err(Error::NotFound));
    assert_eq!(m.get_order(third).unwrap().remaining, 30);
    assert_eq!(m.get_order(first).unwrap().remaining, 50);
    assert_eq!(tokens.balance_of(PAIRED, seller), 770);
    assert_eq!(tokens.balance_of(CREDIT, b2), 50);
    assert_eq!(tokens.balance_of(CREDIT, b3), 20);
}

#[test]
fn order_events_record_fills_rests_and_cancels() {
    let (mut m, mut tokens) = order_setup();
    let pool_id = sample_pool_id();
    let (seller, buyer) = (10, 11);
    let auth = Auth::everyone();
    mint(&mut tokens, CREDIT, seller, 1000);
    mint(&mut tokens, PAIRED, buyer, 10000);
    let before = m.events().len();

    let maker = m
        .place_limit_order(&mut tokens, &auth, seller, OrderSide::Sell, 100, 10, pool_id, PAIRED, ledger())
        .unwrap();
    let taker = m
        .place_limit_order(&mut tokens, &auth, buyer, OrderSide::Buy, 150, 10, pool_id, PAIRED, ledger())
        .unwrap();
    m.cancel_order(&mut tokens, &auth, buyer, taker).unwrap();

    let events = m.events();
    assert_eq!(
        events[before..].to_vec(),
        vec![
            MarketEvent::OrderPlaced { id: maker, trader: seller, side: OrderSide::Sell, remaining: 100, price: 10 },
            MarketEvent::OrderFilled { maker_id: maker, taker_id: taker, credits: 100, paired: 1000 },
            MarketEvent::OrderPlaced { id: taker, trader: buyer, side: OrderSide::Buy, remaining: 50, price: 10 },
            MarketEvent::OrderCancelled { id: taker, trader: buyer, refund: 500 },
        ]
    );
}

#[test]
fn pool_events_record_creation_and_swaps() {
    let mut m = setup();
    let pool_id = sample_pool_id();
    m.create_pool(pool_id, CREDIT, Symbol::new("XLM"), 1000, 5000).unwrap();
    m.swap(pool_id, 100, 0).unwrap();
    assert_eq!(
        m.events(),
        vec![
            MarketEvent::PoolCreated {
                pool_id,
                credit_token: CREDIT,
                paired_asset: Symbol::new("XLM"),
                initial_credit: 1000,
                initial_paired: 5000,
            },
            MarketEvent::Swap { pool_id, market: MARKET, amount_in: 100, amount_out: 454 },
        ]
    );
}

#[test]
fn unfilled_order_cancelled_restores_balances_and_book() {
    let (mut m, mut tokens) = order_setup();
    let pool_id = sample_pool_id();
    let (seller, buyer) = (10, 11);
    let auth = Auth::everyone();
    mint(&mut tokens, CREDIT, seller, 1000);
    mint(&mut tokens, PAIRED, buyer, 10000);
    m.place_limit_order(&mut tokens, &auth, seller, OrderSide::Sell, 100, 12, pool_id, PAIRED, ledger())
        .unwrap();
    let book = m.get_orders(pool_id);

    let id = m
        .place_limit_order(&mut tokens, &auth, buyer, OrderSide::Buy, 50, 10, pool_id, PAIRED, ledger())
        .unwrap();
    assert_eq!(tokens.balance_of(PAIRED, buyer), 9500);
    m.cancel_order(&mut tokens, &auth, buyer, id).unwrap();

    assert_eq!(tokens.balance_of(PAIRED, buyer), 10000);
    assert_eq!(tokens.balance_of(PAIRED, MARKET), 0);
    assert_eq!(tokens.balance_of(CREDIT, MARKET), 100);
    assert_eq!(m.get_orders(pool_id), book);
}

#[test]
fn resting_book_stays_uncrossed() {
    let (mut m, mut tokens) = order_setup();
    let pool_id = sample_pool_id();
    let (s1, s2, buyer) = (10, 13, 11);
    let auth = Auth::everyone();
    mint(&mut tokens, CREDIT, s1, 1000);
    mint(&mut tokens, CREDIT, s2, 1000);
    mint(&mut tokens, PAIRED, buyer, 10000);
    m.place_limit_order(&mut tokens, &auth, s1, OrderSide::Sell, 30, 9, pool_id, PAIRED, ledger())
        .unwrap();
    m.place_limit_order(&mut tokens, &auth, s2, OrderSide::Sell, 30, 11, pool_id, PAIRED, ledger())
        .unwrap();
    // The buy at 10 takes the ask at 9 and rests below the ask at 11.
    m.place_limit_order(&mut tokens, &auth, buyer, OrderSide::Buy, 100, 10, pool_id, PAIRED, ledger())
        .unwrap();
    let book = m.get_orders(pool_id);
    assert_eq!(book.len(), 2);
    for b in book.iter().filter(|o| o.side == OrderSide::Buy) {
        for s in book.iter().filter(|o| o.side == OrderSide::Sell) {
            assert!(b.price < s.price);
        }
    }
    assert_eq!(tokens.balance_of(CREDIT, buyer), 30);
}
