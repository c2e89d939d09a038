//! The marketplace: constant-product liquidity pools for credit tokens
//! against a paired asset, and a limit order book per pool whose escrows
//! the marketplace holds.

use vstd::prelude::*;

use crate::amm::{calculate_swap_output, fits_i128, law_swap_keeps_product, swap_output};
use crate::common::{
    be_bytes, bytes32_of, copy_vec, keccak256, keccak256_digest, lemma_be_bytes_injective,
    lemma_be_bytes_len, lemma_bytes32_of, pow256, push_be_bytes, Address, Auth, Bytes32, Error,
    LedgerInfo, OrderSide, Symbol,
};
use crate::orderbook::{
    by_priority, crosses, crosses_spec, fill_step, keep_present, law_sweep_keeps_supplies,
    lemma_by_priority, lemma_snapshot_stored, snapshot, sort_by_priority, sweep, Book, Fill, Order,
    Taker,
};
use crate::table::Table;
use crate::token::{
    law_ledger_transfer_keeps_supplies, ledger_transfer, lemma_ledger_transfer_effect, LedgerState,
    TokenLedger,
};

verus! {

/// A liquidity pool trading credit tokens against a paired asset.
#[derive(Clone, Copy, Debug, PartialEq, Eq)]
pub struct Pool {
    /// Unique pool identifier.
    pub id: Bytes32,
    /// Address of the credit token contract.
    pub credit_token: Address,
    /// Symbol of the paired asset (e.g. "XLM", "USDC").
    pub paired_asset: Symbol,
    /// Amount of credit tokens in the pool.
    pub credit_reserves: i128,
    /// Amount of paired asset in the pool.
    pub paired_reserves: i128,
}

/// Whether `o`, stored under `key` by the marketplace at `market`, is a
/// well-formed resting order.
pub open spec fn resting_order(o: Order, key: Bytes32, market: Address) -> bool {
    &&& o.id == key
    &&& o.trader != market
    &&& 0 < o.remaining <= o.amount
    &&& o.price > 0
}

/// The numeric encoding of an order side inside an order id.
pub open spec fn side_bit(side: OrderSide) -> nat {
    match side {
        OrderSide::Buy => 0,
        OrderSide::Sell => 1,
    }
}

/// The bytes from which the id of an order is derived: the trader, side,
/// amount, price, ledger sequence, ledger timestamp and the marketplace's
/// order counter, each big-endian.
pub open spec fn order_id_preimage(
    trader: Address,
    side: OrderSide,
    amount: i128,
    price: i128,
    ledger: LedgerInfo,
    nonce: u32,
) -> Seq<u8> {
    be_bytes(trader as nat, 8) + be_bytes(side_bit(side), 4) + be_bytes(amount as nat, 16)
        + be_bytes(price as nat, 16) + be_bytes(ledger.sequence as nat, 4) + be_bytes(
        ledger.timestamp as nat,
        8,
    ) + be_bytes(nonce as nat, 4)
}

/// The id given to an order: the Keccak-256 digest of its preimage.
pub open spec fn order_id_for(
    trader: Address,
    side: OrderSide,
    amount: i128,
    price: i128,
    ledger: LedgerInfo,
    nonce: u32,
) -> Bytes32 {
    bytes32_of(keccak256_digest(order_id_preimage(trader, side, amount, price, ledger, nonce)))
}

/// An event published by the marketplace.
#[derive(Clone, Copy, Debug, PartialEq, Eq)]
pub enum MarketEvent {
    /// A pool was created with its initial reserves.
    PoolCreated {
        pool_id: Bytes32,
        credit_token: Address,
        paired_asset: Symbol,
        initial_credit: i128,
        initial_paired: i128,
    },
    /// `amount_in` credits were swapped through a pool for `amount_out`.
    Swap { pool_id: Bytes32, market: Address, amount_in: i128, amount_out: i128 },
    /// A resting order was filled by an incoming one.
    OrderFilled { maker_id: Bytes32, taker_id: Bytes32, credits: i128, paired: i128 },
    /// An incoming order rests on the book with what is left of it.
    OrderPlaced { id: Bytes32, trader: Address, side: OrderSide, remaining: i128, price: i128 },
    /// A resting order was cancelled and its escrow refunded.
    OrderCancelled { id: Bytes32, trader: Address, refund: i128 },
}

/// The event published for a fill.
pub open spec fn fill_event(f: Fill) -> MarketEvent {
    MarketEvent::OrderFilled { maker_id: f.maker_id, taker_id: f.taker_id, credits: f.credits, paired: f.paired }
}

/// The abstract state of the marketplace contract.
pub struct MarketState {
    /// The marketplace's own address, which holds the order escrows.
    pub address: Address,
    pub initialized: bool,
    pub pools: Map<Bytes32, Pool>,
    /// Resting orders by id.
    pub orders: Map<Bytes32, Order>,
    /// Ids of resting orders per pool, in book order.
    pub order_ids: Map<Bytes32, Seq<Bytes32>>,
    /// Counter mixed into order ids.
    pub nonce: u32,
    /// The events published so far, oldest first.
    pub events: Seq<MarketEvent>,
}

impl MarketState {
    /// The ids listed for `pool_id`; empty when none were stored.
    pub open spec fn ids_of(self, pool_id: Bytes32) -> Seq<Bytes32> {
        if self.order_ids.contains_key(pool_id) {
            self.order_ids[pool_id]
        } else {
            Seq::empty()
        }
    }

    /// The resting orders of `pool_id`, in book order.
    pub open spec fn book(self, pool_id: Bytes32) -> Seq<Order> {
        snapshot(self.ids_of(pool_id), self.orders)
    }

    /// Pools are stored under their id and hold positive reserves; resting
    /// orders are stored under their id, were placed by someone other than
    /// the marketplace, have a positive price and an unfilled quantity in
    /// `(0, amount]`.
    pub open spec fn wf(self) -> bool {
        &&& forall|k: Bytes32|
            #[trigger] self.pools.contains_key(k) ==> self.pools[k].id == k
                && self.pools[k].credit_reserves > 0 && self.pools[k].paired_reserves > 0
        &&& forall|k: Bytes32|
            #[trigger] self.orders.contains_key(k) ==> resting_order(
                self.orders[k],
                k,
                self.address,
            )
    }

    /// The outcome of creating pool `pool_id`.
    pub open spec fn create_pool(
        self,
        pool_id: Bytes32,
        credit_token: Address,
        paired_asset: Symbol,
        initial_credit: i128,
        initial_paired: i128,
    ) -> Result<(MarketState, Pool), Error> {
        if initial_credit <= 0 || initial_paired <= 0 {
            Err(Error::NonPositiveAmount)
        } else if self.pools.contains_key(pool_id) {
            Err(Error::AlreadyRegistered)
        } else {
            let pool = Pool {
                id: pool_id,
                credit_token,
                paired_asset,
                credit_reserves: initial_credit,
                paired_reserves: initial_paired,
            };
            Ok(
                (
                    MarketState {
                        pools: self.pools.insert(pool_id, pool),
                        events: self.events.push(
                            MarketEvent::PoolCreated {
                                pool_id,
                                credit_token,
                                paired_asset,
                                initial_credit,
                                initial_paired,
                            },
                        ),
                        ..self
                    },
                    pool,
                ),
            )
        }
    }

    /// The outcome of swapping `amount_in` credit tokens through `pool_id`
    /// with slippage floor `min_amount_out`.
    pub open spec fn swap(self, pool_id: Bytes32, amount_in: i128, min_amount_out: i128) -> Result<
        (MarketState, i128),
        Error,
    > {
        if amount_in <= 0 {
            Err(Error::NonPositiveAmount)
        } else if !self.pools.contains_key(pool_id) {
            Err(Error::PoolNotFound)
        } else {
            let pool = self.pools[pool_id];
            match swap_output(pool.credit_reserves, pool.paired_reserves, amount_in) {
                Err(e) => Err(e),
                Ok(out) => if out < min_amount_out {
                    Err(Error::NonPositiveAmount)
                } else if !fits_i128(pool.credit_reserves + amount_in) || !fits_i128(
                    pool.paired_reserves - out,
                ) {
                    Err(Error::Overflow)
                } else {
                    let updated = Pool {
                        credit_reserves: (pool.credit_reserves + amount_in) as i128,
                        paired_reserves: (pool.paired_reserves - out) as i128,
                        ..pool
                    };
                    Ok(
                        (
                            MarketState {
                                pools: self.pools.insert(pool_id, updated),
                                events: self.events.push(
                                    MarketEvent::Swap {
                                        pool_id,
                                        market: self.address,
                                        amount_in,
                                        amount_out: out,
                                    },
                                ),
                                ..self
                            },
                            out,
                        ),
                    )
                },
            }
        }
    }

    /// The outcome of `trader` placing an order that gets the id `id`.
    ///
    /// The sold asset is escrowed first (`amount` credits for a sell,
    /// `amount * price` paired units for a buy); the order then sweeps the
    /// pool's book in price-time priority for its side (the lowest ask first
    /// for a buy, the highest bid first for a sell, earlier orders first
    /// among equal prices), filling against opposite orders that cross its
    /// limit, at their price, the paired side of every fill being paid in
    /// the asset the incoming order names; the book keeps the
    /// ids that still name an order, plus the
    /// new one when it rests; a fully filled taker is refunded what its
    /// escrow did not pay; an unfilled remainder rests on the book.
    pub open spec fn place(
        self,
        ledger: LedgerState,
        auth: Auth,
        trader: Address,
        side: OrderSide,
        amount: i128,
        price: i128,
        pool_id: Bytes32,
        paired_token: Address,
        now: u64,
        id: Bytes32,
    ) -> Result<(MarketState, LedgerState), Error> {
        if amount <= 0 || price <= 0 {
            Err(Error::NonPositiveAmount)
        } else if !self.pools.contains_key(pool_id) {
            Err(Error::PoolNotFound)
        } else if side == OrderSide::Buy && !fits_i128(amount * price) {
            Err(Error::Overflow)
        } else {
            let pool = self.pools[pool_id];
            let escrow: i128 = match side {
                OrderSide::Sell => amount,
                OrderSide::Buy => (amount * price) as i128,
            };
            let escrow_token = match side {
                OrderSide::Sell => pool.credit_token,
                OrderSide::Buy => paired_token,
            };
            match ledger_transfer(ledger, auth, self.address, escrow_token, trader, self.address, escrow) {
                Err(e) => Err(e),
                Ok(l0) => {
                    let taker = Order {
                        id,
                        trader,
                        side,
                        amount,
                        remaining: amount,
                        price,
                        pool_id,
                        paired_token,
                        created_at: now,
                    };
                    let t = Taker {
                        order: taker,
                        credit_token: pool.credit_token,
                        market: self.address,
                        auth,
                    };
                    let b0 = Book {
                        ledger: l0,
                        orders: self.orders,
                        remaining: amount,
                        settled_credits: 0,
                        settled_paired: 0,
                        fills: Seq::empty(),
                    };
                    match sweep(t, by_priority(side, self.book(pool_id)), 0, b0) {
                        Err(e) => Err(e),
                        Ok(b) => {
                            let resting = keep_present(self.ids_of(pool_id), b.orders) + if b.remaining
                                > 0 {
                                seq![id]
                            } else {
                                Seq::empty()
                            };
                            let refund = if b.remaining != 0 {
                                0
                            } else {
                                match side {
                                    OrderSide::Sell => amount - b.settled_credits,
                                    OrderSide::Buy => escrow - b.settled_paired,
                                }
                            };
                            let refunded = if refund > 0 {
                                ledger_transfer(
                                    b.ledger,
                                    auth,
                                    self.address,
                                    escrow_token,
                                    self.address,
                                    trader,
                                    refund as i128,
                                )
                            } else {
                                Ok(b.ledger)
                            };
                            match refunded {
                                Err(e) => Err(e),
                                Ok(l) => Ok(
                                    (
                                        MarketState {
                                            orders: if b.remaining > 0 {
                                                b.orders.insert(
                                                    id,
                                                    Order { remaining: b.remaining, ..taker },
                                                )
                                            } else {
                                                b.orders
                                            },
                                            order_ids: self.order_ids.insert(pool_id, resting),
                                            nonce: (self.nonce + 1) as u32,
                                            events: self.events + b.fills.map_values(
                                                |f: Fill| fill_event(f),
                                            ) + if b.remaining > 0 {
                                                seq![
                                                    MarketEvent::OrderPlaced {
                                                        id,
                                                        trader,
                                                        side,
                                                        remaining: b.remaining,
                                                        price,
                                                    },
                                                ]
                                            } else {
                                                Seq::empty()
                                            },
                                            ..self
                                        },
                                        l,
                                    ),
                                ),
                            }
                        },
                    }
                },
            }
        }
    }

    /// The outcome of `trader` cancelling order `order_id`: its unfilled
    /// escrow (`remaining` credits for a sell, `remaining * price` paired
    /// units for a buy) goes back to the trader and the order leaves the
    /// book.
    pub open spec fn cancel(self, ledger: LedgerState, auth: Auth, trader: Address, order_id: Bytes32) -> Result<
        (MarketState, LedgerState),
        Error,
    > {
        if !self.orders.contains_key(order_id) {
            Err(Error::NotFound)
        } else {
            let o = self.orders[order_id];
            if o.trader != trader {
                Err(Error::Unauthorized)
            } else if o.remaining <= 0 {
                Err(Error::OrderClosed)
            } else if !self.pools.contains_key(o.pool_id) {
                Err(Error::PoolNotFound)
            } else if o.side == OrderSide::Buy && !fits_i128(o.remaining * o.price) {
                Err(Error::Overflow)
            } else {
                let asset = match o.side {
                    OrderSide::Sell => self.pools[o.pool_id].credit_token,
                    OrderSide::Buy => o.paired_token,
                };
                let refund: i128 = match o.side {
                    OrderSide::Sell => o.remaining,
                    OrderSide::Buy => (o.remaining * o.price) as i128,
                };
                match ledger_transfer(ledger, auth, self.address, asset, self.address, trader, refund) {
                    Err(e) => Err(e),
                    Ok(l) => {
                        let orders = self.orders.remove(order_id);
                        Ok(
                            (
                                MarketState {
                                    orders,
                                    order_ids: self.order_ids.insert(
                                        o.pool_id,
                                        keep_present(self.ids_of(o.pool_id), orders),
                                    ),
                                    events: self.events.push(
                                        MarketEvent::OrderCancelled { id: order_id, trader, refund },
                                    ),
                                    ..self
                                },
                                l,
                            ),
                        )
                    },
                }
            }
        }
    }
}

/// The marketplace contract.
pub struct MarketplaceContract {
    address: Address,
    initialized: bool,
    pools: Table<Bytes32, Pool>,
    orders: Table<Bytes32, Order>,
    order_ids: Table<Bytes32, Vec<Bytes32>>,
    nonce: u32,
    events: Vec<MarketEvent>,
}

impl View for MarketplaceContract {
    type V = MarketState;

    closed spec fn view(&self) -> MarketState {
        MarketState {
            address: self.address,
            initialized: self.initialized,
            pools: self.pools@,
            orders: self.orders@,
            order_ids: self.order_ids@.map_values(|v: Vec<Bytes32>| v@),
            nonce: self.nonce,
            events: self.events@,
        }
    }
}

/// The stored orders named by `ids`, in order.
fn collect_orders(orders: &Table<Bytes32, Order>, ids: &Vec<Bytes32>) -> (r: Vec<Order>)
    ensures
        r@ == snapshot(ids@, orders@),
{
    let mut r: Vec<Order> = Vec::new();
    let n = ids.len();
    for i in 0..n
        invariant
            n == ids@.len(),
            r@ == snapshot(ids@.subrange(0, i as int), orders@),
    {
        let id = ids[i];
        assert(ids@.subrange(0, i + 1).drop_last() =~= ids@.subrange(0, i as int));
        match orders.get(&id) {
            Some(o) => {
                r.push(*o);
            },
            None => {},
        }
    }
    assert(ids@.subrange(0, n as int) =~= ids@);
    r
}

/// The ids of `ids` that name a stored order, in order.
fn present_ids(orders: &Table<Bytes32, Order>, ids: &Vec<Bytes32>) -> (r: Vec<Bytes32>)
    ensures
        r@ == keep_present(ids@, orders@),
{
    let mut r: Vec<Bytes32> = Vec::new();
    let n = ids.len();
    for i in 0..n
        invariant
            n == ids@.len(),
            r@ == keep_present(ids@.subrange(0, i as int), orders@),
    {
        let id = ids[i];
        assert(ids@.subrange(0, i + 1).drop_last() =~= ids@.subrange(0, i as int));
        if orders.contains_key(&id) {
            r.push(id);
        }
    }
    assert(ids@.subrange(0, n as int) =~= ids@);
    r
}

impl MarketplaceContract {
    /// A marketplace deployed at `address`, not initialized yet.
    pub fn new(address: Address) -> (r: Self)
        ensures
            r@.address == address,
            !r@.initialized,
            r@.pools == Map::<Bytes32, Pool>::empty(),
            r@.orders == Map::<Bytes32, Order>::empty(),
            r@.order_ids == Map::<Bytes32, Seq<Bytes32>>::empty(),
            r@.nonce == 0,
            r@.events == Seq::<MarketEvent>::empty(),
            r@.wf(),
    {
        let r = MarketplaceContract {
            address,
            initialized: false,
            pools: Table::new(),
            orders: Table::new(),
            order_ids: Table::new(),
            nonce: 0,
            events: Vec::new(),
        };
        assert(r@.order_ids =~= Map::<Bytes32, Seq<Bytes32>>::empty());
        r
    }

    /// The marketplace's own address.
    pub fn address(&self) -> (r: Address)
        ensures
            r == self@.address,
    {
        self.address
    }

    /// Initialize the marketplace. Can only be done once.
    pub fn initialize(&mut self)
        requires
            !old(self)@.initialized,
        ensures
            final(self)@ == (MarketState { initialized: true, ..old(self)@ }),
    {
        self.initialized = true;
        assert(self@.order_ids =~= old(self)@.order_ids);
    }

    /// Whether the marketplace has been initialized.
    pub fn is_initialized(&self) -> (r: bool)
        ensures
            r == self@.initialized,
    {
        self.initialized
    }

    /// Create pool `pool_id` with initial reserves.
    ///
    /// Refused with `NonPositiveAmount` when a reserve is not positive and
    /// with `AlreadyRegistered` when the id is taken.
    pub fn create_pool(
        &mut self,
        pool_id: Bytes32,
        credit_token: Address,
        paired_asset: Symbol,
        initial_credit: i128,
        initial_paired: i128,
    ) -> (r: Result<Pool, Error>)
        requires
            old(self)@.wf(),
        ensures
            final(self)@.wf(),
            match old(self)@.create_pool(
                pool_id,
                credit_token,
                paired_asset,
                initial_credit,
                initial_paired,
            ) {
                Ok((m, p)) => r == Ok::<Pool, Error>(p) && final(self)@ == m,
                Err(e) => r == Err::<Pool, Error>(e) && final(self)@ == old(self)@,
            },
    {
        if initial_credit <= 0 || initial_paired <= 0 {
            return Err(Error::NonPositiveAmount);
        }
        if self.pools.contains_key(&pool_id) {
            return Err(Error::AlreadyRegistered);
        }
        let pool = Pool {
            id: pool_id,
            credit_token,
            paired_asset,
            credit_reserves: initial_credit,
            paired_reserves: initial_paired,
        };
        self.pools.insert(pool_id, pool);
        self.events.push(
            MarketEvent::PoolCreated { pool_id, credit_token, paired_asset, initial_credit, initial_paired },
        );
        assert(self@.order_ids =~= old(self)@.order_ids);
        Ok(pool)
    }

    /// Swap `amount_in` credit tokens through the constant-product pool
    /// `pool_id`, returning the paired amount paid out:
    /// `(paired_reserves * amount_in) / (credit_reserves + amount_in)`.
    ///
    /// Refused with `NonPositiveAmount` for a non-positive input, a quote
    /// below `min_amount_out` or one that rounds to zero; with
    /// `PoolNotFound`; with `Overflow` on arithmetic overflow.
    pub fn swap(&mut self, pool_id: Bytes32, amount_in: i128, min_amount_out: i128) -> (r: Result<
        i128,
        Error,
    >)
        requires
            old(self)@.wf(),
        ensures
            final(self)@.wf(),
            match old(self)@.swap(pool_id, amount_in, min_amount_out) {
                Ok((m, out)) => r == Ok::<i128, Error>(out) && final(self)@ == m,
                Err(e) => r == Err::<i128, Error>(e) && final(self)@ == old(self)@,
            },
    {
        if amount_in <= 0 {
            return Err(Error::NonPositiveAmount);
        }
        let pool = match self.pools.get(&pool_id) {
            Some(p) => *p,
            None => {
                return Err(Error::PoolNotFound);
            },
        };
        let amount_out = match calculate_swap_output(&pool, amount_in) {
            Ok(v) => v,
            Err(e) => {
                return Err(e);
            },
        };
        if amount_out < min_amount_out {
            return Err(Error::NonPositiveAmount);
        }
        let credit_reserves = match pool.credit_reserves.checked_add(amount_in) {
            Some(v) => v,
            None => {
                return Err(Error::Overflow);
            },
        };
        let paired_reserves = match pool.paired_reserves.checked_sub(amount_out) {
            Some(v) => v,
            None => {
                return Err(Error::Overflow);
            },
        };
        proof {
            law_swap_keeps_product(pool.credit_reserves, pool.paired_reserves, amount_in);
        }
        let updated = Pool { credit_reserves, paired_reserves, ..pool };
        self.pools.insert(pool_id, updated);
        let market = self.address;
        self.events.push(MarketEvent::Swap { pool_id, market, amount_in, amount_out });
        assert(self@.order_ids =~= old(self)@.order_ids);
        Ok(amount_out)
    }

    /// The events the marketplace has published, oldest first.
    pub fn events(&self) -> (r: Vec<MarketEvent>)
        ensures
            r@ == self@.events,
    {
        copy_vec(&self.events)
    }

    /// Look up a pool by id; `PoolNotFound` when there is none.
    pub fn get_pool(&self, pool_id: Bytes32) -> (r: Result<Pool, Error>)
        ensures
            match r {
                Ok(p) => self@.pools.contains_key(pool_id) && p == self@.pools[pool_id],
                Err(e) => !self@.pools.contains_key(pool_id) && e == Error::PoolNotFound,
            },
    {
        match self.pools.get(&pool_id) {
            Some(p) => Ok(*p),
            None => Err(Error::PoolNotFound),
        }
    }

    /// Look up a resting order by id; `NotFound` when there is none.
    pub fn get_order(&self, order_id: Bytes32) -> (r: Result<Order, Error>)
        ensures
            match r {
                Ok(o) => self@.orders.contains_key(order_id) && o == self@.orders[order_id],
                Err(e) => !self@.orders.contains_key(order_id) && e == Error::NotFound,
            },
    {
        match self.orders.get(&order_id) {
            Some(o) => Ok(*o),
            None => Err(Error::NotFound),
        }
    }

    /// The ordered list of resting order ids of a pool.
    fn load_order_ids(&self, pool_id: &Bytes32) -> (r: Vec<Bytes32>)
        ensures
            r@ == self@.ids_of(*pool_id),
    {
        match self.order_ids.get(pool_id) {
            Some(v) => copy_vec(v),
            None => Vec::new(),
        }
    }

    /// All resting orders of a pool, in book order.
    pub fn get_orders(&self, pool_id: Bytes32) -> (r: Vec<Order>)
        ensures
            r@ == self@.book(pool_id),
    {
        let ids = self.load_order_ids(&pool_id);
        collect_orders(&self.orders, &ids)
    }

    /// The id the next order with these attributes gets.
    fn next_order_id(
        &self,
        trader: Address,
        side: OrderSide,
        amount: i128,
        price: i128,
        ledger: LedgerInfo,
    ) -> (r: Bytes32)
        requires
            amount > 0,
            price > 0,
        ensures
            r == order_id_for(trader, side, amount, price, ledger, self@.nonce),
    {
        let mut preimage: Vec<u8> = Vec::new();
        push_be_bytes(&mut preimage, trader as u128, 8);
        let side_bit: u128 = match side {
            OrderSide::Buy => 0,
            OrderSide::Sell => 1,
        };
        push_be_bytes(&mut preimage, side_bit, 4);
        push_be_bytes(&mut preimage, amount as u128, 16);
        push_be_bytes(&mut preimage, price as u128, 16);
        push_be_bytes(&mut preimage, ledger.sequence as u128, 4);
        push_be_bytes(&mut preimage, ledger.timestamp as u128, 8);
        push_be_bytes(&mut preimage, self.nonce as u128, 4);
        proof {
            assert(preimage@ =~= order_id_preimage(trader, side, amount, price, ledger, self@.nonce));
        }
        let id = keccak256(&preimage);
        proof {
            lemma_bytes32_of(id);
        }
        id
    }

    /// Place a limit order against a pool's book, returning its id.
    ///
    /// The sold asset is escrowed to the marketplace: `amount` credit tokens
    /// for a sell, `amount * price` paired units for a buy. The order then
    /// sweeps the resting orders of the opposite side whose price crosses,
    /// paying the paired side of each fill in `paired_token`, in price-time
    /// priority (lowest
    /// ask first for a buy, highest bid first for a sell, earlier first among
    /// equal prices), filling each at the resting (maker) price; an unfilled
    /// remainder rests on the book, and a fully filled buy is refunded the
    /// escrow the fills did not use. Each fill, and the resting remainder,
    /// is published. The id is derived from the order's attributes, the
    /// ledger and the marketplace's order counter.
    ///
    /// The trader is never the marketplace itself: placing an order needs
    /// the trader's authorization, and a contract can only authorize calls
    /// it makes, while the host refuses a contract calling back into itself.
    ///
    /// Refused with `NonPositiveAmount` (amount or price not positive),
    /// `PoolNotFound`, `Overflow`, or `InsufficientBalance` when an escrow
    /// transfer or payout fails; a refused order changes nothing.
    pub fn place_limit_order(
        &mut self,
        tokens: &mut TokenLedger,
        auth: &Auth,
        trader: Address,
        side: OrderSide,
        amount: i128,
        price: i128,
        pool_id: Bytes32,
        paired_token: Address,
        ledger: LedgerInfo,
    ) -> (r: Result<Bytes32, Error>)
        requires
            old(self)@.wf(),
            old(self)@.nonce < u32::MAX,
            trader != old(self)@.address,
            amount > 0 && price > 0 ==> auth.allows(trader),
        ensures
            final(self)@.wf(),
            match old(self)@.place(
                old(tokens)@,
                *auth,
                trader,
                side,
                amount,
                price,
                pool_id,
                paired_token,
                ledger.timestamp,
                order_id_for(trader, side, amount, price, ledger, old(self)@.nonce),
            ) {
                Ok((m, l)) => r == Ok::<Bytes32, Error>(
                    order_id_for(trader, side, amount, price, ledger, old(self)@.nonce),
                ) && final(self)@ == m && final(tokens)@ == l,
                Err(e) => r == Err::<Bytes32, Error>(e) && final(self)@ == old(self)@
                    && final(tokens)@ == old(tokens)@,
            },
    {
        if amount <= 0 || price <= 0 {
            return Err(Error::NonPositiveAmount);
        }
        let id = self.next_order_id(trader, side, amount, price, ledger);
        self.place_limit_order_with_id(
            tokens,
            auth,
            trader,
            side,
            amount,
            price,
            pool_id,
            paired_token,
            ledger.timestamp,
            id,
        )
    }

    /// Place a limit order whose id is `id`: everything
    /// `place_limit_order` does once the id has been derived.
    #[verifier::loop_isolation(false)]
    #[verifier::rlimit(60)]
    pub fn place_limit_order_with_id(
        &mut self,
        tokens: &mut TokenLedger,
        auth: &Auth,
        trader: Address,
        side: OrderSide,
        amount: i128,
        price: i128,
        pool_id: Bytes32,
        paired_token: Address,
        now: u64,
        id: Bytes32,
    ) -> (r: Result<Bytes32, Error>)
        requires
            old(self)@.wf(),
            old(self)@.nonce < u32::MAX,
            trader != old(self)@.address,
            amount > 0 && price > 0 ==> auth.allows(trader),
        ensures
            final(self)@.wf(),
            match old(self)@.place(
                old(tokens)@,
                *auth,
                trader,
                side,
                amount,
                price,
                pool_id,
                paired_token,
                now,
                id,
            ) {
                Ok((m, l)) => r == Ok::<Bytes32, Error>(id) && final(self)@ == m && final(tokens)@
                    == l,
                Err(e) => r == Err::<Bytes32, Error>(e) && final(self)@ == old(self)@
                    && final(tokens)@ == old(tokens)@,
            },
    {
        if amount <= 0 || price <= 0 {
            return Err(Error::NonPositiveAmount);
        }
        let pool = match self.pools.get(&pool_id) {
            Some(p) => *p,
            None => {
                return Err(Error::PoolNotFound);
            },
        };
        let escrow_amount = match side {
            OrderSide::Sell => amount,
            OrderSide::Buy => match amount.checked_mul(price) {
                Some(v) => v,
                None => {
                    return Err(Error::Overflow);
                },
            },
        };
        let escrow_token = match side {
            OrderSide::Sell => pool.credit_token,
            OrderSide::Buy => paired_token,
        };
        let market = self.address;
        let mut work = tokens.duplicate();
        match work.transfer(auth, market, escrow_token, trader, market, escrow_amount) {
            Ok(()) => {},
            Err(e) => {
                return Err(e);
            },
        }
        let taker = Order {
            id,
            trader,
            side,
            amount,
            remaining: amount,
            price,
            pool_id,
            paired_token,
            created_at: now,
        };
        let ids = self.load_order_ids(&pool_id);
        let book = collect_orders(&self.orders, &ids);
        let makers = sort_by_priority(&side, &book);
        let mut orders = self.orders.duplicate();
        let ghost t = Taker { order: taker, credit_token: pool.credit_token, market, auth: *auth };
        let ghost b_start = Book {
            ledger: work@,
            orders: orders@,
            remaining: amount,
            settled_credits: 0,
            settled_paired: 0,
            fills: Seq::empty(),
        };
        let ghost deployed = work@.contains_key(paired_token);
        let ghost cap: int = if deployed {
            work@[paired_token].balance(market) as int
        } else {
            0
        };
        let mut remaining = amount;
        let mut settled_credits: i128 = 0;
        let mut settled_paired: i128 = 0;
        let mut fills: Vec<Fill> = Vec::new();
        proof {
            lemma_snapshot_stored(ids@, self@.orders);
            lemma_by_priority(side, book@);
            assert forall|k: int|
                #![trigger makers@[k]]
                0 <= k < makers@.len() implies exists|key: Bytes32|
                    self@.orders.contains_key(key) && self@.orders[key] == makers@[k] by {
                assert(book@.contains(makers@[k]));
                let j = choose|j: int| 0 <= j < book@.len() && book@[j] == makers@[k];
                assert(exists|key: Bytes32|
                    self@.orders.contains_key(key) && self@.orders[key] == book@[j]);
            }
        }
        let n = makers.len();
        let mut i: usize = 0;
        while i < n && remaining != 0
            invariant
                n == makers@.len(),
                i <= n,
                makers@ == by_priority(side, snapshot(ids@, self@.orders)),
                self@ == old(self)@,
                ids@ == self@.ids_of(pool_id),
                self@.pools.contains_key(pool_id),
                pool == self@.pools[pool_id],
                self@.wf(),
                market == self@.address,
                trader != market,
                t == (Taker { order: taker, credit_token: pool.credit_token, market, auth: *auth }),
                taker.side == side,
                taker.price == price,
                taker.trader == trader,
                taker.paired_token == paired_token,
                taker.id == id,
                forall|k: int|
                    #![trigger makers@[k]]
                    0 <= k < makers@.len() ==> exists|key: Bytes32|
                        self@.orders.contains_key(key) && self@.orders[key] == makers@[k],
                sweep(t, makers@, 0, b_start) == sweep(
                    t,
                    makers@,
                    i as int,
                    Book {
                        ledger: work@,
                        orders: orders@,
                        remaining,
                        settled_credits: settled_credits as int,
                        settled_paired: settled_paired as int,
                        fills: fills@,
                    },
                ),
                0 <= remaining <= amount,
                settled_credits == amount - remaining,
                settled_paired >= 0,
                work@.dom() == b_start.ledger.dom(),
                deployed == work@.contains_key(paired_token),
                cap <= i128::MAX,
                deployed ==> settled_paired + work@[paired_token].balance(market) <= cap,
                !deployed ==> settled_paired == 0,
                forall|k: Bytes32|
                    #[trigger] orders@.contains_key(k) ==> resting_order(orders@[k], k, market),
            decreases n - i,
        {
            let maker = makers[i];
            let ghost cur = Book {
                ledger: work@,
                orders: orders@,
                remaining,
                settled_credits: settled_credits as int,
                settled_paired: settled_paired as int,
                fills: fills@,
            };
            proof {
                let key = choose|key: Bytes32|
                    self@.orders.contains_key(key) && self@.orders[key] == makers@[i as int];
                assert(resting_order(maker, key, market));
            }
            if maker.side != side && crosses(&side, maker.price, price) {
                let qty = if maker.remaining < remaining {
                    maker.remaining
                } else {
                    remaining
                };
                let paid = match qty.checked_mul(maker.price) {
                    Some(v) => v,
                    None => {
                        return Err(Error::Overflow);
                    },
                };
                let credit_to = match side {
                    OrderSide::Buy => trader,
                    OrderSide::Sell => maker.trader,
                };
                let paired_to = match side {
                    OrderSide::Buy => maker.trader,
                    OrderSide::Sell => trader,
                };
                let ghost l_before = work@;
                match work.transfer(auth, market, pool.credit_token, market, credit_to, qty) {
                    Ok(()) => {},
                    Err(e) => {
                        return Err(e);
                    },
                }
                let ghost l_mid = work@;
                match work.transfer(auth, market, paired_token, market, paired_to, paid) {
                    Ok(()) => {},
                    Err(e) => {
                        return Err(e);
                    },
                }
                proof {
                    lemma_ledger_transfer_effect(
                        l_before,
                        *auth,
                        market,
                        pool.credit_token,
                        market,
                        credit_to,
                        qty,
                    );
                    lemma_ledger_transfer_effect(
                        l_mid,
                        *auth,
                        market,
                        paired_token,
                        market,
                        paired_to,
                        paid,
                    );
                    if pool.credit_token == paired_token {
                        assert(l_mid[paired_token].balance(market) == l_before[paired_token].balance(
                            market,
                        ) - qty);
                    } else {
                        assert(l_mid[paired_token] == l_before[paired_token]);
                    }
                }
                let left = maker.remaining - qty;
                if left == 0 {
                    orders.remove(&maker.id);
                } else {
                    orders.insert(maker.id, Order { remaining: left, ..maker });
                }
                remaining = remaining - qty;
                settled_credits = settled_credits + qty;
                settled_paired = settled_paired + paid;
                fills.push(Fill { maker_id: maker.id, taker_id: id, credits: qty, paired: paid });
                proof {
                    assert(fill_step(t, maker, cur) == Ok::<Book, Error>(
                        Book {
                            ledger: work@,
                            orders: orders@,
                            remaining,
                            settled_credits: settled_credits as int,
                            settled_paired: settled_paired as int,
                            fills: fills@,
                        },
                    ));
                }
            }
            i = i + 1;
        }
        let ghost b_end = Book {
            ledger: work@,
            orders: orders@,
            remaining,
            settled_credits: settled_credits as int,
            settled_paired: settled_paired as int,
            fills: fills@,
        };
        assert(sweep(t, makers@, 0, b_start) == Ok::<Book, Error>(b_end));
        let mut resting = present_ids(&orders, &ids);
        if remaining > 0 {
            resting.push(id);
        }
        let ghost resting_seq = keep_present(old(self)@.ids_of(pool_id), b_end.orders) + if remaining
            > 0 {
            seq![id]
        } else {
            Seq::empty()
        };
        assert(resting@ =~= resting_seq);
        if remaining == 0 {
            let refund = match side {
                OrderSide::Sell => amount - settled_credits,
                OrderSide::Buy => escrow_amount - settled_paired,
            };
            if refund > 0 {
                match work.transfer(auth, market, escrow_token, market, trader, refund) {
                    Ok(()) => {},
                    Err(e) => {
                        return Err(e);
                    },
                }
            }
        }
        if remaining > 0 {
            orders.insert(id, Order { remaining, ..taker });
        }
        let mut published: Vec<MarketEvent> = Vec::new();
        let nf = fills.len();
        for j in 0..nf
            invariant
                nf == fills@.len(),
                published@ == fills@.take(j as int).map_values(|f: Fill| fill_event(f)),
        {
            let f = fills[j];
            published.push(
                MarketEvent::OrderFilled {
                    maker_id: f.maker_id,
                    taker_id: f.taker_id,
                    credits: f.credits,
                    paired: f.paired,
                },
            );
            assert(fills@.take(j + 1).map_values(|f: Fill| fill_event(f)) =~= fills@.take(
                j as int,
            ).map_values(|f: Fill| fill_event(f)).push(fill_event(fills@[j as int])));
        }
        assert(fills@.take(nf as int) =~= fills@);
        if remaining > 0 {
            published.push(MarketEvent::OrderPlaced { id, trader, side, remaining, price });
        }
        self.orders = orders;
        self.order_ids.insert(pool_id, resting);
        self.nonce = self.nonce + 1;
        self.events.append(&mut published);
        *tokens = work;
        proof {
            assert(self@.order_ids =~= old(self)@.order_ids.insert(pool_id, resting_seq));
            assert(self@.events =~= old(self)@.events + b_end.fills.map_values(|f: Fill| fill_event(f))
                + if b_end.remaining > 0 {
                seq![
                    MarketEvent::OrderPlaced {
                        id,
                        trader,
                        side,
                        remaining: b_end.remaining,
                        price,
                    },
                ]
            } else {
                Seq::<MarketEvent>::empty()
            });
        }
        Ok(id)
    }

    /// Cancel a resting order and refund its escrow to the trader; needs the
    /// trader's authorization.
    ///
    /// Refused with `NotFound` (no such order), `Unauthorized` (not the
    /// trader's order), `OrderClosed` (nothing left), `PoolNotFound`,
    /// `Overflow`, or `InsufficientBalance` when the refund fails.
    pub fn cancel_order(
        &mut self,
        tokens: &mut TokenLedger,
        auth: &Auth,
        trader: Address,
        order_id: Bytes32,
    ) -> (r: Result<(), Error>)
        requires
            old(self)@.wf(),
            auth.allows(trader),
        ensures
            final(self)@.wf(),
            match old(self)@.cancel(old(tokens)@, *auth, trader, order_id) {
                Ok((m, l)) => r is Ok && final(self)@ == m && final(tokens)@ == l,
                Err(e) => r == Err::<(), Error>(e) && final(self)@ == old(self)@ && final(tokens)@
                    == old(tokens)@,
            },
    {
        let order = match self.orders.get(&order_id) {
            Some(o) => *o,
            None => {
                return Err(Error::NotFound);
            },
        };
        if order.trader != trader {
            return Err(Error::Unauthorized);
        }
        if order.remaining <= 0 {
            return Err(Error::OrderClosed);
        }
        let pool = match self.pools.get(&order.pool_id) {
            Some(p) => *p,
            None => {
                return Err(Error::PoolNotFound);
            },
        };
        let refund_asset = match order.side {
            OrderSide::Sell => pool.credit_token,
            OrderSide::Buy => order.paired_token,
        };
        let refund_amount = match order.side {
            OrderSide::Sell => order.remaining,
            OrderSide::Buy => match order.remaining.checked_mul(order.price) {
                Some(v) => v,
                None => {
                    return Err(Error::Overflow);
                },
            },
        };
        let market = self.address;
        match tokens.transfer(auth, market, refund_asset, market, trader, refund_amount) {
            Ok(()) => {},
            Err(e) => {
                return Err(e);
            },
        }
        self.orders.remove(&order_id);
        let ids = self.load_order_ids(&order.pool_id);
        let ids_out = present_ids(&self.orders, &ids);
        self.order_ids.insert(order.pool_id, ids_out);
        self.events.push(MarketEvent::OrderCancelled { id: order_id, trader, refund: refund_amount });
        proof {
            assert(self@.order_ids =~= old(self)@.order_ids.insert(
                order.pool_id,
                keep_present(old(self)@.ids_of(order.pool_id), self@.orders),
            ));
        }
        Ok(())
    }
}

/// Placing an order mints and burns nothing: escrow, fills and refund only
/// move tokens between holders, so every token's total supply is what it
/// was, and no token is deployed or removed.
pub proof fn law_place_keeps_supplies(
    m: MarketState,
    ledger: LedgerState,
    auth: Auth,
    trader: Address,
    side: OrderSide,
    amount: i128,
    price: i128,
    pool_id: Bytes32,
    paired_token: Address,
    now: u64,
    id: Bytes32,
)
    requires
        m.place(ledger, auth, trader, side, amount, price, pool_id, paired_token, now, id) is Ok,
    ensures
        ({
            let l = m.place(ledger, auth, trader, side, amount, price, pool_id, paired_token, now, id)->Ok_0.1;
            &&& l.dom() == ledger.dom()
            &&& forall|w: Address| #[trigger] ledger.contains_key(w) ==> l[w].total_supply
                == ledger[w].total_supply
        }),
{
    let pool = m.pools[pool_id];
    let escrow: i128 = match side {
        OrderSide::Sell => amount,
        OrderSide::Buy => (amount * price) as i128,
    };
    let escrow_token = match side {
        OrderSide::Sell => pool.credit_token,
        OrderSide::Buy => paired_token,
    };
    law_ledger_transfer_keeps_supplies(ledger, auth, m.address, escrow_token, trader, m.address, escrow);
    let l0 = ledger_transfer(ledger, auth, m.address, escrow_token, trader, m.address, escrow)->Ok_0;
    let taker = Order {
        id,
        trader,
        side,
        amount,
        remaining: amount,
        price,
        pool_id,
        paired_token,
        created_at: now,
    };
    let t = Taker { order: taker, credit_token: pool.credit_token, market: m.address, auth };
    let b0 = Book {
        ledger: l0,
        orders: m.orders,
        remaining: amount,
        settled_credits: 0,
        settled_paired: 0,
        fills: Seq::empty(),
    };
    law_sweep_keeps_supplies(t, by_priority(side, m.book(pool_id)), 0, b0);
    let b = sweep(t, by_priority(side, m.book(pool_id)), 0, b0)->Ok_0;
    let refund = if b.remaining != 0 {
        0
    } else {
        match side {
            OrderSide::Sell => amount - b.settled_credits,
            OrderSide::Buy => escrow - b.settled_paired,
        }
    };
    if refund > 0 {
        law_ledger_transfer_keeps_supplies(
            b.ledger,
            auth,
            m.address,
            escrow_token,
            m.address,
            trader,
            refund as i128,
        );
    }
}

/// Cancelling an order hands its unfilled escrow back, exactly: the trader
/// receives `remaining` credits (a sell) or `remaining * price` of the
/// paired asset (a buy) out of the marketplace's balance, no other balance
/// of that asset and no supply moves, and the order is gone.
pub proof fn law_cancel_refunds_unfilled_escrow(
    m: MarketState,
    ledger: LedgerState,
    auth: Auth,
    trader: Address,
    order_id: Bytes32,
)
    requires
        m.wf(),
        m.cancel(ledger, auth, trader, order_id) is Ok,
    ensures
        ({
            let o = m.orders[order_id];
            let asset = match o.side {
                OrderSide::Sell => m.pools[o.pool_id].credit_token,
                OrderSide::Buy => o.paired_token,
            };
            let refund = match o.side {
                OrderSide::Sell => o.remaining as int,
                OrderSide::Buy => o.remaining * o.price,
            };
            let (m2, l) = m.cancel(ledger, auth, trader, order_id)->Ok_0;
            &&& o.trader == trader
            &&& !m2.orders.contains_key(order_id)
            &&& m2.pools == m.pools
            &&& refund > 0
            &&& l[asset].balance(trader) == ledger[asset].balance(trader) + refund
            &&& l[asset].balance(m.address) == ledger[asset].balance(m.address) - refund
            &&& forall|h: Address|
                h != trader && h != m.address ==> #[trigger] l[asset].balance(h) == ledger[asset].balance(h)
            &&& l.dom() == ledger.dom()
            &&& forall|w: Address| #[trigger] ledger.contains_key(w) ==> l[w].total_supply
                == ledger[w].total_supply
        }),
{
    let o = m.orders[order_id];
    let asset = match o.side {
        OrderSide::Sell => m.pools[o.pool_id].credit_token,
        OrderSide::Buy => o.paired_token,
    };
    let refund: i128 = match o.side {
        OrderSide::Sell => o.remaining,
        OrderSide::Buy => (o.remaining * o.price) as i128,
    };
    assert(resting_order(o, order_id, m.address));
    if o.side == OrderSide::Buy {
        assert(o.remaining * o.price > 0) by (nonlinear_arith)
            requires
                o.remaining > 0,
                o.price > 0,
        ;
    }
    lemma_ledger_transfer_effect(ledger, auth, m.address, asset, m.address, trader, refund);
    law_ledger_transfer_keeps_supplies(ledger, auth, m.address, asset, m.address, trader, refund);
}

/// A swap on a well-formed marketplace pays out at least the asked-for
/// minimum, takes the credits into the pool and the payout out of it, and
/// never lowers the product of the pool's reserves.
pub proof fn law_swap_never_lowers_product(m: MarketState, pool_id: Bytes32, amount_in: i128, min_amount_out: i128)
    requires
        m.wf(),
        m.swap(pool_id, amount_in, min_amount_out) is Ok,
    ensures
        ({
            let (m2, out) = m.swap(pool_id, amount_in, min_amount_out)->Ok_0;
            let before = m.pools[pool_id];
            let after = m2.pools[pool_id];
            &&& out >= min_amount_out
            &&& after.credit_reserves == before.credit_reserves + amount_in
            &&& after.paired_reserves == before.paired_reserves - out
            &&& after.credit_reserves * after.paired_reserves >= before.credit_reserves
                * before.paired_reserves
        }),
{
    let pool = m.pools[pool_id];
    law_swap_keeps_product(pool.credit_reserves, pool.paired_reserves, amount_in);
}

/// A pool id is created once: the new pool holds the initial reserves it was
/// given, to be read back unchanged, and a second creation under the same id
/// is refused with `AlreadyRegistered`.
pub proof fn law_pool_created_once(
    m: MarketState,
    pool_id: Bytes32,
    credit_token: Address,
    paired_asset: Symbol,
    initial_credit: i128,
    initial_paired: i128,
)
    requires
        m.create_pool(pool_id, credit_token, paired_asset, initial_credit, initial_paired) is Ok,
    ensures
        ({
            let (m2, pool) = m.create_pool(pool_id, credit_token, paired_asset, initial_credit, initial_paired)->Ok_0;
            &&& m2.pools[pool_id] == pool
            &&& pool.credit_reserves == initial_credit && pool.paired_reserves == initial_paired
            &&& m2.create_pool(pool_id, credit_token, paired_asset, initial_credit, initial_paired)
                == Err::<(MarketState, Pool), Error>(Error::AlreadyRegistered)
        }),
{
}

/// Order ids are digests of preimages that end in the marketplace's order
/// counter, which every placed order advances: orders placed under different
/// counter values, even with identical attributes in the same ledger, have
/// different preimages, so their ids can coincide only where Keccak-256
/// collides.
pub proof fn law_order_preimages_differ(
    trader1: Address,
    side1: OrderSide,
    amount1: i128,
    price1: i128,
    ledger1: LedgerInfo,
    nonce1: u32,
    trader2: Address,
    side2: OrderSide,
    amount2: i128,
    price2: i128,
    ledger2: LedgerInfo,
    nonce2: u32,
)
    requires
        nonce1 != nonce2,
    ensures
        order_id_preimage(trader1, side1, amount1, price1, ledger1, nonce1) != order_id_preimage(
            trader2,
            side2,
            amount2,
            price2,
            ledger2,
            nonce2,
        ),
{
    let pre1 = order_id_preimage(trader1, side1, amount1, price1, ledger1, nonce1);
    let pre2 = order_id_preimage(trader2, side2, amount2, price2, ledger2, nonce2);
    let head1 = be_bytes(trader1 as nat, 8) + be_bytes(side_bit(side1), 4) + be_bytes(amount1 as nat, 16)
        + be_bytes(price1 as nat, 16) + be_bytes(ledger1.sequence as nat, 4) + be_bytes(
        ledger1.timestamp as nat,
        8,
    );
    let head2 = be_bytes(trader2 as nat, 8) + be_bytes(side_bit(side2), 4) + be_bytes(amount2 as nat, 16)
        + be_bytes(price2 as nat, 16) + be_bytes(ledger2.sequence as nat, 4) + be_bytes(
        ledger2.timestamp as nat,
        8,
    );
    lemma_be_bytes_len(trader1 as nat, 8);
    lemma_be_bytes_len(side_bit(side1), 4);
    lemma_be_bytes_len(amount1 as nat, 16);
    lemma_be_bytes_len(price1 as nat, 16);
    lemma_be_bytes_len(ledger1.sequence as nat, 4);
    lemma_be_bytes_len(ledger1.timestamp as nat, 8);
    lemma_be_bytes_len(nonce1 as nat, 4);
    lemma_be_bytes_len(trader2 as nat, 8);
    lemma_be_bytes_len(side_bit(side2), 4);
    lemma_be_bytes_len(amount2 as nat, 16);
    lemma_be_bytes_len(price2 as nat, 16);
    lemma_be_bytes_len(ledger2.sequence as nat, 4);
    lemma_be_bytes_len(ledger2.timestamp as nat, 8);
    lemma_be_bytes_len(nonce2 as nat, 4);
    assert(head1.len() == 56 && head2.len() == 56);
    assert(pre1 == head1 + be_bytes(nonce1 as nat, 4));
    assert(pre2 == head2 + be_bytes(nonce2 as nat, 4));
    assert(pre1.subrange(56, 60) =~= be_bytes(nonce1 as nat, 4));
    assert(pre2.subrange(56, 60) =~= be_bytes(nonce2 as nat, 4));
    if pre1 == pre2 {
        assert(pow256(4) == 0x1_0000_0000) by {
            reveal_with_fuel(pow256, 5);
        }
        lemma_be_bytes_injective(nonce1 as nat, nonce2 as nat, 4);
    }
}

} // verus!
