//! The marketplace's book invariants: what its resting orders have in
//! escrow and the tokens it holds to cover it, the consistency of the
//! per-pool books, and that no book is left crossed.

use vstd::prelude::*;

use crate::common::{Address, Bytes32, OrderSide};
use crate::marketplace::{MarketState, Pool};
use crate::orderbook::{
    by_priority, distinct_ids, fill_step, fills_against, keep_present, law_sweep_fills_within_limit,
    lemma_by_priority, snapshot, sweep, Book, Order, Taker,
};
use crate::sums::{lemma_sum_over_agree, lemma_sum_over_insert, lemma_sum_over_remove, sum_over};
use crate::token::{ledger_transfer, lemma_ledger_transfer_effect, LedgerState};

verus! {

/// What `o` keeps in escrow in the token at `w`: its unfilled quantity of
/// its pool's credit token for a sell, its unfilled quantity times its
/// price of its paired asset for a buy.
pub open spec fn order_owes(pools: Map<Bytes32, Pool>, o: Order, w: Address) -> int {
    (if o.side == OrderSide::Sell && pools.contains_key(o.pool_id) && pools[o.pool_id].credit_token
        == w {
        o.remaining as int
    } else {
        0
    }) + (if o.side == OrderSide::Buy && o.paired_token == w {
        o.remaining * o.price
    } else {
        0
    })
}

/// What the orders in `orders` keep in escrow, together, in the token at `w`.
pub open spec fn owed(pools: Map<Bytes32, Pool>, orders: Map<Bytes32, Order>, w: Address) -> int {
    sum_over(orders.dom(), |k: Bytes32| order_owes(pools, orders[k], w))
}

/// What `holder` holds of the token at `w`; nothing when no such token is
/// deployed.
pub open spec fn holds(ledger: LedgerState, holder: Address, w: Address) -> int {
    if ledger.contains_key(w) {
        ledger[w].balance(holder) as int
    } else {
        0
    }
}

/// What is left, in the token at `w`, of the escrow the taker paid in.
pub open spec fn taker_left(t: Taker, b: Book, w: Address) -> int {
    match t.order.side {
        OrderSide::Sell => if t.credit_token == w {
            t.order.amount - b.settled_credits
        } else {
            0
        },
        OrderSide::Buy => if t.order.paired_token == w {
            t.order.amount * t.order.price - b.settled_paired
        } else {
            0
        },
    }
}

/// What the marketplace holds in the token at `w` beyond the escrow of the
/// resting orders and of the taker.
pub open spec fn slack(t: Taker, pools: Map<Bytes32, Pool>, b: Book, w: Address) -> int {
    holds(b.ledger, t.market, w) - owed(pools, b.orders, w) - taker_left(t, b, w)
}

/// Replacing the order under `k` changes what the orders owe by the
/// difference between the two orders.
proof fn lemma_owed_update(
    pools: Map<Bytes32, Pool>,
    orders: Map<Bytes32, Order>,
    k: Bytes32,
    o: Order,
    w: Address,
)
    requires
        orders.dom().finite(),
        orders.contains_key(k),
    ensures
        owed(pools, orders.insert(k, o), w) == owed(pools, orders, w) - order_owes(pools, orders[k], w)
            + order_owes(pools, o, w),
{
    let o2 = orders.insert(k, o);
    let f1 = |x: Bytes32| order_owes(pools, orders[x], w);
    let f2 = |x: Bytes32| order_owes(pools, o2[x], w);
    assert(o2.dom() =~= orders.dom());
    lemma_sum_over_remove(orders.dom(), f1, k);
    lemma_sum_over_remove(orders.dom(), f2, k);
    lemma_sum_over_agree(orders.dom().remove(k), f1, f2);
}

/// Removing the order under `k` takes what it owes out of what the orders
/// owe.
proof fn lemma_owed_remove(pools: Map<Bytes32, Pool>, orders: Map<Bytes32, Order>, k: Bytes32, w: Address)
    requires
        orders.dom().finite(),
        orders.contains_key(k),
    ensures
        owed(pools, orders.remove(k), w) == owed(pools, orders, w) - order_owes(pools, orders[k], w),
{
    let o2 = orders.remove(k);
    let f1 = |x: Bytes32| order_owes(pools, orders[x], w);
    let f2 = |x: Bytes32| order_owes(pools, o2[x], w);
    assert(o2.dom() =~= orders.dom().remove(k));
    lemma_sum_over_remove(orders.dom(), f1, k);
    lemma_sum_over_agree(orders.dom().remove(k), f1, f2);
}

/// A fill against a resting order of the taker's pool, stored as it was
/// snapshot, leaves the marketplace's slack in every token as it was, as
/// long as a resting buy it fills escrowed the taker's paired asset.
proof fn lemma_fill_keeps_slack(
    t: Taker,
    pools: Map<Bytes32, Pool>,
    maker: Order,
    b: Book,
    w: Address,
)
    requires
        fill_step(t, maker, b) is Ok,
        b.orders.dom().finite(),
        b.orders.contains_key(maker.id),
        b.orders[maker.id] == maker,
        fills_against(t, maker),
        maker.remaining > 0,
        maker.price > 0,
        b.remaining > 0,
        maker.trader != t.market,
        t.order.trader != t.market,
        pools.contains_key(maker.pool_id),
        pools[maker.pool_id].credit_token == t.credit_token,
    ensures
        (maker.side == OrderSide::Buy ==> maker.paired_token == t.order.paired_token) ==> slack(
            t,
            pools,
            fill_step(t, maker, b)->Ok_0,
            w,
        ) == slack(t, pools, b, w),
        fill_step(t, maker, b)->Ok_0.orders.dom().finite(),
{
    let b2 = fill_step(t, maker, b)->Ok_0;
    let qty: i128 = if maker.remaining < b.remaining {
        maker.remaining
    } else {
        b.remaining
    };
    let paid = qty * maker.price;
    let credit_to = match t.order.side {
        OrderSide::Buy => t.order.trader,
        OrderSide::Sell => maker.trader,
    };
    let paired_to = match t.order.side {
        OrderSide::Buy => maker.trader,
        OrderSide::Sell => t.order.trader,
    };
    let l1 = ledger_transfer(b.ledger, t.auth, t.market, t.credit_token, t.market, credit_to, qty)->Ok_0;
    lemma_ledger_transfer_effect(b.ledger, t.auth, t.market, t.credit_token, t.market, credit_to, qty);
    lemma_ledger_transfer_effect(
        l1,
        t.auth,
        t.market,
        t.order.paired_token,
        t.market,
        paired_to,
        paid as i128,
    );
    let left = (maker.remaining - qty) as i128;
    let updated = Order { remaining: left, ..maker };
    if left == 0 {
        lemma_owed_remove(pools, b.orders, maker.id, w);
        assert(order_owes(pools, updated, w) == 0) by {
            assert(0 * maker.price == 0);
        }
    } else {
        lemma_owed_update(pools, b.orders, maker.id, updated, w);
    }
    assert((maker.remaining - qty) * maker.price == maker.remaining * maker.price - qty * maker.price)
        by (nonlinear_arith);
}

/// The resting orders `makers[i..]` a sweep is still to visit are stored in
/// `orders` as they were snapshot, under distinct ids; they are valid resting
/// orders of the taker's pool, with its credit token, placed by someone
/// other than the marketplace.
pub open spec fn makers_intact(
    t: Taker,
    pools: Map<Bytes32, Pool>,
    makers: Seq<Order>,
    i: int,
    orders: Map<Bytes32, Order>,
) -> bool {
    &&& forall|j: int|
        #![trigger makers[j]]
        i <= j < makers.len() ==> {
            &&& orders.contains_key(makers[j].id)
            &&& orders[makers[j].id] == makers[j]
            &&& makers[j].remaining > 0
            &&& makers[j].price > 0
            &&& makers[j].trader != t.market
            &&& makers[j].pool_id == t.order.pool_id
            &&& pools.contains_key(makers[j].pool_id)
            &&& pools[makers[j].pool_id].credit_token == t.credit_token
        }
    &&& forall|j1: int, j2: int|
        #![trigger makers[j1], makers[j2]]
        i <= j1 < j2 < makers.len() ==> makers[j1].id != makers[j2].id
}

/// Whether the resting buys among `makers[i..]` escrowed the taker's paired
/// asset.
pub open spec fn buys_pay_in_taker_asset(t: Taker, makers: Seq<Order>, i: int) -> bool {
    forall|j: int|
        i <= j < makers.len() && (#[trigger] makers[j]).side == OrderSide::Buy
            ==> makers[j].paired_token == t.order.paired_token
}

/// A sweep over intact resting orders leaves the marketplace's slack in
/// every token as it was when the resting buys it may fill escrowed the
/// taker's paired asset, keeps the pool of every order it leaves stored,
/// and leaves the orders of other pools alone.
proof fn lemma_sweep_keeps_slack(
    t: Taker,
    pools: Map<Bytes32, Pool>,
    makers: Seq<Order>,
    i: int,
    b: Book,
    w: Address,
)
    requires
        sweep(t, makers, i, b) is Ok,
        0 <= i,
        b.orders.dom().finite(),
        b.remaining >= 0,
        t.order.trader != t.market,
        makers_intact(t, pools, makers, i, b.orders),
    ensures
        buys_pay_in_taker_asset(t, makers, i) ==> slack(t, pools, sweep(t, makers, i, b)->Ok_0, w)
            == slack(t, pools, b, w),
        sweep(t, makers, i, b)->Ok_0.orders.dom().finite(),
        forall|k: Bytes32| #[trigger]
            sweep(t, makers, i, b)->Ok_0.orders.contains_key(k) ==> b.orders.contains_key(k)
                && sweep(t, makers, i, b)->Ok_0.orders[k] == (Order {
                remaining: sweep(t, makers, i, b)->Ok_0.orders[k].remaining,
                ..b.orders[k]
            }),
        forall|k: Bytes32|
            #[trigger] b.orders.contains_key(k) && b.orders[k].pool_id != t.order.pool_id
                ==> sweep(t, makers, i, b)->Ok_0.orders.contains_key(k)
                && sweep(t, makers, i, b)->Ok_0.orders[k] == b.orders[k],
    decreases makers.len() - i,
{
    if i >= makers.len() || b.remaining == 0 {
    } else {
        let maker = makers[i];
        if buys_pay_in_taker_asset(t, makers, i) {
            assert(buys_pay_in_taker_asset(t, makers, i + 1));
            assert(makers[i].side == OrderSide::Buy ==> makers[i].paired_token == t.order.paired_token);
        }
        if !fills_against(t, maker) {
            lemma_sweep_keeps_slack(t, pools, makers, i + 1, b, w);
        } else {
            lemma_fill_keeps_slack(t, pools, maker, b, w);
            let b2 = fill_step(t, maker, b)->Ok_0;
            assert(makers_intact(t, pools, makers, i + 1, b2.orders)) by {
                assert forall|j: int| #![trigger makers[j]] i + 1 <= j < makers.len() implies {
                    &&& b2.orders.contains_key(makers[j].id)
                    &&& b2.orders[makers[j].id] == makers[j]
                } by {
                    assert(makers[i].id != makers[j].id);
                }
            }
            lemma_sweep_keeps_slack(t, pools, makers, i + 1, b2, w);
        }
    }
}

impl MarketState {
    /// The books are consistent: finitely many orders, each of an existing
    /// pool and listed by it; every pool lists each of its ids once, and
    /// every listed id names a stored order of that pool.
    pub open spec fn books_consistent(self) -> bool {
        &&& self.orders.dom().finite()
        &&& forall|k: Bytes32| #[trigger]
            self.orders.contains_key(k) ==> self.pools.contains_key(self.orders[k].pool_id)
                && self.ids_of(self.orders[k].pool_id).contains(k)
        &&& forall|p: Bytes32| #[trigger] self.ids_of(p).no_duplicates()
        &&& forall|p: Bytes32, j: int|
            #![trigger self.ids_of(p)[j]]
            0 <= j < self.ids_of(p).len() ==> self.orders.contains_key(self.ids_of(p)[j])
                && self.orders[self.ids_of(p)[j]].pool_id == p
    }

    /// The marketplace holds, in every token, at least what its resting
    /// orders keep in escrow.
    pub open spec fn covers_escrow(self, ledger: LedgerState) -> bool {
        forall|w: Address| #[trigger] owed(self.pools, self.orders, w) <= holds(ledger, self.address, w)
    }
}

/// The snapshot of ids that all name stored orders is those orders, in
/// order.
proof fn lemma_snapshot_of_present(ids: Seq<Bytes32>, orders: Map<Bytes32, Order>)
    requires
        forall|j: int| 0 <= j < ids.len() ==> orders.contains_key(#[trigger] ids[j]),
    ensures
        snapshot(ids, orders).len() == ids.len(),
        forall|j: int| 0 <= j < ids.len() ==> #[trigger] snapshot(ids, orders)[j] == orders[ids[j]],
    decreases ids.len(),
{
    if ids.len() > 0 {
        let rest = ids.drop_last();
        assert forall|j: int| 0 <= j < rest.len() implies orders.contains_key(#[trigger] rest[j]) by {
            assert(rest[j] == ids[j]);
        }
        lemma_snapshot_of_present(rest, orders);
        assert(orders.contains_key(ids[ids.len() - 1]));
    }
}

/// The ids kept by `keep_present` are ids of the list that name stored
/// orders, and a list without repeats keeps none.
proof fn lemma_keep_present(ids: Seq<Bytes32>, orders: Map<Bytes32, Order>)
    ensures
        forall|j: int|
            0 <= j < keep_present(ids, orders).len() ==> orders.contains_key(
                #[trigger] keep_present(ids, orders)[j],
            ) && ids.contains(keep_present(ids, orders)[j]),
        ids.no_duplicates() ==> keep_present(ids, orders).no_duplicates(),
        forall|k: Bytes32|
            ids.contains(k) && orders.contains_key(k) ==> #[trigger] keep_present(ids, orders).contains(k),
    decreases ids.len(),
{
    if ids.len() > 0 {
        let rest = ids.drop_last();
        lemma_keep_present(rest, orders);
        let kr = keep_present(rest, orders);
        assert forall|k: Bytes32| ids.contains(k) && orders.contains_key(k) implies #[trigger] keep_present(
            ids,
            orders,
        ).contains(k) by {
            let x = choose|x: int| 0 <= x < ids.len() && ids[x] == k;
            if x < rest.len() {
                assert(rest[x] == k);
                assert(kr.contains(k));
                let y = choose|y: int| 0 <= y < kr.len() && kr[y] == k;
                assert(keep_present(ids, orders)[y] == k);
            } else {
                assert(keep_present(ids, orders) == kr.push(k));
                assert(keep_present(ids, orders)[kr.len() as int] == k);
            }
        }
        assert forall|j: int| 0 <= j < kr.len() implies ids.contains(#[trigger] kr[j]) by {
            let x = choose|x: int| 0 <= x < rest.len() && rest[x] == kr[j];
            assert(ids[x] == kr[j]);
        }
        if ids.no_duplicates() {
            assert(rest.no_duplicates()) by {
                assert forall|a: int, c: int| 0 <= a < c < rest.len() implies rest[a] != rest[c] by {
                    assert(rest[a] == ids[a] && rest[c] == ids[c]);
                }
            }
            assert(!kr.contains(ids.last())) by {
                if kr.contains(ids.last()) {
                    let j = choose|j: int| 0 <= j < kr.len() && kr[j] == ids.last();
                    assert(rest.contains(kr[j]));
                    let x = choose|x: int| 0 <= x < rest.len() && rest[x] == kr[j];
                    assert(ids[x] == ids[ids.len() - 1]);
                }
            }
        }
    }
}

/// The resting orders a placement sweeps, the pool's book in priority
/// order, are intact, and include every stored order of the pool.
proof fn lemma_book_makers_intact(m: MarketState, t: Taker, pool_id: Bytes32)
    requires
        m.wf(),
        m.books_consistent(),
        m.pools.contains_key(pool_id),
        t.order.pool_id == pool_id,
        t.credit_token == m.pools[pool_id].credit_token,
        t.market == m.address,
    ensures
        makers_intact(t, m.pools, by_priority(t.order.side, m.book(pool_id)), 0, m.orders),
        forall|k: Bytes32|
            m.orders.contains_key(k) && m.orders[k].pool_id == pool_id ==> #[trigger] by_priority(
                t.order.side,
                m.book(pool_id),
            ).contains(m.orders[k]),
{
    let ids = m.ids_of(pool_id);
    let book = m.book(pool_id);
    let makers = by_priority(t.order.side, book);
    lemma_snapshot_of_present(ids, m.orders);
    lemma_by_priority(t.order.side, book);
    assert(m.ids_of(pool_id).no_duplicates());
    assert(distinct_ids(book)) by {
        assert forall|j1: int, j2: int| 0 <= j1 < j2 < book.len() implies #[trigger] book[j1].id
            != #[trigger] book[j2].id by {
            assert(m.ids_of(pool_id)[j1] == ids[j1]);
            assert(m.ids_of(pool_id)[j2] == ids[j2]);
            assert(m.orders.contains_key(ids[j1]));
            assert(m.orders.contains_key(ids[j2]));
            assert(ids[j1] != ids[j2]);
        }
    }
    assert forall|j: int| #![trigger makers[j]] 0 <= j < makers.len() implies {
        &&& m.orders.contains_key(makers[j].id)
        &&& m.orders[makers[j].id] == makers[j]
        &&& makers[j].remaining > 0
        &&& makers[j].price > 0
        &&& makers[j].trader != t.market
        &&& makers[j].pool_id == t.order.pool_id
        &&& m.pools.contains_key(makers[j].pool_id)
        &&& m.pools[makers[j].pool_id].credit_token == t.credit_token
    } by {
        assert(book.contains(makers[j]));
        let i = choose|i: int| 0 <= i < book.len() && book[i] == makers[j];
        assert(m.ids_of(pool_id)[i] == ids[i]);
        assert(m.orders.contains_key(ids[i]));
        assert(book[i] == m.orders[ids[i]]);
    }
    assert forall|j1: int, j2: int| #![trigger makers[j1], makers[j2]] 0 <= j1 < j2 < makers.len() implies makers[j1].id != makers[j2].id by {
        assert(distinct_ids(makers));
    }
    assert forall|k: Bytes32| m.orders.contains_key(k) && m.orders[k].pool_id == pool_id implies #[trigger] makers.contains(m.orders[k]) by {
        assert(m.ids_of(pool_id).contains(k));
        let y = choose|y: int| 0 <= y < ids.len() && ids[y] == k;
        assert(m.ids_of(pool_id)[y] == k);
        assert(book[y] == m.orders[k]);
    }
}

/// A sweep that leaves the taker with something unfilled has used up every
/// order it was to visit that the taker trades against.
proof fn lemma_sweep_clears_crossing(
    t: Taker,
    pools: Map<Bytes32, Pool>,
    makers: Seq<Order>,
    i: int,
    b: Book,
)
    requires
        sweep(t, makers, i, b) is Ok,
        0 <= i,
        b.orders.dom().finite(),
        b.remaining >= 0,
        t.order.trader != t.market,
        makers_intact(t, pools, makers, i, b.orders),
    ensures
        sweep(t, makers, i, b)->Ok_0.remaining > 0 ==> forall|j: int|
            i <= j < makers.len() && fills_against(t, #[trigger] makers[j])
                ==> !sweep(t, makers, i, b)->Ok_0.orders.contains_key(makers[j].id),
    decreases makers.len() - i,
{
    if i >= makers.len() || b.remaining == 0 {
    } else {
        let maker = makers[i];
        if !fills_against(t, maker) {
            lemma_sweep_clears_crossing(t, pools, makers, i + 1, b);
        } else {
            lemma_fill_keeps_slack(t, pools, maker, b, t.market);
            let b2 = fill_step(t, maker, b)->Ok_0;
            assert(makers_intact(t, pools, makers, i + 1, b2.orders)) by {
                assert forall|j: int| #![trigger makers[j]] i + 1 <= j < makers.len() implies {
                    &&& b2.orders.contains_key(makers[j].id)
                    &&& b2.orders[makers[j].id] == makers[j]
                } by {
                    assert(makers[i].id != makers[j].id);
                }
            }
            lemma_sweep_clears_crossing(t, pools, makers, i + 1, b2);
            lemma_sweep_keeps_slack(t, pools, makers, i + 1, b2, t.market);
        }
    }
}

impl MarketState {
    /// No two resting orders of `pool_id` cross: every resting buy bids
    /// less than every resting sell asks.
    pub open spec fn uncrossed(self, pool_id: Bytes32) -> bool {
        forall|k1: Bytes32, k2: Bytes32|
            #![trigger self.orders[k1], self.orders[k2]]
            self.orders.contains_key(k1) && self.orders.contains_key(k2) && self.orders[k1].pool_id
                == pool_id && self.orders[k2].pool_id == pool_id && self.orders[k1].side
                == OrderSide::Buy && self.orders[k2].side == OrderSide::Sell
                ==> self.orders[k1].price < self.orders[k2].price
    }
}

/// As long as order ids do not collide, placing an order keeps its books
/// consistent and, when the resting buys of its pool escrowed the asset
/// the new order names, keeps the marketplace able to cover the escrow of
/// its resting orders in every token: the escrow paid in covers what rests
/// of the new order, and every fill pays out of escrow exactly what the
/// filled orders give up. (A fill pays the paired side in the new order's
/// asset, so a resting buy escrowed in another asset would be paid for out
/// of escrow it does not own.)
pub proof fn law_place_keeps_escrow_covered(
    m: MarketState,
    ledger: LedgerState,
    auth: crate::common::Auth,
    trader: Address,
    side: OrderSide,
    amount: i128,
    price: i128,
    pool_id: Bytes32,
    paired_token: Address,
    now: u64,
    id: Bytes32,
)
    requires
        m.wf(),
        m.books_consistent(),
        m.covers_escrow(ledger),
        trader != m.address,
        !m.orders.contains_key(id),
        forall|k: Bytes32|
            #[trigger] m.orders.contains_key(k) && m.orders[k].pool_id == pool_id && m.orders[k].side
                == OrderSide::Buy ==> m.orders[k].paired_token == paired_token,
        m.place(ledger, auth, trader, side, amount, price, pool_id, paired_token, now, id) is Ok,
    ensures
        ({
            let (m2, l) = m.place(ledger, auth, trader, side, amount, price, pool_id, paired_token, now, id)->Ok_0;
            m2.covers_escrow(l) && m2.books_consistent()
        }),
{
    let (m2, l) = m.place(ledger, auth, trader, side, amount, price, pool_id, paired_token, now, id)->Ok_0;
    let pool = m.pools[pool_id];
    let escrow: i128 = match side {
        OrderSide::Sell => amount,
        OrderSide::Buy => (amount * price) as i128,
    };
    let escrow_token = match side {
        OrderSide::Sell => pool.credit_token,
        OrderSide::Buy => paired_token,
    };
    lemma_ledger_transfer_effect(ledger, auth, m.address, escrow_token, trader, m.address, escrow);
    let l0 = ledger_transfer(ledger, auth, m.address, escrow_token, trader, m.address, escrow)->Ok_0;
    let taker = Order {
        id,
        trader,
        side,
        amount,
        remaining: amount,
        price,
        pool_id,
        paired_token,
        created_at: now,
    };
    let t = Taker { order: taker, credit_token: pool.credit_token, market: m.address, auth };
    let b0 = Book {
        ledger: l0,
        orders: m.orders,
        remaining: amount,
        settled_credits: 0,
        settled_paired: 0,
        fills: Seq::empty(),
    };
    let ids = m.ids_of(pool_id);
    let makers = by_priority(side, m.book(pool_id));
    lemma_book_makers_intact(m, t, pool_id);
    assert(buys_pay_in_taker_asset(t, makers, 0)) by {
        assert forall|j: int| 0 <= j < makers.len() && (#[trigger] makers[j]).side == OrderSide::Buy
            implies makers[j].paired_token == t.order.paired_token by {
            assert(m.orders.contains_key(makers[j].id) && m.orders[makers[j].id] == makers[j]);
        }
    }
    let b = sweep(t, makers, 0, b0)->Ok_0;
    law_sweep_fills_within_limit(t, makers, 0, b0);
    lemma_sweep_keeps_slack(t, m.pools, makers, 0, b0, trader);
    let kept = keep_present(ids, b.orders);
    lemma_keep_present(ids, b.orders);
    assert(m.ids_of(pool_id).no_duplicates());
    let resting = kept + if b.remaining > 0 {
        seq![id]
    } else {
        Seq::<Bytes32>::empty()
    };
    assert(m2.ids_of(pool_id) == resting);
    assert(forall|k: Bytes32| m2.orders.contains_key(k) ==> b.orders.contains_key(k) || k == id);
    assert(m2.books_consistent()) by {
        assert forall|k: Bytes32| #[trigger] m2.orders.contains_key(k) implies m2.pools.contains_key(
            m2.orders[k].pool_id,
        ) && m2.ids_of(m2.orders[k].pool_id).contains(k) by {
            if k != id {
                assert(m.orders.contains_key(k));
                assert(b.orders.contains_key(k));
                let p = m.orders[k].pool_id;
                assert(m2.orders[k].pool_id == p);
                assert(m.ids_of(p).contains(k));
                if p == pool_id {
                    assert(kept.contains(k));
                    let y = choose|y: int| 0 <= y < kept.len() && kept[y] == k;
                    assert(resting[y] == k);
                } else {
                    assert(m2.ids_of(p) == m.ids_of(p));
                }
            } else {
                assert(resting[kept.len() as int] == id);
            }
        }
        assert forall|p: Bytes32| #[trigger] m2.ids_of(p).no_duplicates() by {
            if p == pool_id {
                if b.remaining > 0 {
                    assert(!kept.contains(id));
                }
            } else {
                assert(m2.ids_of(p) == m.ids_of(p));
            }
        }
        assert forall|p: Bytes32, j: int|
            #![trigger m2.ids_of(p)[j]]
            0 <= j < m2.ids_of(p).len() implies m2.orders.contains_key(m2.ids_of(p)[j])
                && m2.orders[m2.ids_of(p)[j]].pool_id == p by {
            let x = m2.ids_of(p)[j];
            if p == pool_id {
                if j < kept.len() {
                    assert(kept[j] == x);
                    assert(ids.contains(x));
                    let y = choose|y: int| 0 <= y < ids.len() && ids[y] == x;
                    assert(m.ids_of(pool_id)[y] == x);
                    assert(m.orders[x].pool_id == pool_id);
                    assert(x != id);
                }
            } else {
                assert(m2.ids_of(p) == m.ids_of(p));
                assert(m.ids_of(p)[j] == x);
                assert(m.orders.contains_key(x) && m.orders[x].pool_id == p);
                assert(x != id);
            }
        }
    }
    assert forall|w: Address| #[trigger] owed(m2.pools, m2.orders, w) <= holds(l, m2.address, w) by {
        lemma_sweep_keeps_slack(t, m.pools, makers, 0, b0, w);
        assert(slack(t, m.pools, b0, w) >= 0) by {
            assert(owed(m.pools, m.orders, w) <= holds(ledger, m.address, w));
        }
        if b.remaining > 0 {
            let rest = Order { remaining: b.remaining, ..taker };
            assert(!b.orders.contains_key(id));
            let f1 = |k: Bytes32| order_owes(m.pools, b.orders[k], w);
            let f2 = |k: Bytes32| order_owes(m.pools, b.orders.insert(id, rest)[k], w);
            lemma_sum_over_insert(b.orders.dom(), f2, id);
            lemma_sum_over_agree(b.orders.dom(), f1, f2);
            assert(m2.orders.dom() =~= b.orders.dom().insert(id));
            assert(owed(m2.pools, m2.orders, w) == owed(m.pools, b.orders, w) + order_owes(m.pools, rest, w));
            assert(l == b.ledger);
            if side == OrderSide::Buy {
                assert((amount - b.settled_credits) * price == amount * price - b.settled_credits * price)
                    by (nonlinear_arith);
            }
            assert(order_owes(m.pools, rest, w) <= taker_left(t, b, w));
        } else {
            let refund = match side {
                OrderSide::Sell => amount - b.settled_credits,
                OrderSide::Buy => escrow - b.settled_paired,
            };
            assert(m2.orders == b.orders);
            if side == OrderSide::Buy {
                assert(amount * price == b.settled_credits * price);
            }
            assert(refund >= 0);
            if refund > 0 {
                lemma_ledger_transfer_effect(
                    b.ledger,
                    auth,
                    m.address,
                    escrow_token,
                    m.address,
                    trader,
                    refund as i128,
                );
            }
            assert(taker_left(t, b, w) == (if w == escrow_token { refund } else { 0 }));
        }
    }
}

/// Cancelling an order pays back exactly what it kept in escrow, so the
/// marketplace still covers the escrow of the orders that rest, and its
/// books stay consistent.
pub proof fn law_cancel_keeps_escrow_covered(
    m: MarketState,
    ledger: LedgerState,
    auth: crate::common::Auth,
    trader: Address,
    order_id: Bytes32,
)
    requires
        m.wf(),
        m.books_consistent(),
        m.covers_escrow(ledger),
        m.cancel(ledger, auth, trader, order_id) is Ok,
    ensures
        ({
            let (m2, l) = m.cancel(ledger, auth, trader, order_id)->Ok_0;
            m2.covers_escrow(l) && m2.books_consistent()
        }),
{
    let (m2, l) = m.cancel(ledger, auth, trader, order_id)->Ok_0;
    let o = m.orders[order_id];
    let asset = match o.side {
        OrderSide::Sell => m.pools[o.pool_id].credit_token,
        OrderSide::Buy => o.paired_token,
    };
    let refund: i128 = match o.side {
        OrderSide::Sell => o.remaining,
        OrderSide::Buy => (o.remaining * o.price) as i128,
    };
    assert(o.trader != m.address);
    lemma_ledger_transfer_effect(ledger, auth, m.address, asset, m.address, trader, refund);
    let orders = m.orders.remove(order_id);
    assert(m2.orders == orders);
    assert forall|w: Address| #[trigger] owed(m2.pools, m2.orders, w) <= holds(l, m2.address, w) by {
        lemma_owed_remove(m.pools, m.orders, order_id, w);
        assert(owed(m.pools, m.orders, w) <= holds(ledger, m.address, w));
        assert(order_owes(m.pools, o, w) == (if w == asset { refund as int } else { 0 }));
    }
    let ids = m.ids_of(o.pool_id);
    let kept = keep_present(ids, orders);
    lemma_keep_present(ids, orders);
    assert(m.ids_of(o.pool_id).no_duplicates());
    assert(m2.ids_of(o.pool_id) == kept);
    assert(m2.books_consistent()) by {
        assert forall|k: Bytes32| #[trigger] m2.orders.contains_key(k) implies m2.pools.contains_key(
            m2.orders[k].pool_id,
        ) && m2.ids_of(m2.orders[k].pool_id).contains(k) by {
            assert(m.orders.contains_key(k));
            let p = m.orders[k].pool_id;
            assert(m.ids_of(p).contains(k));
            if p == o.pool_id {
                assert(kept.contains(k));
            } else {
                assert(m2.ids_of(p) == m.ids_of(p));
            }
        }
        assert forall|p: Bytes32| #[trigger] m2.ids_of(p).no_duplicates() by {
            if p != o.pool_id {
                assert(m2.ids_of(p) == m.ids_of(p));
            }
        }
        assert forall|p: Bytes32, j: int|
            #![trigger m2.ids_of(p)[j]]
            0 <= j < m2.ids_of(p).len() implies m2.orders.contains_key(m2.ids_of(p)[j])
                && m2.orders[m2.ids_of(p)[j]].pool_id == p by {
            let x = m2.ids_of(p)[j];
            if p == o.pool_id {
                assert(kept[j] == x);
                assert(ids.contains(x));
                let y = choose|y: int| 0 <= y < ids.len() && ids[y] == x;
                assert(m.ids_of(o.pool_id)[y] == x);
            } else {
                assert(m2.ids_of(p) == m.ids_of(p));
                assert(m.ids_of(p)[j] == x);
                assert(m.orders.contains_key(x) && m.orders[x].pool_id == p);
                assert(x != order_id);
            }
        }
    }
}

/// Creating a pool or swapping through one touches neither the orders nor
/// any token, and keeps every existing pool's credit token: the marketplace
/// still covers the escrow of its resting orders, and its books stay
/// consistent.
pub proof fn law_pool_operations_keep_escrow_covered(
    m: MarketState,
    ledger: LedgerState,
    pool_id: Bytes32,
    credit_token: Address,
    paired_asset: crate::common::Symbol,
    initial_credit: i128,
    initial_paired: i128,
    amount_in: i128,
    min_amount_out: i128,
)
    requires
        m.books_consistent(),
        m.covers_escrow(ledger),
    ensures
        m.create_pool(pool_id, credit_token, paired_asset, initial_credit, initial_paired) is Ok ==> ({
            let m2 = m.create_pool(pool_id, credit_token, paired_asset, initial_credit, initial_paired)->Ok_0.0;
            m2.covers_escrow(ledger) && m2.books_consistent()
        }),
        m.swap(pool_id, amount_in, min_amount_out) is Ok ==> ({
            let m2 = m.swap(pool_id, amount_in, min_amount_out)->Ok_0.0;
            m2.covers_escrow(ledger) && m2.books_consistent()
        }),
{
    if m.create_pool(pool_id, credit_token, paired_asset, initial_credit, initial_paired) is Ok {
        let m2 = m.create_pool(pool_id, credit_token, paired_asset, initial_credit, initial_paired)->Ok_0.0;
        assert forall|w: Address| #[trigger] owed(m2.pools, m2.orders, w) <= holds(ledger, m2.address, w) by {
            let f1 = |k: Bytes32| order_owes(m.pools, m.orders[k], w);
            let f2 = |k: Bytes32| order_owes(m2.pools, m2.orders[k], w);
            assert forall|k: Bytes32| #[trigger] m.orders.dom().contains(k) implies f1(k) == f2(k) by {
                assert(m.pools.contains_key(m.orders[k].pool_id));
            }
            lemma_sum_over_agree(m.orders.dom(), f1, f2);
            assert(owed(m.pools, m.orders, w) <= holds(ledger, m.address, w));
        }
        assert forall|p: Bytes32| #[trigger] m2.ids_of(p).no_duplicates() by {
            assert(m2.ids_of(p) == m.ids_of(p));
        }
        assert forall|p: Bytes32, j: int|
            #![trigger m2.ids_of(p)[j]]
            0 <= j < m2.ids_of(p).len() implies m2.orders.contains_key(m2.ids_of(p)[j])
                && m2.orders[m2.ids_of(p)[j]].pool_id == p by {
            assert(m2.ids_of(p) == m.ids_of(p));
        }
    }
    if m.swap(pool_id, amount_in, min_amount_out) is Ok {
        let m2 = m.swap(pool_id, amount_in, min_amount_out)->Ok_0.0;
        assert forall|w: Address| #[trigger] owed(m2.pools, m2.orders, w) <= holds(ledger, m2.address, w) by {
            let f1 = |k: Bytes32| order_owes(m.pools, m.orders[k], w);
            let f2 = |k: Bytes32| order_owes(m2.pools, m2.orders[k], w);
            lemma_sum_over_agree(m.orders.dom(), f1, f2);
            assert(owed(m.pools, m.orders, w) <= holds(ledger, m.address, w));
        }
        assert forall|p: Bytes32| #[trigger] m2.ids_of(p).no_duplicates() by {
            assert(m2.ids_of(p) == m.ids_of(p));
        }
        assert forall|p: Bytes32, j: int|
            #![trigger m2.ids_of(p)[j]]
            0 <= j < m2.ids_of(p).len() implies m2.orders.contains_key(m2.ids_of(p)[j])
                && m2.orders[m2.ids_of(p)[j]].pool_id == p by {
            assert(m2.ids_of(p) == m.ids_of(p));
        }
    }
}

/// A marketplace without orders covers its (empty) escrow and has
/// consistent, uncrossed books, whatever the tokens, as long as no balance
/// is negative.
pub proof fn law_empty_market_covers_escrow(m: MarketState, ledger: LedgerState)
    requires
        m.orders == Map::<Bytes32, Order>::empty(),
        m.order_ids == Map::<Bytes32, Seq<Bytes32>>::empty(),
        forall|w: Address| #[trigger] ledger.contains_key(w) ==> ledger[w].wf(),
    ensures
        m.covers_escrow(ledger),
        m.books_consistent(),
        forall|q: Bytes32| #[trigger] m.uncrossed(q),
{
    assert forall|w: Address| #[trigger] owed(m.pools, m.orders, w) <= holds(ledger, m.address, w) by {
        assert(m.orders.dom() =~= Set::<Bytes32>::empty());
        if ledger.contains_key(w) {
            assert(ledger[w].wf());
        }
    }
    assert(m.orders.dom() =~= Set::<Bytes32>::empty());
}

/// As long as order ids do not collide, placing an order never leaves a
/// pool's book crossed: an order rests only once no opposite order of its
/// pool crosses its limit, and the orders already resting keep their
/// prices.
pub proof fn law_place_keeps_book_uncrossed(
    m: MarketState,
    ledger: LedgerState,
    auth: crate::common::Auth,
    trader: Address,
    side: OrderSide,
    amount: i128,
    price: i128,
    pool_id: Bytes32,
    paired_token: Address,
    now: u64,
    id: Bytes32,
    q: Bytes32,
)
    requires
        m.wf(),
        m.books_consistent(),
        m.uncrossed(q),
        trader != m.address,
        !m.orders.contains_key(id),
        m.place(ledger, auth, trader, side, amount, price, pool_id, paired_token, now, id) is Ok,
    ensures
        m.place(ledger, auth, trader, side, amount, price, pool_id, paired_token, now, id)->Ok_0.0.uncrossed(q),
{
    let (m2, l) = m.place(ledger, auth, trader, side, amount, price, pool_id, paired_token, now, id)->Ok_0;
    let pool = m.pools[pool_id];
    let escrow: i128 = match side {
        OrderSide::Sell => amount,
        OrderSide::Buy => (amount * price) as i128,
    };
    let escrow_token = match side {
        OrderSide::Sell => pool.credit_token,
        OrderSide::Buy => paired_token,
    };
    let l0 = ledger_transfer(ledger, auth, m.address, escrow_token, trader, m.address, escrow)->Ok_0;
    let taker = Order {
        id,
        trader,
        side,
        amount,
        remaining: amount,
        price,
        pool_id,
        paired_token,
        created_at: now,
    };
    let t = Taker { order: taker, credit_token: pool.credit_token, market: m.address, auth };
    let b0 = Book {
        ledger: l0,
        orders: m.orders,
        remaining: amount,
        settled_credits: 0,
        settled_paired: 0,
        fills: Seq::empty(),
    };
    let makers = by_priority(side, m.book(pool_id));
    lemma_book_makers_intact(m, t, pool_id);
    let b = sweep(t, makers, 0, b0)->Ok_0;
    lemma_sweep_keeps_slack(t, m.pools, makers, 0, b0, trader);
    lemma_sweep_clears_crossing(t, m.pools, makers, 0, b0);
    let rest = Order { remaining: b.remaining, ..taker };
    assert(m2.orders == if b.remaining > 0 {
        b.orders.insert(id, rest)
    } else {
        b.orders
    });
    // Every stored order other than the new one was stored before, with the
    // same side, price, pool and paired asset.
    assert forall|k: Bytes32| k != id && #[trigger] m2.orders.contains_key(k) implies m.orders.contains_key(k)
        && m2.orders[k].side == m.orders[k].side && m2.orders[k].price == m.orders[k].price
        && m2.orders[k].pool_id == m.orders[k].pool_id && m2.orders[k].paired_token
        == m.orders[k].paired_token && b.orders.contains_key(k) by {
        assert(b.orders.contains_key(k));
    }
    assert forall|k1: Bytes32, k2: Bytes32|
        #![trigger m2.orders[k1], m2.orders[k2]]
        m2.orders.contains_key(k1) && m2.orders.contains_key(k2) && m2.orders[k1].pool_id == q
            && m2.orders[k2].pool_id == q && m2.orders[k1].side == OrderSide::Buy
            && m2.orders[k2].side == OrderSide::Sell implies m2.orders[k1].price
            < m2.orders[k2].price by {
        if k1 != id && k2 != id {
            assert(m.orders.contains_key(k1) && m.orders.contains_key(k2));
            assert(m.orders[k1].price < m.orders[k2].price);
        } else if k1 == id && k2 != id {
            // The new order rests as a buy; the sell at k2 must not cross it.
            assert(b.remaining > 0);
            let o = m.orders[k2];
            assert(m.orders.contains_key(k2));
            if o.price <= price {
                assert(makers.contains(o));
                let j = choose|j: int| 0 <= j < makers.len() && makers[j] == o;
                assert(fills_against(t, makers[j]));
                assert(m.orders[makers[j].id] == makers[j]);
                assert(!b.orders.contains_key(makers[j].id));
            }
        } else if k2 == id && k1 != id {
            assert(b.remaining > 0);
            let o = m.orders[k1];
            assert(m.orders.contains_key(k1));
            if o.price >= price {
                assert(makers.contains(o));
                let j = choose|j: int| 0 <= j < makers.len() && makers[j] == o;
                assert(fills_against(t, makers[j]));
                assert(m.orders[makers[j].id] == makers[j]);
                assert(!b.orders.contains_key(makers[j].id));
            }
        }
    }
}

/// A sweep after which the taker is as unfilled as before filled nothing:
/// the ledger and the orders are as they were.
proof fn lemma_sweep_without_fill(t: Taker, makers: Seq<Order>, i: int, b: Book)
    requires
        sweep(t, makers, i, b) is Ok,
        sweep(t, makers, i, b)->Ok_0.remaining == b.remaining,
        b.remaining >= 0,
        t.order.price > 0,
        forall|k: int| 0 <= k < makers.len() ==> #[trigger] makers[k].remaining > 0,
    ensures
        sweep(t, makers, i, b)->Ok_0.ledger == b.ledger,
        sweep(t, makers, i, b)->Ok_0.orders == b.orders,
    decreases makers.len() - i,
{
    if i < 0 || i >= makers.len() || b.remaining == 0 {
    } else {
        let maker = makers[i];
        if !fills_against(t, maker) {
            lemma_sweep_without_fill(t, makers, i + 1, b);
        } else {
            let b2 = fill_step(t, maker, b)->Ok_0;
            law_sweep_fills_within_limit(t, makers, i + 1, b2);
        }
    }
}

/// The ids that all name stored orders are all kept.
proof fn lemma_keep_present_all(ids: Seq<Bytes32>, orders: Map<Bytes32, Order>)
    requires
        forall|j: int| 0 <= j < ids.len() ==> orders.contains_key(#[trigger] ids[j]),
    ensures
        keep_present(ids, orders) == ids,
    decreases ids.len(),
{
    if ids.len() > 0 {
        let rest = ids.drop_last();
        assert forall|j: int| 0 <= j < rest.len() implies orders.contains_key(#[trigger] rest[j]) by {
            assert(rest[j] == ids[j]);
        }
        lemma_keep_present_all(rest, orders);
        assert(orders.contains_key(ids[ids.len() - 1]));
        assert(rest.push(ids.last()) =~= ids);
    }
}

/// Placing an order that fills nothing and cancelling it right away gives
/// every holder back every balance of every token, and leaves the orders
/// and every pool's book as they were, as long as no balance was negative
/// and the new order's id does not collide.
pub proof fn law_unfilled_order_cancelled_restores(
    m: MarketState,
    ledger: LedgerState,
    auth: crate::common::Auth,
    trader: Address,
    side: OrderSide,
    amount: i128,
    price: i128,
    pool_id: Bytes32,
    paired_token: Address,
    now: u64,
    id: Bytes32,
)
    requires
        m.wf(),
        m.books_consistent(),
        trader != m.address,
        !m.orders.contains_key(id),
        forall|w: Address| #[trigger] ledger.contains_key(w) ==> ledger[w].wf(),
        m.place(ledger, auth, trader, side, amount, price, pool_id, paired_token, now, id) is Ok,
        ({
            let m2 = m.place(ledger, auth, trader, side, amount, price, pool_id, paired_token, now, id)->Ok_0.0;
            m2.orders.contains_key(id) && m2.orders[id].remaining == amount
        }),
    ensures
        ({
            let (m2, l) = m.place(ledger, auth, trader, side, amount, price, pool_id, paired_token, now, id)->Ok_0;
            &&& m2.cancel(l, auth, trader, id) is Ok
            &&& ({
                let (m3, l3) = m2.cancel(l, auth, trader, id)->Ok_0;
                &&& m3.orders == m.orders
                &&& forall|p: Bytes32| #[trigger] m3.ids_of(p) == m.ids_of(p) && m3.book(p) == m.book(p)
                &&& l3.dom() == ledger.dom()
                &&& forall|w: Address, h: Address| #[trigger] ledger.contains_key(w) ==> #[trigger] l3[w].balance(h)
                    == ledger[w].balance(h)
            })
        }),
{
    let (m2, l) = m.place(ledger, auth, trader, side, amount, price, pool_id, paired_token, now, id)->Ok_0;
    let pool = m.pools[pool_id];
    let escrow: i128 = match side {
        OrderSide::Sell => amount,
        OrderSide::Buy => (amount * price) as i128,
    };
    let escrow_token = match side {
        OrderSide::Sell => pool.credit_token,
        OrderSide::Buy => paired_token,
    };
    lemma_ledger_transfer_effect(ledger, auth, m.address, escrow_token, trader, m.address, escrow);
    let l0 = ledger_transfer(ledger, auth, m.address, escrow_token, trader, m.address, escrow)->Ok_0;
    let taker = Order {
        id,
        trader,
        side,
        amount,
        remaining: amount,
        price,
        pool_id,
        paired_token,
        created_at: now,
    };
    let t = Taker { order: taker, credit_token: pool.credit_token, market: m.address, auth };
    let b0 = Book {
        ledger: l0,
        orders: m.orders,
        remaining: amount,
        settled_credits: 0,
        settled_paired: 0,
        fills: Seq::empty(),
    };
    let makers = by_priority(side, m.book(pool_id));
    lemma_book_makers_intact(m, t, pool_id);
    let b = sweep(t, makers, 0, b0)->Ok_0;
    lemma_sweep_keeps_slack(t, m.pools, makers, 0, b0, trader);
    assert(!b.orders.contains_key(id));
    assert(b.remaining == amount);
    assert forall|k: int| 0 <= k < makers.len() implies #[trigger] makers[k].remaining > 0 by {
        assert(makers_intact(t, m.pools, makers, 0, m.orders));
    }
    lemma_sweep_without_fill(t, makers, 0, b0);
    assert(l == l0);
    assert(m2.orders == m.orders.insert(id, taker));
    let ids = m.ids_of(pool_id);
    lemma_keep_present_all(ids, m.orders);
    assert(m2.ids_of(pool_id) == ids.push(id));
    // The cancellation refunds the escrow to the trader.
    let tok = ledger[escrow_token];
    assert(tok.gate(trader, m.address));
    assert(tok.balance(m.address) >= 0);
    assert(tok.balance(trader) >= escrow);
    assert(l0[escrow_token].gate(m.address, trader));
    assert(m2.cancel(l, auth, trader, id) is Ok);
    let (m3, l3) = m2.cancel(l, auth, trader, id)->Ok_0;
    lemma_ledger_transfer_effect(l0, auth, m.address, escrow_token, m.address, trader, escrow);
    assert(m3.orders =~= m.orders);
    lemma_keep_present(ids.push(id), m3.orders);
    assert(keep_present(ids.push(id), m3.orders) == keep_present(ids, m3.orders)) by {
        assert(ids.push(id).drop_last() =~= ids);
    }
    assert forall|p: Bytes32| #[trigger] m3.ids_of(p) == m.ids_of(p) && m3.book(p) == m.book(p) by {
        if p != pool_id {
            assert(m3.ids_of(p) == m2.ids_of(p));
        }
    }
    assert(l3.dom() =~= ledger.dom());
}

/// Cancelling an order, creating a pool or swapping through one never
/// crosses a book: each only removes an order or leaves the orders alone.
pub proof fn law_other_operations_keep_book_uncrossed(
    m: MarketState,
    ledger: LedgerState,
    auth: crate::common::Auth,
    trader: Address,
    order_id: Bytes32,
    pool_id: Bytes32,
    credit_token: Address,
    paired_asset: crate::common::Symbol,
    initial_credit: i128,
    initial_paired: i128,
    amount_in: i128,
    min_amount_out: i128,
    q: Bytes32,
)
    requires
        m.uncrossed(q),
    ensures
        m.cancel(ledger, auth, trader, order_id) is Ok ==> m.cancel(ledger, auth, trader, order_id)->Ok_0.0.uncrossed(q),
        m.create_pool(pool_id, credit_token, paired_asset, initial_credit, initial_paired) is Ok
            ==> m.create_pool(pool_id, credit_token, paired_asset, initial_credit, initial_paired)->Ok_0.0.uncrossed(q),
        m.swap(pool_id, amount_in, min_amount_out) is Ok ==> m.swap(pool_id, amount_in, min_amount_out)->Ok_0.0.uncrossed(q),
{
    if m.cancel(ledger, auth, trader, order_id) is Ok {
        let m3 = m.cancel(ledger, auth, trader, order_id)->Ok_0.0;
        assert forall|k1: Bytes32, k2: Bytes32|
            #![trigger m3.orders[k1], m3.orders[k2]]
            m3.orders.contains_key(k1) && m3.orders.contains_key(k2) && m3.orders[k1].pool_id == q
                && m3.orders[k2].pool_id == q && m3.orders[k1].side == OrderSide::Buy
                && m3.orders[k2].side == OrderSide::Sell implies m3.orders[k1].price
                < m3.orders[k2].price by {
            assert(m.orders[k1] == m3.orders[k1] && m.orders[k2] == m3.orders[k2]);
        }
    }
}

} // verus!
