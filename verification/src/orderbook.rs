//! The limit order book: resting orders, fills, and the rule by which an
//! incoming order sweeps the resting orders of the opposite side.
//!
//! Orders escrow the sold asset up front (credit tokens for sells, the paired
//! asset for buys) and rest until an opposite order crosses their price. An
//! incoming order sweeps the resting orders of the opposite side in
//! price-time priority (best price first, earlier orders first among equal
//! prices), settling each fill at the resting (maker) price.

use vstd::prelude::*;

use crate::amm::fits_i128;
use crate::common::{Address, Auth, Bytes32, OrderSide};
use crate::token::{law_ledger_transfer_keeps_supplies, ledger_transfer, LedgerState};

verus! {

/// A resting limit order.
#[derive(Clone, Copy, Debug, PartialEq, Eq)]
pub struct Order {
    /// Unique order identifier.
    pub id: Bytes32,
    /// Address that placed the order and funded its escrow.
    pub trader: Address,
    /// Which side of the book this order rests on.
    pub side: OrderSide,
    /// Credit quantity the order was placed for.
    pub amount: i128,
    /// Unfilled credit quantity remaining.
    pub remaining: i128,
    /// Limit price in paired-asset units per credit token.
    pub price: i128,
    /// Pool this order trades against (defines the credit token).
    pub pool_id: Bytes32,
    /// Contract address of the paired asset escrowed for buy orders.
    pub paired_token: Address,
    /// Ledger timestamp when the order was placed.
    pub created_at: u64,
}

/// A record of credits and paired asset exchanged in a fill.
#[derive(Clone, Copy, Debug, PartialEq, Eq)]
pub struct Fill {
    /// Maker (resting) order id.
    pub maker_id: Bytes32,
    /// Taker (incoming) order id.
    pub taker_id: Bytes32,
    /// Credit tokens transferred from the seller to the buyer.
    pub credits: i128,
    /// Paired-asset units paid from the buyer to the seller.
    pub paired: i128,
}

/// Whether a taker on side `taker` at `taker_price` crosses a resting order
/// at `maker_price`.
pub open spec fn crosses_spec(taker: OrderSide, maker_price: i128, taker_price: i128) -> bool {
    match taker {
        OrderSide::Buy => maker_price <= taker_price,
        OrderSide::Sell => maker_price >= taker_price,
    }
}

/// Whether a taker order crosses the resting maker order's price.
pub fn crosses(taker: &OrderSide, maker_price: i128, taker_price: i128) -> (r: bool)
    ensures
        r == crosses_spec(*taker, maker_price, taker_price),
{
    match taker {
        OrderSide::Buy => maker_price <= taker_price,
        OrderSide::Sell => maker_price >= taker_price,
    }
}

/// The stored orders named by `ids`, in the order of `ids`, skipping ids
/// with no stored order.
pub open spec fn snapshot(ids: Seq<Bytes32>, orders: Map<Bytes32, Order>) -> Seq<Order>
    decreases ids.len(),
{
    if ids.len() == 0 {
        Seq::empty()
    } else {
        let rest = snapshot(ids.drop_last(), orders);
        if orders.contains_key(ids.last()) {
            rest.push(orders[ids.last()])
        } else {
            rest
        }
    }
}

/// The ids of `ids` that still name a stored order, in order.
pub open spec fn keep_present(ids: Seq<Bytes32>, orders: Map<Bytes32, Order>) -> Seq<Bytes32>
    decreases ids.len(),
{
    if ids.len() == 0 {
        Seq::empty()
    } else {
        let rest = keep_present(ids.drop_last(), orders);
        if orders.contains_key(ids.last()) {
            rest.push(ids.last())
        } else {
            rest
        }
    }
}

/// Every order of `snapshot(ids, orders)` is one stored in `orders`.
pub proof fn lemma_snapshot_stored(ids: Seq<Bytes32>, orders: Map<Bytes32, Order>)
    ensures
        forall|k: int|
            #![trigger snapshot(ids, orders)[k]]
            0 <= k < snapshot(ids, orders).len() ==> exists|key: Bytes32|
                orders.contains_key(key) && orders[key] == snapshot(ids, orders)[k],
    decreases ids.len(),
{
    if ids.len() > 0 {
        lemma_snapshot_stored(ids.drop_last(), orders);
        let rest = snapshot(ids.drop_last(), orders);
        let s = snapshot(ids, orders);
        if orders.contains_key(ids.last()) {
            assert(s == rest.push(orders[ids.last()]));
        } else {
            assert(s == rest);
        }
        assert forall|k: int| 0 <= k < snapshot(ids, orders).len() implies exists|key: Bytes32|
            orders.contains_key(key) && orders[key] == #[trigger] snapshot(ids, orders)[k] by {
            if k < rest.len() {
                assert(snapshot(ids, orders)[k] == rest[k]);
                let key = choose|key: Bytes32| orders.contains_key(key) && orders[key] == rest[k];
                assert(orders.contains_key(key) && orders[key] == snapshot(ids, orders)[k]);
            } else {
                assert(orders.contains_key(ids.last()) && orders[ids.last()] == snapshot(ids, orders)[k]);
            }
        }
    }
}

/// Whether the resting order `a` comes strictly before `b` by price for a
/// taker on `side`: a lower ask for a buyer, a higher bid for a seller.
pub open spec fn ahead(side: OrderSide, a: Order, b: Order) -> bool {
    match side {
        OrderSide::Buy => a.price < b.price,
        OrderSide::Sell => a.price > b.price,
    }
}

/// `queue` with `o` placed after every order that `o` is not strictly
/// ahead of, counting from the back.
pub open spec fn enqueue(side: OrderSide, queue: Seq<Order>, o: Order) -> Seq<Order>
    decreases queue.len(),
{
    if queue.len() == 0 {
        seq![o]
    } else if ahead(side, o, queue.last()) {
        enqueue(side, queue.drop_last(), o).push(queue.last())
    } else {
        queue.push(o)
    }
}

/// The resting orders of `book`, given in time order, in price-time
/// priority for a taker on `side`: best price first, and among equal
/// prices the earlier order first.
pub open spec fn by_priority(side: OrderSide, book: Seq<Order>) -> Seq<Order>
    decreases book.len(),
{
    if book.len() == 0 {
        Seq::empty()
    } else {
        enqueue(side, by_priority(side, book.drop_last()), book.last())
    }
}

/// Whether no two orders of `s` share an id.
pub open spec fn distinct_ids(s: Seq<Order>) -> bool {
    forall|i: int, j: int| 0 <= i < j < s.len() ==> #[trigger] s[i].id != #[trigger] s[j].id
}

/// Whether no order of `s` is strictly ahead of an order before it.
pub open spec fn in_priority(side: OrderSide, s: Seq<Order>) -> bool {
    forall|i: int, j: int| 0 <= i < j < s.len() ==> !ahead(side, #[trigger] s[j], #[trigger] s[i])
}

proof fn lemma_enqueue(side: OrderSide, queue: Seq<Order>, o: Order)
    ensures
        enqueue(side, queue, o).len() == queue.len() + 1,
        forall|k: int|
            0 <= k < enqueue(side, queue, o).len() ==> #[trigger] enqueue(side, queue, o)[k] == o
                || queue.contains(enqueue(side, queue, o)[k]),
        enqueue(side, queue, o).contains(o),
        forall|k: int| 0 <= k < queue.len() ==> enqueue(side, queue, o).contains(#[trigger] queue[k]),
        distinct_ids(queue) && (forall|k: int| 0 <= k < queue.len() ==> #[trigger] queue[k].id != o.id)
            ==> distinct_ids(enqueue(side, queue, o)),
        in_priority(side, queue) ==> in_priority(side, enqueue(side, queue, o)),
    decreases queue.len(),
{
    let r = enqueue(side, queue, o);
    if queue.len() == 0 {
        assert(r[0] == o);
    } else if ahead(side, o, queue.last()) {
        let rest = queue.drop_last();
        lemma_enqueue(side, rest, o);
        let r0 = enqueue(side, rest, o);
        assert(r == r0.push(queue.last()));
        assert forall|k: int| 0 <= k < r.len() implies #[trigger] r[k] == o || queue.contains(r[k]) by {
            if k < r0.len() {
                assert(r[k] == r0[k]);
                if r0[k] != o {
                    let x = choose|x: int| 0 <= x < rest.len() && rest[x] == r0[k];
                    assert(queue[x] == r0[k]);
                }
            } else {
                assert(queue[queue.len() - 1] == r[k]);
            }
        }
        assert(r0.contains(o));
        let x = choose|x: int| 0 <= x < r0.len() && r0[x] == o;
        assert(r[x] == o);
        assert forall|k: int| 0 <= k < queue.len() implies r.contains(#[trigger] queue[k]) by {
            if k < rest.len() {
                assert(rest[k] == queue[k]);
                assert(r0.contains(rest[k]));
                let y = choose|y: int| 0 <= y < r0.len() && r0[y] == rest[k];
                assert(r[y] == queue[k]);
            } else {
                assert(r[r.len() - 1] == queue[k]);
            }
        }
        if distinct_ids(queue) && (forall|k: int| 0 <= k < queue.len() ==> #[trigger] queue[k].id != o.id) {
            assert(distinct_ids(rest)) by {
                assert forall|i: int, j: int| 0 <= i < j < rest.len() implies #[trigger] rest[i].id
                    != #[trigger] rest[j].id by {
                    assert(rest[i] == queue[i] && rest[j] == queue[j]);
                }
            }
            assert forall|k: int| 0 <= k < rest.len() implies #[trigger] rest[k].id != o.id by {
                assert(rest[k] == queue[k]);
            }
            assert forall|i: int, j: int| 0 <= i < j < r.len() implies #[trigger] r[i].id
                != #[trigger] r[j].id by {
                if j == r.len() - 1 {
                    assert(r[j] == queue[queue.len() - 1]);
                    assert(r[i] == r0[i]);
                    if r0[i] == o {
                    } else {
                        let x = choose|x: int| 0 <= x < rest.len() && rest[x] == r0[i];
                        assert(queue[x] == r0[i]);
                    }
                } else {
                    assert(r[i] == r0[i] && r[j] == r0[j]);
                }
            }
        }
        if in_priority(side, queue) {
            assert(in_priority(side, rest)) by {
                assert forall|i: int, j: int| 0 <= i < j < rest.len() implies !ahead(
                    side,
                    #[trigger] rest[j],
                    #[trigger] rest[i],
                ) by {
                    assert(rest[i] == queue[i] && rest[j] == queue[j]);
                }
            }
            assert forall|i: int, j: int| 0 <= i < j < r.len() implies !ahead(
                side,
                #[trigger] r[j],
                #[trigger] r[i],
            ) by {
                if j == r.len() - 1 {
                    assert(r[j] == queue[queue.len() - 1]);
                    assert(r[i] == r0[i]);
                    if r0[i] != o {
                        let x = choose|x: int| 0 <= x < rest.len() && rest[x] == r0[i];
                        assert(queue[x] == r0[i]);
                    }
                } else {
                    assert(r[i] == r0[i] && r[j] == r0[j]);
                }
            }
        }
    } else {
        assert(r == queue.push(o));
        assert(r[r.len() - 1] == o);
        assert forall|k: int| 0 <= k < queue.len() implies r.contains(#[trigger] queue[k]) by {
            assert(r[k] == queue[k]);
        }
        assert forall|k: int| 0 <= k < r.len() implies #[trigger] r[k] == o || queue.contains(r[k]) by {
            if k < queue.len() {
                assert(r[k] == queue[k]);
            }
        }
        if in_priority(side, queue) {
            assert forall|i: int, j: int| 0 <= i < j < r.len() implies !ahead(
                side,
                #[trigger] r[j],
                #[trigger] r[i],
            ) by {
                if j == r.len() - 1 {
                    assert(r[i] == queue[i]);
                    assert(!ahead(side, o, queue[queue.len() - 1]));
                    if i < queue.len() - 1 {
                        assert(!ahead(side, queue[queue.len() - 1], queue[i]));
                    }
                } else {
                    assert(r[i] == queue[i] && r[j] == queue[j]);
                }
            }
        }
    }
}

/// Putting a book in priority order keeps its orders, one for one: it
/// neither drops nor adds an order, and keeps ids distinct; and the result
/// is in priority order, best price first.
pub proof fn lemma_by_priority(side: OrderSide, book: Seq<Order>)
    ensures
        by_priority(side, book).len() == book.len(),
        forall|k: int|
            0 <= k < book.len() ==> book.contains(#[trigger] by_priority(side, book)[k]),
        forall|k: int| 0 <= k < book.len() ==> by_priority(side, book).contains(#[trigger] book[k]),
        distinct_ids(book) ==> distinct_ids(by_priority(side, book)),
        in_priority(side, by_priority(side, book)),
    decreases book.len(),
{
    if book.len() > 0 {
        let rest = book.drop_last();
        let q = by_priority(side, rest);
        lemma_by_priority(side, rest);
        lemma_enqueue(side, q, book.last());
        let r = by_priority(side, book);
        assert(r == enqueue(side, q, book.last()));
        assert forall|k: int| 0 <= k < book.len() implies book.contains(#[trigger] r[k]) by {
            if r[k] != book.last() {
                assert(q.contains(r[k]));
                let x = choose|x: int| 0 <= x < q.len() && q[x] == r[k];
                assert(rest.contains(q[x]));
                let y = choose|y: int| 0 <= y < rest.len() && rest[y] == q[x];
                assert(book[y] == r[k]);
            } else {
                assert(book[book.len() - 1] == r[k]);
            }
        }
        assert forall|k: int| 0 <= k < book.len() implies r.contains(#[trigger] book[k]) by {
            if k < rest.len() {
                assert(rest[k] == book[k]);
                assert(q.contains(rest[k]));
                let x = choose|x: int| 0 <= x < q.len() && q[x] == rest[k];
                assert(r.contains(q[x]));
            }
        }
        if distinct_ids(book) {
            assert(distinct_ids(rest)) by {
                assert forall|i: int, j: int| 0 <= i < j < rest.len() implies #[trigger] rest[i].id
                    != #[trigger] rest[j].id by {
                    assert(rest[i] == book[i] && rest[j] == book[j]);
                }
            }
            assert forall|k: int| 0 <= k < q.len() implies #[trigger] q[k].id != book.last().id by {
                assert(rest.contains(q[k]));
                let y = choose|y: int| 0 <= y < rest.len() && rest[y] == q[k];
                assert(book[y] == q[k]);
            }
        }
    }
}

/// Whether `a` occurs at an earlier position of `s` than `b`.
pub open spec fn comes_before(s: Seq<Order>, a: Order, b: Order) -> bool {
    exists|p: int, q: int| 0 <= p < q < s.len() && #[trigger] s[p] == a && #[trigger] s[q] == b
}

/// Where `enqueue` puts `o`: at a position `k` of `queue`, with the orders
/// before `k` kept in place, those from `k` on shifted back by one, and `o`
/// strictly ahead of each of the latter.
proof fn lemma_enqueue_position(side: OrderSide, queue: Seq<Order>, o: Order) -> (k: int)
    ensures
        0 <= k <= queue.len(),
        enqueue(side, queue, o).len() == queue.len() + 1,
        enqueue(side, queue, o)[k] == o,
        forall|p: int| 0 <= p < k ==> enqueue(side, queue, o)[p] == #[trigger] queue[p],
        forall|p: int|
            k <= p < queue.len() ==> enqueue(side, queue, o)[p + 1] == #[trigger] queue[p]
                && ahead(side, o, queue[p]),
    decreases queue.len(),
{
    lemma_enqueue(side, queue, o);
    let r = enqueue(side, queue, o);
    if queue.len() == 0 {
        0
    } else if ahead(side, o, queue.last()) {
        let rest = queue.drop_last();
        let k = lemma_enqueue_position(side, rest, o);
        let r0 = enqueue(side, rest, o);
        assert(r == r0.push(queue.last()));
        assert forall|p: int| 0 <= p < k implies r[p] == #[trigger] queue[p] by {
            assert(r[p] == r0[p] && rest[p] == queue[p]);
        }
        assert forall|p: int| k <= p < queue.len() implies r[p + 1] == #[trigger] queue[p]
            && ahead(side, o, queue[p]) by {
            if p < rest.len() {
                assert(r[p + 1] == r0[p + 1] && rest[p] == queue[p]);
            }
        }
        k
    } else {
        assert(r == queue.push(o));
        queue.len() as int
    }
}

/// Price-time priority keeps time order among equal prices: of two orders
/// of the book at the same price, the one placed earlier comes first in
/// the priority order, for a taker on either side.
pub proof fn law_priority_keeps_time_order(side: OrderSide, book: Seq<Order>)
    ensures
        forall|i: int, j: int|
            0 <= i < j < book.len() && book[i].price == book[j].price ==> comes_before(
                by_priority(side, book),
                #[trigger] book[i],
                #[trigger] book[j],
            ),
    decreases book.len(),
{
    if book.len() > 0 {
        let n = book.len() - 1;
        let rest = book.drop_last();
        let o = book.last();
        let q = by_priority(side, rest);
        law_priority_keeps_time_order(side, rest);
        lemma_by_priority(side, rest);
        let k = lemma_enqueue_position(side, q, o);
        let r = by_priority(side, book);
        assert(r == enqueue(side, q, o));
        assert forall|i: int, j: int|
            0 <= i < j < book.len() && book[i].price == book[j].price implies comes_before(
            r,
            #[trigger] book[i],
            #[trigger] book[j],
        ) by {
            assert(book[i] == rest[i] || i == n);
            if j < n {
                assert(book[i] == rest[i] && book[j] == rest[j]);
                assert(comes_before(q, rest[i], rest[j]));
                let (p, t) = choose|p: int, t: int|
                    0 <= p < t < q.len() && #[trigger] q[p] == rest[i] && #[trigger] q[t] == rest[j];
                let pp = if p < k { p } else { p + 1 };
                let tt = if t < k { t } else { t + 1 };
                assert(q[p] == q[p] && q[t] == q[t]);
                assert(r[pp] == book[i] && r[tt] == book[j]);
            } else {
                assert(book[i] == rest[i]);
                assert(q.contains(rest[i]));
                let x = choose|x: int| 0 <= x < q.len() && q[x] == rest[i];
                if x >= k {
                    assert(q[x] == q[x]);
                    assert(ahead(side, o, q[x]));
                }
                assert(q[x] == q[x]);
                assert(r[x] == book[i] && r[k] == book[j]);
            }
        }
    }
}

/// Which of two resting orders comes strictly first by price for a taker
/// on `side`.
pub fn is_ahead(side: &OrderSide, a: &Order, b: &Order) -> (r: bool)
    ensures
        r == ahead(*side, *a, *b),
{
    match side {
        OrderSide::Buy => a.price < b.price,
        OrderSide::Sell => a.price > b.price,
    }
}

/// Places `o` in the queue `v`, after every order it is not strictly ahead
/// of, counting from the back.
fn enqueue_order(side: &OrderSide, v: &mut Vec<Order>, o: Order)
    ensures
        final(v)@ == enqueue(*side, old(v)@, o),
{
    let ghost q = v@;
    let mut k = v.len();
    assert(q.take(k as int) =~= q);
    assert(enqueue(*side, q, o) + q.skip(k as int) =~= enqueue(*side, q, o));
    while k > 0 && is_ahead(side, &o, &v[k - 1])
        invariant
            k <= v@.len(),
            v@ == q,
            enqueue(*side, q, o) == enqueue(*side, q.take(k as int), o) + q.skip(k as int),
        decreases k,
    {
        let ghost qk = q.take(k as int);
        assert(qk.drop_last() =~= q.take(k - 1));
        assert(qk.last() == q[k - 1]);
        assert(enqueue(*side, qk, o) == enqueue(*side, q.take(k - 1), o).push(q[k - 1]));
        assert(enqueue(*side, q.take(k - 1), o).push(q[k - 1]) + q.skip(k as int) =~= enqueue(
            *side,
            q.take(k - 1),
            o,
        ) + q.skip(k - 1));
        k = k - 1;
    }
    proof {
        if k > 0 {
            assert(q.take(k as int).last() == q[k - 1]);
        }
        assert(enqueue(*side, q.take(k as int), o) == q.take(k as int).push(o));
        assert(q.insert(k as int, o) =~= q.take(k as int).push(o) + q.skip(k as int));
    }
    v.insert(k, o);
}

/// The orders of `book`, given in time order, in price-time priority for a
/// taker on `side`.
pub fn sort_by_priority(side: &OrderSide, book: &Vec<Order>) -> (r: Vec<Order>)
    ensures
        r@ == by_priority(*side, book@),
{
    let mut out: Vec<Order> = Vec::new();
    let n = book.len();
    for i in 0..n
        invariant
            n == book@.len(),
            out@ == by_priority(*side, book@.take(i as int)),
    {
        assert(book@.take(i + 1).drop_last() =~= book@.take(i as int));
        assert(book@.take(i + 1).last() == book@[i as int]);
        enqueue_order(side, &mut out, book[i]);
    }
    assert(book@.take(n as int) =~= book@);
    out
}

/// Everything a sweep needs to know about the incoming order.
pub struct Taker {
    /// The incoming order, before any fill.
    pub order: Order,
    /// The credit token of the order's pool.
    pub credit_token: Address,
    /// The address of the marketplace holding the escrows.
    pub market: Address,
    /// The authorization accompanying the invocation.
    pub auth: Auth,
}

/// The state a sweep threads from one resting order to the next.
pub struct Book {
    pub ledger: LedgerState,
    pub orders: Map<Bytes32, Order>,
    /// The taker's unfilled quantity.
    pub remaining: i128,
    /// Credits exchanged so far.
    pub settled_credits: int,
    /// Paired asset exchanged so far.
    pub settled_paired: int,
    pub fills: Seq<Fill>,
}

/// The outcome of filling the taker against the resting order `maker`: the
/// fill moves `min(maker.remaining, remaining)` credits to the buyer and
/// that quantity times the maker's price in paired asset to the seller,
/// both out of the marketplace's escrow.
pub open spec fn fill_step(t: Taker, maker: Order, b: Book) -> Result<Book, crate::common::Error> {
    let qty: i128 = if maker.remaining < b.remaining {
        maker.remaining
    } else {
        b.remaining
    };
    let paid = qty * maker.price;
    if !fits_i128(paid) {
        Err(crate::common::Error::Overflow)
    } else {
        let credit_to = match t.order.side {
            OrderSide::Buy => t.order.trader,
            OrderSide::Sell => maker.trader,
        };
        let paired_to = match t.order.side {
            OrderSide::Buy => maker.trader,
            OrderSide::Sell => t.order.trader,
        };
        match ledger_transfer(b.ledger, t.auth, t.market, t.credit_token, t.market, credit_to, qty) {
            Err(e) => Err(e),
            Ok(l1) => match ledger_transfer(
                l1,
                t.auth,
                t.market,
                t.order.paired_token,
                t.market,
                paired_to,
                paid as i128,
            ) {
                Err(e) => Err(e),
                Ok(l2) => {
                    let left = (maker.remaining - qty) as i128;
                    Ok(
                        Book {
                            ledger: l2,
                            orders: if left == 0 {
                                b.orders.remove(maker.id)
                            } else {
                                b.orders.insert(maker.id, Order { remaining: left, ..maker })
                            },
                            remaining: (b.remaining - qty) as i128,
                            settled_credits: b.settled_credits + qty,
                            settled_paired: b.settled_paired + paid,
                            fills: b.fills.push(
                                Fill {
                                    maker_id: maker.id,
                                    taker_id: t.order.id,
                                    credits: qty,
                                    paired: paid as i128,
                                },
                            ),
                        },
                    )
                },
            },
        }
    }
}

/// Whether the taker trades against the resting order `maker`: it rests on
/// the other side and its price crosses the taker's limit. The fill pays in
/// the taker's paired asset, whatever asset the resting order names.
pub open spec fn fills_against(t: Taker, maker: Order) -> bool {
    &&& maker.side != t.order.side
    &&& crosses_spec(t.order.side, maker.price, t.order.price)
}

/// The outcome of sweeping the resting orders `makers[i..]` with the
/// taker: orders of the taker's side and orders whose price does not cross
/// are skipped, and the sweep stops once the taker is filled.
pub open spec fn sweep(t: Taker, makers: Seq<Order>, i: int, b: Book) -> Result<
    Book,
    crate::common::Error,
>
    decreases makers.len() - i,
{
    if i < 0 || i >= makers.len() || b.remaining == 0 {
        Ok(b)
    } else {
        let maker = makers[i];
        if !fills_against(t, maker) {
            sweep(t, makers, i + 1, b)
        } else {
            match fill_step(t, maker, b) {
                Err(e) => Err(e),
                Ok(b2) => sweep(t, makers, i + 1, b2),
            }
        }
    }
}

/// A sweep only moves tokens out of the escrow: it deploys or removes no
/// token and changes no token's total supply.
pub proof fn law_sweep_keeps_supplies(t: Taker, makers: Seq<Order>, i: int, b: Book)
    requires
        sweep(t, makers, i, b) is Ok,
    ensures
        ({
            let r = sweep(t, makers, i, b)->Ok_0;
            &&& r.ledger.dom() == b.ledger.dom()
            &&& forall|w: Address| #[trigger] b.ledger.contains_key(w) ==> r.ledger[w].total_supply
                == b.ledger[w].total_supply
        }),
    decreases makers.len() - i,
{
    if i < 0 || i >= makers.len() || b.remaining == 0 {
    } else {
        let maker = makers[i];
        if !fills_against(t, maker) {
            law_sweep_keeps_supplies(t, makers, i + 1, b);
        } else {
            let b2 = fill_step(t, maker, b)->Ok_0;
            let qty: i128 = if maker.remaining < b.remaining {
                maker.remaining
            } else {
                b.remaining
            };
            let credit_to = match t.order.side {
                OrderSide::Buy => t.order.trader,
                OrderSide::Sell => maker.trader,
            };
            let paired_to = match t.order.side {
                OrderSide::Buy => maker.trader,
                OrderSide::Sell => t.order.trader,
            };
            law_ledger_transfer_keeps_supplies(b.ledger, t.auth, t.market, t.credit_token, t.market, credit_to, qty);
            let l1 = ledger_transfer(b.ledger, t.auth, t.market, t.credit_token, t.market, credit_to, qty)->Ok_0;
            law_ledger_transfer_keeps_supplies(
                l1,
                t.auth,
                t.market,
                t.order.paired_token,
                t.market,
                paired_to,
                (qty * maker.price) as i128,
            );
            law_sweep_keeps_supplies(t, makers, i + 1, b2);
        }
    }
}

/// Every fill of a sweep trades at the resting order's price, which never
/// is worse than the taker's limit: a buying taker pays at most its limit
/// price per credit bought, a selling taker receives at least its limit
/// price per credit sold; and every credit the taker is filled for comes
/// off its unfilled quantity, which never grows and never drops below
/// zero.
pub proof fn law_sweep_fills_within_limit(t: Taker, makers: Seq<Order>, i: int, b: Book)
    requires
        sweep(t, makers, i, b) is Ok,
        b.remaining >= 0,
        t.order.price > 0,
        forall|k: int| 0 <= k < makers.len() ==> #[trigger] makers[k].remaining > 0,
    ensures
        ({
            let r = sweep(t, makers, i, b)->Ok_0;
            let credits = r.settled_credits - b.settled_credits;
            let paired = r.settled_paired - b.settled_paired;
            &&& 0 <= r.remaining <= b.remaining
            &&& r.remaining + r.settled_credits == b.remaining + b.settled_credits
            &&& t.order.side == OrderSide::Buy ==> paired <= credits * t.order.price
            &&& t.order.side == OrderSide::Sell ==> paired >= credits * t.order.price
        }),
    decreases makers.len() - i,
{
    if i < 0 || i >= makers.len() || b.remaining == 0 {
        assert(0 * t.order.price == 0);
    } else {
        let maker = makers[i];
        if !fills_against(t, maker) {
            law_sweep_fills_within_limit(t, makers, i + 1, b);
        } else {
            let b2 = fill_step(t, maker, b)->Ok_0;
            let qty: int = b2.settled_credits - b.settled_credits;
            assert(qty > 0);
            law_sweep_fills_within_limit(t, makers, i + 1, b2);
            let r = sweep(t, makers, i, b)->Ok_0;
            let later: int = r.settled_credits - b2.settled_credits;
            let p = t.order.price;
            let mp = maker.price;
            let later_paired: int = r.settled_paired - b2.settled_paired;
            assert(b2.settled_paired - b.settled_paired == qty * mp);
            assert(later >= 0);
            assert((qty + later) * p == qty * p + later * p) by (nonlinear_arith);
            if t.order.side == OrderSide::Buy {
                assert(qty * mp <= qty * p) by (nonlinear_arith)
                    requires
                        qty > 0,
                        mp <= p,
                ;
                assert(later_paired <= later * p);
            } else {
                assert(qty * mp >= qty * p) by (nonlinear_arith)
                    requires
                        qty > 0,
                        mp >= p,
                ;
                assert(later_paired >= later * p);
                assert(r.settled_paired - b.settled_paired == qty * mp + later_paired);
                assert(r.settled_credits - b.settled_credits == qty + later);
            }
        }
    }
}

} // verus!
