//! The exchange: a ledger of two assets and an order book between them.
use crate::board::types::{BoardError, ExchangeAccount, Order, OrderStatus, Side, Trade, TAKER_FEE_BPS};
use crate::board::{BoardView, TaskBoard};
use crate::clock::fresh_id;
use crate::seqs::lemma_total_agrees;
use crate::table::{
    lemma_map_sum_insert, lemma_map_sum_not_negative, lemma_map_sum_parts, lemma_row_is_mapped, listable, map_sum,
    row_of, rows_of, Key,
};
use crate::types::{Id, PublicKey, Timestamp};
use vstd::arithmetic::mul::*;
use vstd::prelude::*;

verus! {

impl Order {
    /// What is left to fill.
    pub open spec fn remaining(self) -> int {
        self.quantity - self.filled
    }

    /// The base that the unfilled part of a buy holds back.
    pub open spec fn locks_base(self) -> int {
        if self.side == Side::Buy && self.status == OrderStatus::Open {
            self.price * self.remaining()
        } else {
            0
        }
    }

    /// The compute that the unfilled part of a sale holds back.
    pub open spec fn locks_compute(self) -> int {
        if self.side == Side::Sell && self.status == OrderStatus::Open {
            self.remaining()
        } else {
            0
        }
    }

    /// An order never fills beyond its quantity, has something left to fill
    /// while it is open, and is worth what fits in sixty-four bits.
    pub open spec fn sound(self) -> bool {
        &&& self.filled <= self.quantity
        &&& self.status == OrderStatus::Open ==> self.filled < self.quantity
        &&& self.price * self.quantity <= u64::MAX
    }
}

impl BoardView {
    /// The board with `order` filed under its id.
    pub open spec fn with_order(self, order: Order) -> BoardView {
        BoardView { orders: self.orders.insert(order.id, order), ..self }
    }

    /// The board with `account` filed under its owner.
    pub open spec fn with_account(self, owner: PublicKey, account: ExchangeAccount) -> BoardView {
        BoardView { exchange_accounts: self.exchange_accounts.insert(owner, account), ..self }
    }

    /// What all accounts hold of base.
    pub open spec fn base_total(self) -> int {
        map_sum(self.exchange_accounts, |k: PublicKey, a: ExchangeAccount| a.base_balance as int)
    }

    /// What all accounts hold of compute.
    pub open spec fn compute_total(self) -> int {
        map_sum(self.exchange_accounts, |k: PublicKey, a: ExchangeAccount| a.compute_balance as int)
    }

    /// The base that an owner's open buys hold back.
    pub open spec fn buys_hold(self, owner: PublicKey) -> int {
        map_sum(
            self.orders,
            |k: Id, o: Order|
                if o.owner == owner {
                    o.locks_base()
                } else {
                    0
                },
        )
    }

    /// The compute that an owner's open sales hold back.
    pub open spec fn sales_hold(self, owner: PublicKey) -> int {
        map_sum(
            self.orders,
            |k: Id, o: Order|
                if o.owner == owner {
                    o.locks_compute()
                } else {
                    0
                },
        )
    }

    /// Every account covers what is locked in it, and what is locked covers
    /// what the owner's open orders hold back. `extra_base` and
    /// `extra_compute` are held back on top for one more order of `taker`.
    pub open spec fn covers(self, taker: PublicKey, extra_base: int, extra_compute: int) -> bool {
        &&& forall|owner: PublicKey| #[trigger]
            self.account_of(owner).locked_base <= self.account_of(owner).base_balance
        &&& forall|owner: PublicKey| #[trigger]
            self.account_of(owner).locked_compute <= self.account_of(owner).compute_balance
        &&& forall|owner: PublicKey| #[trigger]
            self.buys_hold(owner) + (if owner == taker { extra_base } else { 0 }) <= self.account_of(owner).locked_base
        &&& forall|owner: PublicKey| #[trigger]
            self.sales_hold(owner) + (if owner == taker { extra_compute } else { 0 })
                <= self.account_of(owner).locked_compute
    }

    /// Every order is sound, and what all accounts hold of each asset fits in
    /// sixty-four bits.
    pub open spec fn ledger_fits(self) -> bool {
        &&& forall|id: Id| #[trigger] self.orders.contains_key(id) ==> self.orders[id].sound()
        &&& self.base_total() <= u64::MAX
        &&& self.compute_total() <= u64::MAX
    }

    /// The ledger's invariant.
    pub open spec fn exchange_sound(self) -> bool {
        self.ledger_fits() && forall|taker: PublicKey| #[trigger] self.covers(taker, 0, 0)
    }
}

/// The other side of the book.
pub open spec fn opposite(side: Side) -> Side {
    match side {
        Side::Buy => Side::Sell,
        Side::Sell => Side::Buy,
    }
}

/// Whether a price is acceptable to an order on `side` with limit `limit`.
pub open spec fn crosses(side: Side, limit: u64, price: u64) -> bool {
    match side {
        Side::Buy => price <= limit,
        Side::Sell => price >= limit,
    }
}

/// Whether `taker` may match `o`: an open order of somebody else, on the
/// other side, at an acceptable price.
pub open spec fn may_match(taker: Order, o: Order) -> bool {
    &&& o.status == OrderStatus::Open
    &&& o.side == opposite(taker.side)
    &&& o.owner != taker.owner
    &&& crosses(taker.side, taker.price, o.price)
}

/// Whether `a` comes before `b` for a taker on `side`: at a better price, or
/// earlier at the same price, or with the smaller id at the same instant.
pub open spec fn comes_first(side: Side, a: Order, b: Order) -> bool {
    if a.price != b.price {
        match side {
            Side::Buy => a.price < b.price,
            Side::Sell => a.price > b.price,
        }
    } else if a.created_at.nanos != b.created_at.nanos {
        a.created_at.nanos < b.created_at.nanos
    } else {
        a.id <= b.id
    }
}

/// Whether `id` is the order that `taker` matches next.
pub open spec fn is_best_match(b: BoardView, taker: Order, id: Id) -> bool {
    &&& b.orders.contains_key(id)
    &&& may_match(taker, b.orders[id])
    &&& forall|other: Id| #[trigger]
        b.orders.contains_key(other) && may_match(taker, b.orders[other]) ==> comes_first(
            taker.side,
            b.orders[id],
            b.orders[other],
        )
}

/// The order that `taker` matches next, if there is one.
pub open spec fn best_match(b: BoardView, taker: Order) -> Option<Id> {
    if exists|id: Id| is_best_match(b, taker, id) {
        Some(choose|id: Id| is_best_match(b, taker, id))
    } else {
        None
    }
}

/// At most one order is the best match.
pub proof fn lemma_best_match_is_unique(b: BoardView, taker: Order, x: Id, y: Id)
    requires
        b.wf(),
        is_best_match(b, taker, x),
        is_best_match(b, taker, y),
    ensures
        x == y,
        best_match(b, taker) == Some(x),
{
    assert(b.orders.contains_key(x) && b.orders.contains_key(y));
    let z = best_match(b, taker)->0;
    assert(b.orders.contains_key(z));
}

/// How much changes hands between `taker` and a resting order.
pub open spec fn fill_quantity(taker: Order, resting: Order) -> int {
    if taker.remaining() <= resting.remaining() {
        taker.remaining()
    } else {
        resting.remaining()
    }
}

/// The taker's fee, out of what the taker receives.
pub open spec fn fee_of(side: Side, price: u64, quantity: int) -> int {
    match side {
        Side::Buy => quantity * TAKER_FEE_BPS / 10_000,
        Side::Sell => price * quantity * TAKER_FEE_BPS / 10_000,
    }
}

/// Who buys, at which limit, and who sells.
pub open spec fn trading_parties(taker: Order, resting: Order) -> (PublicKey, u64, PublicKey) {
    match taker.side {
        Side::Buy => (taker.owner, taker.price, resting.owner),
        Side::Sell => (resting.owner, resting.price, taker.owner),
    }
}

/// The buyer's account after a match: the lock is released at the buyer's own
/// limit, the price paid is the resting order's.
pub open spec fn buyer_after(a: ExchangeAccount, taker: Order, resting: Order) -> ExchangeAccount {
    let q = fill_quantity(taker, resting);
    let fee = fee_of(taker.side, resting.price, q);
    let limit = trading_parties(taker, resting).1;
    ExchangeAccount {
        locked_base: (a.locked_base - limit * q) as u64,
        base_balance: (a.base_balance - resting.price * q) as u64,
        compute_balance: (a.compute_balance + q - if taker.side == Side::Buy { fee } else { 0 }) as u64,
        ..a
    }
}

/// The seller's account after a match.
pub open spec fn seller_after(a: ExchangeAccount, taker: Order, resting: Order) -> ExchangeAccount {
    let q = fill_quantity(taker, resting);
    let fee = fee_of(taker.side, resting.price, q);
    ExchangeAccount {
        locked_compute: (a.locked_compute - q) as u64,
        compute_balance: (a.compute_balance - q) as u64,
        base_balance: (a.base_balance + resting.price * q - if taker.side == Side::Sell { fee } else { 0 }) as u64,
        ..a
    }
}

/// An order with `quantity` more of it filled.
pub open spec fn filled_by(o: Order, quantity: int) -> Order {
    let filled = (o.filled + quantity) as u64;
    Order {
        filled,
        status: if filled >= o.quantity {
            OrderStatus::Filled
        } else {
            o.status
        },
        ..o
    }
}

/// The board after `taker` and a resting order have been matched.
pub open spec fn settled(b: BoardView, taker: Order, resting: Order) -> BoardView {
    let (buyer, limit, seller) = trading_parties(taker, resting);
    let bought = b.with_order(filled_by(resting, fill_quantity(taker, resting))).with_account(
        buyer,
        buyer_after(b.account_of(buyer), taker, resting),
    );
    bought.with_account(seller, seller_after(bought.account_of(seller), taker, resting))
}

/// The record of a match.
pub open spec fn trade_of(taker: Order, resting: Order, id: Id, now: Timestamp) -> Trade {
    let (buyer, limit, seller) = trading_parties(taker, resting);
    let q = fill_quantity(taker, resting);
    Trade {
        id,
        buy_order_id: if taker.side == Side::Buy {
            taker.id
        } else {
            resting.id
        },
        sell_order_id: if taker.side == Side::Buy {
            resting.id
        } else {
            taker.id
        },
        buyer,
        seller,
        price: resting.price,
        quantity: q as u64,
        executed_at: now,
        taker_side: taker.side,
        taker_fee: fee_of(taker.side, resting.price, q) as u64,
    }
}

/// An order being matched: the board, the order with what is filled of it,
/// and the trades so far.
#[verifier::ext_equal]
pub struct Matching {
    pub board: BoardView,
    pub taker: Order,
    pub trades: Seq<Trade>,
}

impl Matching {
    /// Whether the order can be matched further.
    pub open spec fn goes_on(self) -> bool {
        self.taker.filled < self.taker.quantity && best_match(self.board, self.taker) is Some
    }

    /// The next match, recorded under `id`.
    pub open spec fn next(self, id: Id, now: Timestamp) -> Matching {
        let resting = self.board.orders[best_match(self.board, self.taker)->0];
        Matching {
            board: settled(self.board, self.taker, resting),
            taker: Order {
                filled: (self.taker.filled + fill_quantity(self.taker, resting)) as u64,
                ..self.taker
            },
            trades: self.trades.push(trade_of(self.taker, resting, id, now)),
        }
    }

    /// As many matches as there are ids, recorded under them.
    pub open spec fn after(self, ids: Seq<Id>, now: Timestamp) -> Matching
        decreases ids.len(),
    {
        if ids.len() == 0 {
            self
        } else {
            self.after(ids.drop_last(), now).next(ids.last(), now)
        }
    }

    /// Every one of the matches was possible.
    pub open spec fn ran(self, ids: Seq<Id>, now: Timestamp) -> bool {
        forall|n: int| 0 <= n < ids.len() ==> (#[trigger] self.after(ids.take(n), now)).goes_on()
    }

    /// What every match keeps.
    pub open spec fn sound(self) -> bool {
        &&& self.board.wf()
        &&& self.board.ledger_fits()
        &&& self.taker.status == OrderStatus::Open
        &&& self.taker.filled <= self.taker.quantity
        &&& self.taker.price * self.taker.quantity <= u64::MAX
        &&& self.board.covers(self.taker.owner, self.taker.locks_base(), self.taker.locks_compute())
    }
}

/// Filing an order changes what its owner's orders hold back by what it holds
/// back, less what the order it replaces held back.
pub proof fn lemma_holds_with_order(b: BoardView, o: Order, owner: PublicKey)
    requires
        listable(b.orders),
    ensures
        listable(b.with_order(o).orders),
        b.with_order(o).buys_hold(owner) == b.buys_hold(owner) + (if o.owner == owner { o.locks_base() } else { 0 }) - (
        if b.orders.contains_key(o.id) && b.orders[o.id].owner == owner { b.orders[o.id].locks_base() } else { 0 }),
        b.with_order(o).sales_hold(owner) == b.sales_hold(owner) + (if o.owner == owner { o.locks_compute() } else { 0 })
            - (if b.orders.contains_key(o.id) && b.orders[o.id].owner == owner { b.orders[o.id].locks_compute() } else {
            0
        }),
{
    let f = |k: Id, x: Order| if x.owner == owner { x.locks_base() } else { 0 };
    let g = |k: Id, x: Order| if x.owner == owner { x.locks_compute() } else { 0 };
    lemma_map_sum_insert(b.orders, o.id, o, f);
    lemma_map_sum_insert(b.orders, o.id, o, g);
}

/// Filing an account changes the totals by the difference to what its owner
/// had.
pub proof fn lemma_totals_with_account(b: BoardView, owner: PublicKey, a: ExchangeAccount)
    requires
        listable(b.exchange_accounts),
    ensures
        listable(b.with_account(owner, a).exchange_accounts),
        b.with_account(owner, a).base_total() == b.base_total() + a.base_balance - b.account_of(owner).base_balance,
        b.with_account(owner, a).compute_total() == b.compute_total() + a.compute_balance - b.account_of(
            owner,
        ).compute_balance,
{
    let f = |k: PublicKey, x: ExchangeAccount| x.base_balance as int;
    let g = |k: PublicKey, x: ExchangeAccount| x.compute_balance as int;
    lemma_map_sum_insert(b.exchange_accounts, owner, a, f);
    lemma_map_sum_insert(b.exchange_accounts, owner, a, g);
}

/// Two owners hold no more between them than all accounts do.
pub proof fn lemma_two_accounts(b: BoardView, x: PublicKey, y: PublicKey)
    requires
        listable(b.exchange_accounts),
        x != y,
    ensures
        b.account_of(x).base_balance + b.account_of(y).base_balance <= b.base_total(),
        b.account_of(x).compute_balance + b.account_of(y).compute_balance <= b.compute_total(),
{
    let f = |k: PublicKey, a: ExchangeAccount| a.base_balance as int;
    let g = |k: PublicKey, a: ExchangeAccount| a.compute_balance as int;
    lemma_map_sum_not_negative(b.exchange_accounts, f);
    lemma_map_sum_not_negative(b.exchange_accounts, g);
    if b.exchange_accounts.contains_key(x) && b.exchange_accounts.contains_key(y) {
        lemma_map_sum_parts(b.exchange_accounts, f, x, y);
        lemma_map_sum_parts(b.exchange_accounts, g, x, y);
    } else if b.exchange_accounts.contains_key(x) {
        lemma_map_sum_parts(b.exchange_accounts, f, x, x);
        lemma_map_sum_parts(b.exchange_accounts, g, x, x);
    } else if b.exchange_accounts.contains_key(y) {
        lemma_map_sum_parts(b.exchange_accounts, f, y, y);
        lemma_map_sum_parts(b.exchange_accounts, g, y, y);
    }
}

/// An open order of an owner is part of what the owner's orders hold back.
pub proof fn lemma_order_is_held(b: BoardView, id: Id)
    requires
        listable(b.orders),
        b.orders.contains_key(id),
        forall|i: Id| #[trigger] b.orders.contains_key(i) ==> b.orders[i].sound(),
    ensures
        b.orders[id].locks_base() <= b.buys_hold(b.orders[id].owner),
        b.orders[id].locks_compute() <= b.sales_hold(b.orders[id].owner),
{
    let owner = b.orders[id].owner;
    // Orders that are not sound are none of this board's; they count as
    // nothing here so that every amount is seen not to be negative.
    let f = |k: Id, o: Order| if o.owner == owner && o.sound() { o.locks_base() } else { 0 };
    let g = |k: Id, o: Order| if o.owner == owner && o.sound() { o.locks_compute() } else { 0 };
    assert forall|k: Id, o: Order| #[trigger] f(k, o) >= 0 by {
        if o.owner == owner && o.sound() {
            assert(o.price * o.remaining() >= 0) by (nonlinear_arith)
                requires
                    o.price >= 0,
                    o.remaining() >= 0,
            ;
        }
    }
    lemma_map_sum_parts(b.orders, f, id, id);
    lemma_map_sum_parts(b.orders, g, id, id);
    lemma_same_sums(b, owner);
}

/// What an owner's orders hold back is the same counted over all orders or
/// over the sound ones.
pub proof fn lemma_same_sums(b: BoardView, owner: PublicKey)
    requires
        listable(b.orders),
        forall|i: Id| #[trigger] b.orders.contains_key(i) ==> b.orders[i].sound(),
    ensures
        b.buys_hold(owner) == map_sum(
            b.orders,
            |k: Id, o: Order|
                if o.owner == owner && o.sound() {
                    o.locks_base()
                } else {
                    0
                },
        ),
        b.sales_hold(owner) == map_sum(
            b.orders,
            |k: Id, o: Order|
                if o.owner == owner && o.sound() {
                    o.locks_compute()
                } else {
                    0
                },
        ),
{
    let rows = rows_of(b.orders);
    assert forall|i: int| 0 <= i < rows.len() implies (#[trigger] rows[i]).1.sound() by {
        lemma_row_is_mapped(rows, i);
        assert(b.orders.contains_key(rows[i].0));
    }
    lemma_total_agrees(
        rows,
        |row: (Id, Order)| (|k: Id, o: Order| if o.owner == owner { o.locks_base() } else { 0 })(row.0, row.1),
        |row: (Id, Order)|
            (|k: Id, o: Order|
                if o.owner == owner && o.sound() {
                    o.locks_base()
                } else {
                    0
                })(row.0, row.1),
    );
    lemma_total_agrees(
        rows,
        |row: (Id, Order)| (|k: Id, o: Order| if o.owner == owner { o.locks_compute() } else { 0 })(row.0, row.1),
        |row: (Id, Order)|
            (|k: Id, o: Order|
                if o.owner == owner && o.sound() {
                    o.locks_compute()
                } else {
                    0
                })(row.0, row.1),
    );
}

/// Every amount that a match moves is there to be moved.
pub open spec fn match_is_covered(b: BoardView, taker: Order, resting: Order) -> bool {
    let q = fill_quantity(taker, resting);
    let fee = fee_of(taker.side, resting.price, q);
    let (buyer, limit, seller) = trading_parties(taker, resting);
    &&& buyer != seller
    &&& 0 < q <= taker.remaining()
    &&& q <= resting.remaining()
    &&& resting.price * q <= limit * q <= b.account_of(buyer).locked_base <= b.account_of(buyer).base_balance
    &&& q <= b.account_of(seller).locked_compute <= b.account_of(seller).compute_balance
    &&& b.account_of(buyer).compute_balance + q <= u64::MAX
    &&& b.account_of(seller).base_balance + resting.price * q <= u64::MAX
    &&& 0 <= fee <= (if taker.side == Side::Buy { q } else { resting.price * q })
}

proof fn lemma_fee_bounds(side: Side, price: u64, q: int)
    requires
        q >= 0,
    ensures
        0 <= fee_of(side, price, q) <= (if side == Side::Buy { q } else { price * q }),
{
    assert(price * q >= 0) by (nonlinear_arith)
        requires
            price >= 0,
            q >= 0,
    ;
}

/// A match that the taker may make is covered.
pub proof fn lemma_match_is_covered(m: Matching, resting: Order)
    requires
        m.sound(),
        m.taker.filled < m.taker.quantity,
        m.board.orders.contains_key(resting.id),
        m.board.orders[resting.id] == resting,
        may_match(m.taker, resting),
    ensures
        match_is_covered(m.board, m.taker, resting),
{
    let b = m.board;
    let taker = m.taker;
    let q = fill_quantity(taker, resting);
    let (buyer, limit, seller) = trading_parties(taker, resting);
    assert(resting.sound());
    lemma_order_is_held(b, resting.id);
    lemma_two_accounts(b, buyer, seller);
    lemma_fee_bounds(taker.side, resting.price, q);
    assert(b.account_of(buyer).locked_base <= b.account_of(buyer).base_balance);
    assert(b.account_of(seller).locked_compute <= b.account_of(seller).compute_balance);
    assert(b.buys_hold(buyer) + (if buyer == taker.owner { taker.locks_base() } else { 0 }) <= b.account_of(
        buyer,
    ).locked_base);
    assert(b.sales_hold(seller) + (if seller == taker.owner { taker.locks_compute() } else { 0 }) <= b.account_of(
        seller,
    ).locked_compute);
    lemma_hold_not_negative(b, buyer);
    lemma_hold_not_negative(b, seller);
    let rp = resting.price as int;
    let tr = taker.remaining();
    let rr = resting.remaining();
    let l = limit as int;
    assert(rp * q <= l * q) by (nonlinear_arith)
        requires
            rp <= l,
            q >= 0,
    ;
    match taker.side {
        Side::Buy => {
            assert(l * q <= l * tr) by (nonlinear_arith)
                requires
                    0 <= l,
                    q <= tr,
            ;
        },
        Side::Sell => {
            assert(l * q <= l * rr) by (nonlinear_arith)
                requires
                    0 <= l,
                    q <= rr,
            ;
        },
    }
}

/// What open orders hold back is not negative.
proof fn lemma_hold_not_negative(b: BoardView, owner: PublicKey)
    requires
        listable(b.orders),
        forall|i: Id| #[trigger] b.orders.contains_key(i) ==> b.orders[i].sound(),
    ensures
        b.buys_hold(owner) >= 0,
        b.sales_hold(owner) >= 0,
{
    let f = |k: Id, o: Order| if o.owner == owner && o.sound() { o.locks_base() } else { 0 };
    let g = |k: Id, o: Order| if o.owner == owner && o.sound() { o.locks_compute() } else { 0 };
    assert forall|k: Id, o: Order| #[trigger] f(k, o) >= 0 by {
        if o.owner == owner && o.sound() {
            assert(o.price * o.remaining() >= 0) by (nonlinear_arith)
                requires
                    o.price >= 0,
                    o.remaining() >= 0,
            ;
        }
    }
    lemma_map_sum_not_negative(b.orders, f);
    lemma_map_sum_not_negative(b.orders, g);
    lemma_same_sums(b, owner);
}

/// What a fill of `q` takes off an order's lock.
pub proof fn lemma_lock_released(o: Order, q: int)
    requires
        o.sound(),
        o.status == OrderStatus::Open,
        0 < q <= o.remaining(),
    ensures
        filled_by(o, q).sound(),
        filled_by(o, q).remaining() == o.remaining() - q,
        filled_by(o, q).locks_base() == o.locks_base() - (if o.side == Side::Buy { o.price * q } else { 0 }),
        filled_by(o, q).locks_compute() == o.locks_compute() - (if o.side == Side::Sell { q } else { 0 }),
{
    let p = o.price as int;
    let r = o.remaining();
    assert(p * (r - q) == p * r - p * q) by (nonlinear_arith);
    if r == q {
        assert(p * (r - q) == 0) by (nonlinear_arith)
            requires
                r == q,
        ;
    }
}

/// A match keeps the ledger sound, and the fee is all that leaves it.
pub proof fn lemma_match_keeps_sound(m: Matching, resting: Order)
    requires
        m.sound(),
        m.taker.filled < m.taker.quantity,
        m.board.orders.contains_key(resting.id),
        m.board.orders[resting.id] == resting,
        may_match(m.taker, resting),
    ensures
        ({
            let q = fill_quantity(m.taker, resting);
            let fee = fee_of(m.taker.side, resting.price, q);
            let after = settled(m.board, m.taker, resting);
            let taker = Order { filled: (m.taker.filled + q) as u64, ..m.taker };
            &&& after.ledger_fits()
            &&& after.listed()
            &&& after.covers(taker.owner, taker.locks_base(), taker.locks_compute())
            &&& after.base_total() == m.board.base_total() - (if m.taker.side == Side::Sell { fee } else { 0 })
            &&& after.compute_total() == m.board.compute_total() - (if m.taker.side == Side::Buy { fee } else { 0 })
        }),
{
    let b = m.board;
    let taker = m.taker;
    let q = fill_quantity(taker, resting);
    let fee = fee_of(taker.side, resting.price, q);
    let (buyer, limit, seller) = trading_parties(taker, resting);
    lemma_match_is_covered(m, resting);
    assert(resting.sound());
    let filled = filled_by(resting, q);
    lemma_lock_released(resting, q);
    let b1 = b.with_order(filled);
    let ba = buyer_after(b.account_of(buyer), taker, resting);
    let b2 = b1.with_account(buyer, ba);
    let sa = seller_after(b2.account_of(seller), taker, resting);
    let b3 = b2.with_account(seller, sa);
    assert(b3 == settled(b, taker, resting));
    assert(b2.account_of(seller) == b.account_of(seller));
    lemma_totals_with_account(b1, buyer, ba);
    lemma_totals_with_account(b2, seller, sa);
    lemma_holds_with_order(b, filled, buyer);
    lemma_two_accounts(b, buyer, seller);
    let rest = Order { filled: (taker.filled + q) as u64, ..taker };
    let p = taker.price as int;
    let tr = taker.remaining();
    assert(p * (tr - q) == p * tr - p * q) by (nonlinear_arith);
    assert(rest.remaining() == tr - q);
    assert forall|id: Id| #[trigger] b3.orders.contains_key(id) implies b3.orders[id].sound() by {
        if id != filled.id {
            assert(b.orders.contains_key(id));
        }
    }
    assert forall|owner: PublicKey| #[trigger] b3.account_of(owner).locked_base <= b3.account_of(
        owner,
    ).base_balance by {
        assert(b.account_of(owner).locked_base <= b.account_of(owner).base_balance);
    }
    assert forall|owner: PublicKey| #[trigger] b3.account_of(owner).locked_compute <= b3.account_of(
        owner,
    ).compute_balance by {
        assert(b.account_of(owner).locked_compute <= b.account_of(owner).compute_balance);
    }
    assert forall|owner: PublicKey| #[trigger]
        b3.buys_hold(owner) + (if owner == taker.owner { rest.locks_base() } else { 0 }) <= b3.account_of(
            owner,
        ).locked_base by {
        lemma_holds_with_order(b, filled, owner);
        assert(b.buys_hold(owner) + (if owner == taker.owner { taker.locks_base() } else { 0 }) <= b.account_of(
            owner,
        ).locked_base);
        assert(b3.buys_hold(owner) == b1.buys_hold(owner));
    }
    assert forall|owner: PublicKey| #[trigger]
        b3.sales_hold(owner) + (if owner == taker.owner { rest.locks_compute() } else { 0 }) <= b3.account_of(
            owner,
        ).locked_compute by {
        lemma_holds_with_order(b, filled, owner);
        assert(b.sales_hold(owner) + (if owner == taker.owner { taker.locks_compute() } else { 0 }) <= b.account_of(
            owner,
        ).locked_compute);
        assert(b3.sales_hold(owner) == b1.sales_hold(owner));
    }
}

/// Whether `taker` may match `o`.
fn can_match(taker: &Order, o: &Order) -> (r: bool)
    ensures
        r == may_match(*taker, *o),
{
    let other_side = match taker.side {
        Side::Buy => o.side == Side::Sell,
        Side::Sell => o.side == Side::Buy,
    };
    let acceptable = match taker.side {
        Side::Buy => o.price <= taker.price,
        Side::Sell => o.price >= taker.price,
    };
    o.status == OrderStatus::Open && other_side && o.owner != taker.owner && acceptable
}

impl TaskBoard {
    /// The resting order that `taker` matches next: the best price first,
    /// then the earliest.
    pub fn best_resting_match(&self, taker: &Order) -> (r: Option<Id>)
        requires
            self.wf(),
        ensures
            r == best_match(self@, *taker),
            match r {
                Some(id) => is_best_match(self@, *taker, id),
                None => forall|id: Id| #[trigger] self@.orders.contains_key(id) ==> !may_match(*taker, self@.orders[id]),
            },
    {
        let ghost rows = self.orders.rows();
        let mut best: Option<Order> = None;
        let mut i: usize = 0;
        while i < self.orders.len()
            invariant
                i <= rows.len(),
                rows == self.orders.rows(),
                self.wf(),
                match best {
                    Some(o) => {
                        &&& exists|j: int| 0 <= j < i && (#[trigger] rows[j]).1 == o
                        &&& may_match(*taker, o)
                        &&& forall|j: int|
                            0 <= j < i && may_match(*taker, (#[trigger] rows[j]).1) ==> comes_first(
                                taker.side,
                                o,
                                rows[j].1,
                            )
                    },
                    None => forall|j: int| 0 <= j < i ==> !may_match(*taker, (#[trigger] rows[j]).1),
                },
            decreases rows.len() - i,
        {
            let o = *self.orders.value_at(i);
            proof {
                assert forall|j: int| 0 <= j <= i implies self@.orders.contains_key((#[trigger] rows[j]).0)
                    && rows[j].1.id == rows[j].0 by {
                    lemma_row_is_mapped(rows, j);
                    assert(self@.orders.contains_key(rows[j].0));
                }
                assert(rows[i as int].1 == o);
                assert forall|j: int| 0 <= j < i implies (#[trigger] rows[j]).1.id < o.id by {
                    assert(rows[j].0.rank() < rows[i as int].0.rank());
                }
            }
            if can_match(taker, &o) {
                let better = match best {
                    None => true,
                    Some(b) => {
                        if o.price != b.price {
                            match taker.side {
                                Side::Buy => o.price < b.price,
                                Side::Sell => o.price > b.price,
                            }
                        } else {
                            o.created_at.nanos < b.created_at.nanos
                        }
                    },
                };
                if better {
                    best = Some(o);
                }
            }
            i += 1;
        }
        proof {
            assert forall|id: Id| #[trigger] self@.orders.contains_key(id) implies exists|j: int|
                0 <= j < rows.len() && (#[trigger] rows[j]).0 == id && rows[j].1 == self@.orders[id] by {
                let j = row_of(rows, id);
                lemma_row_is_mapped(rows, j);
                assert(rows[j].0 == id);
            }
            if let Some(o) = best {
                let j = choose|j: int| 0 <= j < rows.len() && (#[trigger] rows[j]).1 == o;
                lemma_row_is_mapped(rows, j);
                assert(self@.orders.contains_key(rows[j].0));
                assert(is_best_match(self@, *taker, o.id));
                lemma_best_match_is_unique(self@, *taker, o.id, o.id);
            } else {
                assert forall|id: Id| !is_best_match(self@, *taker, id) by {
                    if is_best_match(self@, *taker, id) {
                        assert(self@.orders.contains_key(id));
                    }
                }
            }
        }
        match best {
            Some(o) => Some(o.id),
            None => None,
        }
    }

    /// Moves what a match between `taker` and `resting` moves, and tells how
    /// much was filled and what fee it cost.
    fn settle(&mut self, taker: &Order, resting: &Order) -> (r: (u64, u64))
        requires
            old(self).wf(),
            match_is_covered(old(self)@, *taker, *resting),
            old(self)@.orders.contains_key(resting.id),
            taker.filled <= taker.quantity,
            resting.filled <= resting.quantity,
        ensures
            final(self).wf(),
            final(self)@ == settled(old(self)@, *taker, *resting),
            r.0 == fill_quantity(*taker, *resting),
            r.1 == fee_of(taker.side, resting.price, fill_quantity(*taker, *resting)),
    {
        let ghost q = fill_quantity(*taker, *resting);
        let left: u64 = taker.quantity - taker.filled;
        let there: u64 = resting.quantity - resting.filled;
        let fill: u64 = if left <= there {
            left
        } else {
            there
        };
        let filled: u64 = resting.filled + fill;
        let changed = Order {
            filled,
            status: if filled >= resting.quantity {
                OrderStatus::Filled
            } else {
                resting.status
            },
            ..*resting
        };
        self.orders.insert(resting.id, changed);

        let (buyer, limit, seller) = match taker.side {
            Side::Buy => (taker.owner, taker.price, resting.owner),
            Side::Sell => (resting.owner, resting.price, taker.owner),
        };
        let notional: u64 = resting.price * fill;
        let released: u64 = limit * fill;
        let taker_fee: u64 = match taker.side {
            Side::Buy => (fill as u128 * TAKER_FEE_BPS as u128 / 10_000) as u64,
            Side::Sell => (notional as u128 * TAKER_FEE_BPS as u128 / 10_000) as u64,
        };

        let a = self.exchange_account(&buyer);
        let compute_credit: u64 = match taker.side {
            Side::Buy => fill - taker_fee,
            Side::Sell => fill,
        };
        self.exchange_accounts.insert(
            buyer,
            ExchangeAccount {
                locked_base: a.locked_base - released,
                base_balance: a.base_balance - notional,
                compute_balance: a.compute_balance + compute_credit,
                ..a
            },
        );

        let a = self.exchange_account(&seller);
        let base_credit: u64 = match taker.side {
            Side::Buy => notional,
            Side::Sell => notional - taker_fee,
        };
        self.exchange_accounts.insert(
            seller,
            ExchangeAccount {
                locked_compute: a.locked_compute - fill,
                compute_balance: a.compute_balance - fill,
                base_balance: a.base_balance + base_credit,
                ..a
            },
        );
        (fill, taker_fee)
    }
}

/// What is free of an account's base.
pub open spec fn free_base(a: ExchangeAccount) -> u64 {
    if a.base_balance >= a.locked_base {
        (a.base_balance - a.locked_base) as u64
    } else {
        0
    }
}

/// What is free of an account's compute.
pub open spec fn free_compute(a: ExchangeAccount) -> u64 {
    if a.compute_balance >= a.locked_compute {
        (a.compute_balance - a.locked_compute) as u64
    } else {
        0
    }
}

/// Why an order cannot be placed.
pub open spec fn order_refusal(b: BoardView, owner: PublicKey, side: Side, price: u64, quantity: u64) -> Option<
    BoardError,
> {
    let a = b.account_of(owner);
    if price == 0 || quantity == 0 {
        Some(BoardError::InvalidOrder)
    } else if price * quantity > u64::MAX {
        Some(BoardError::OrderNotionalOverflow)
    } else if side == Side::Buy && free_base(a) < price * quantity {
        Some(BoardError::InsufficientBalance { available: free_base(a), required: (price * quantity) as u64 })
    } else if side == Side::Sell && free_compute(a) < quantity {
        Some(BoardError::InsufficientBalance { available: free_compute(a), required: quantity })
    } else {
        None
    }
}

/// An account that holds back what a new order needs.
pub open spec fn locked_for(a: ExchangeAccount, side: Side, price: u64, quantity: u64) -> ExchangeAccount {
    match side {
        Side::Buy => ExchangeAccount { locked_base: (a.locked_base + price * quantity) as u64, ..a },
        Side::Sell => ExchangeAccount { locked_compute: (a.locked_compute + quantity) as u64, ..a },
    }
}

/// An order as it is before it is matched.
pub open spec fn fresh_order(id: Id, owner: PublicKey, side: Side, price: u64, quantity: u64, now: Timestamp) -> Order {
    Order { id, owner, side, price, quantity, filled: 0, status: OrderStatus::Open, created_at: now }
}

/// The state in which the matching of a new order begins.
pub open spec fn order_opened(b: BoardView, order: Order) -> Matching {
    Matching {
        board: b.with_account(
            order.owner,
            locked_for(b.account_of(order.owner), order.side, order.price, order.quantity),
        ),
        taker: order,
        trades: Seq::empty(),
    }
}

/// An order with nothing left to fill is `Filled`.
pub open spec fn matched_order(taker: Order) -> Order {
    if taker.filled >= taker.quantity {
        Order { status: OrderStatus::Filled, ..taker }
    } else {
        taker
    }
}

/// The trades with more of them filed.
pub open spec fn with_trades(trades: Map<Id, Trade>, more: Seq<Trade>) -> Map<Id, Trade>
    decreases more.len(),
{
    if more.len() == 0 {
        trades
    } else {
        with_trades(trades, more.drop_last()).insert(more.last().id, more.last())
    }
}

/// The ids that trades are recorded under.
pub open spec fn trade_ids(trades: Seq<Trade>) -> Seq<Id> {
    trades.map_values(|t: Trade| t.id)
}

/// The board once a new order is matched as far as it goes, with the order
/// and its trades on record.
pub open spec fn order_placed(m: Matching) -> BoardView {
    BoardView {
        trades: with_trades(m.board.trades, m.trades),
        ..m.board.with_order(matched_order(m.taker))
    }
}

/// Whether `r` is what comes of placing an order, and `after` the board then:
/// the order is refused, or it is matched for as long as it can be. The ids of
/// the order and of its trades are those that `r` shows.
pub open spec fn places(
    b: BoardView,
    owner: PublicKey,
    side: Side,
    price: u64,
    quantity: u64,
    now: Timestamp,
    r: Result<(Order, Vec<Trade>), BoardError>,
    after: BoardView,
) -> bool {
    match order_refusal(b, owner, side, price, quantity) {
        Some(e) => {
            &&& r == Result::<(Order, Vec<Trade>), BoardError>::Err(e)
            &&& after == if e is InsufficientBalance {
                b.with_account(owner, b.account_of(owner))
            } else {
                b
            }
        },
        None => {
            let (order, trades) = r->Ok_0;
            let begun = order_opened(b, fresh_order(order.id, owner, side, price, quantity, now));
            let ids = trade_ids(trades@);
            let done = begun.after(ids, now);
            &&& r is Ok
            &&& begun.ran(ids, now)
            &&& !done.goes_on()
            &&& order == matched_order(done.taker)
            &&& trades@ == done.trades
            &&& after == order_placed(done)
        },
    }
}

/// A new order that is not refused starts from a sound ledger.
pub proof fn lemma_order_opened(b: BoardView, order: Order)
    requires
        b.wf(),
        b.exchange_sound(),
        order == fresh_order(order.id, order.owner, order.side, order.price, order.quantity, order.created_at),
        order_refusal(b, order.owner, order.side, order.price, order.quantity) is None,
    ensures
        order_opened(b, order).sound(),
        order_opened(b, order).board.base_total() == b.base_total(),
        order_opened(b, order).board.compute_total() == b.compute_total(),
{
    let a = b.account_of(order.owner);
    let after = locked_for(a, order.side, order.price, order.quantity);
    let m = order_opened(b, order);
    assert(b.covers(order.owner, 0, 0));
    lemma_totals_with_account(b, order.owner, after);
    assert forall|owner: PublicKey| #[trigger] m.board.account_of(owner).locked_base <= m.board.account_of(
        owner,
    ).base_balance by {
        assert(b.account_of(owner).locked_base <= b.account_of(owner).base_balance);
    }
    assert forall|owner: PublicKey| #[trigger] m.board.account_of(owner).locked_compute <= m.board.account_of(
        owner,
    ).compute_balance by {
        assert(b.account_of(owner).locked_compute <= b.account_of(owner).compute_balance);
    }
    assert forall|owner: PublicKey| #[trigger]
        m.board.buys_hold(owner) + (if owner == order.owner { order.locks_base() } else { 0 }) <= m.board.account_of(
            owner,
        ).locked_base by {
        assert(b.buys_hold(owner) + (if owner == order.owner { 0int } else { 0 }) <= b.account_of(owner).locked_base);
        assert(m.board.buys_hold(owner) == b.buys_hold(owner));
    }
    assert forall|owner: PublicKey| #[trigger]
        m.board.sales_hold(owner) + (if owner == order.owner { order.locks_compute() } else { 0 })
            <= m.board.account_of(owner).locked_compute by {
        assert(b.sales_hold(owner) + (if owner == order.owner { 0int } else { 0 }) <= b.account_of(
            owner,
        ).locked_compute);
        assert(m.board.sales_hold(owner) == b.sales_hold(owner));
    }
}

/// Putting a matched order on the book leaves the ledger sound.
pub proof fn lemma_order_placed(m: Matching)
    requires
        m.sound(),
    ensures
        order_placed(m).exchange_sound(),
{
    let order = matched_order(m.taker);
    let b = m.board;
    let after = order_placed(m);
    let p = m.taker.price as int;
    assert(p * 0 == 0) by (nonlinear_arith);
    assert(order.sound());
    assert(order.locks_base() == m.taker.locks_base());
    assert(order.locks_compute() == m.taker.locks_compute());
    assert forall|id: Id| #[trigger] after.orders.contains_key(id) implies after.orders[id].sound() by {
        if id != order.id {
            assert(b.orders.contains_key(id));
        }
    }
    assert forall|taker: PublicKey| #[trigger] after.covers(taker, 0, 0) by {
        assert forall|owner: PublicKey| #[trigger] after.account_of(owner).locked_base <= after.account_of(
            owner,
        ).base_balance by {
            assert(b.account_of(owner).locked_base <= b.account_of(owner).base_balance);
        }
        assert forall|owner: PublicKey| #[trigger] after.account_of(owner).locked_compute <= after.account_of(
            owner,
        ).compute_balance by {
            assert(b.account_of(owner).locked_compute <= b.account_of(owner).compute_balance);
        }
        assert forall|owner: PublicKey| #[trigger]
            after.buys_hold(owner) + (if owner == taker { 0int } else { 0 }) <= after.account_of(owner).locked_base by {
            lemma_holds_with_order(b, order, owner);
            lemma_replaced_not_negative(b, order.id);
            assert(b.buys_hold(owner) + (if owner == m.taker.owner { m.taker.locks_base() } else { 0 })
                <= b.account_of(owner).locked_base);
            assert(after.buys_hold(owner) == b.with_order(order).buys_hold(owner));
        }
        assert forall|owner: PublicKey| #[trigger]
            after.sales_hold(owner) + (if owner == taker { 0int } else { 0 }) <= after.account_of(
                owner,
            ).locked_compute by {
            lemma_holds_with_order(b, order, owner);
            lemma_replaced_not_negative(b, order.id);
            assert(b.sales_hold(owner) + (if owner == m.taker.owner { m.taker.locks_compute() } else { 0 })
                <= b.account_of(owner).locked_compute);
            assert(after.sales_hold(owner) == b.with_order(order).sales_hold(owner));
        }
    }
}

proof fn lemma_replaced_not_negative(b: BoardView, id: Id)
    requires
        forall|i: Id| #[trigger] b.orders.contains_key(i) ==> b.orders[i].sound(),
    ensures
        b.orders.contains_key(id) ==> b.orders[id].locks_base() >= 0 && b.orders[id].locks_compute() >= 0,
{
    if b.orders.contains_key(id) {
        let o = b.orders[id];
        assert(o.sound());
        assert(o.price * o.remaining() >= 0) by (nonlinear_arith)
            requires
                o.price >= 0,
                o.remaining() >= 0,
        ;
    }
}

impl TaskBoard {
    /// Places a limit order: locks all that it may need, matches it with
    /// resting orders in price-time priority at their own prices, and leaves
    /// the rest on the book.
    pub fn place_order(&mut self, owner: PublicKey, side: Side, price: u64, quantity: u64, now: Timestamp) -> (r: Result<
        (Order, Vec<Trade>),
        BoardError,
    >)
        requires
            old(self).wf(),
            old(self)@.exchange_sound(),
        ensures
            final(self).wf(),
            final(self)@.exchange_sound(),
            places(old(self)@, owner, side, price, quantity, now, r, final(self)@),
    {
        if price == 0 || quantity == 0 {
            return Err(BoardError::InvalidOrder);
        }
        let notional: u64 = match price.checked_mul(quantity) {
            Some(n) => n,
            None => return Err(BoardError::OrderNotionalOverflow),
        };
        let account = self.exchange_account(&owner);
        match side {
            Side::Buy => {
                let available: u64 = account.base_balance.saturating_sub(account.locked_base);
                if available < notional {
                    self.exchange_accounts.insert(owner, account);
                    proof {
                        lemma_account_filed(old(self)@, owner);
                    }
                    return Err(BoardError::InsufficientBalance { available, required: notional });
                }
                self.exchange_accounts.insert(
                    owner,
                    ExchangeAccount { locked_base: account.locked_base + notional, ..account },
                );
            },
            Side::Sell => {
                let available: u64 = account.compute_balance.saturating_sub(account.locked_compute);
                if available < quantity {
                    self.exchange_accounts.insert(owner, account);
                    proof {
                        lemma_account_filed(old(self)@, owner);
                    }
                    return Err(BoardError::InsufficientBalance { available, required: quantity });
                }
                self.exchange_accounts.insert(
                    owner,
                    ExchangeAccount { locked_compute: account.locked_compute + quantity, ..account },
                );
            },
        }
        let mut taker = Order {
            id: fresh_id(),
            owner,
            side,
            price,
            quantity,
            filled: 0,
            status: OrderStatus::Open,
            created_at: now,
        };
        let ghost begun = order_opened(old(self)@, taker);
        let ghost mut ids: Seq<Id> = Seq::empty();
        proof {
            lemma_order_opened(old(self)@, taker);
            assert(self@ == begun.board);
        }
        let mut trades: Vec<Trade> = Vec::new();
        assert(begun.after(ids, now) == begun);
        assert(trade_ids(trades@) =~= ids);
        while taker.filled < taker.quantity
            invariant_except_break
                self.wf(),
                self@ == begun.after(ids, now).board,
                taker == begun.after(ids, now).taker,
                trades@ == begun.after(ids, now).trades,
                begun.after(ids, now).sound(),
                begun.ran(ids, now),
                trade_ids(trades@) == ids,
            ensures
                self.wf(),
                self@ == begun.after(ids, now).board,
                taker == begun.after(ids, now).taker,
                trades@ == begun.after(ids, now).trades,
                begun.after(ids, now).sound(),
                begun.ran(ids, now),
                trade_ids(trades@) == ids,
                !begun.after(ids, now).goes_on(),
            decreases taker.quantity - taker.filled,
        {
            let ghost m = begun.after(ids, now);
            let resting_id = match self.best_resting_match(&taker) {
                Some(id) => id,
                None => break,
            };
            let resting = match self.orders.get(&resting_id) {
                Some(o) => *o,
                None => break,
            };
            proof {
                assert(self@.orders.contains_key(resting_id));
                assert(resting.sound());
                lemma_match_is_covered(m, resting);
                lemma_match_keeps_sound(m, resting);
            }
            let (fill, taker_fee) = self.settle(&taker, &resting);
            let trade_id = fresh_id();
            let (buyer, seller, buy_order_id, sell_order_id) = match taker.side {
                Side::Buy => (taker.owner, resting.owner, taker.id, resting.id),
                Side::Sell => (resting.owner, taker.owner, resting.id, taker.id),
            };
            trades.push(
                Trade {
                    id: trade_id,
                    buy_order_id,
                    sell_order_id,
                    buyer,
                    seller,
                    price: resting.price,
                    quantity: fill,
                    executed_at: now,
                    taker_side: taker.side,
                    taker_fee,
                },
            );
            taker.filled = taker.filled + fill;
            proof {
                let more = ids.push(trade_id);
                assert(more.drop_last() =~= ids);
                assert(begun.after(more, now) == m.next(trade_id, now));
                assert forall|n: int| 0 <= n < more.len() implies (#[trigger] begun.after(more.take(n), now)).goes_on() by {
                    if n < ids.len() {
                        assert(more.take(n) =~= ids.take(n));
                        assert(begun.after(ids.take(n), now).goes_on());
                    } else {
                        assert(more.take(n) =~= ids);
                    }
                }
                assert(trade_ids(trades@) =~= more);
                ids = more;
            }
        }
        proof {
            lemma_taker_keeps_terms(begun, ids, now);
            lemma_order_placed(begun.after(ids, now));
        }
        if taker.filled >= taker.quantity {
            taker.status = OrderStatus::Filled;
        }
        self.orders.insert(taker.id, taker);
        let ghost booked = self@;
        let mut i: usize = 0;
        assert(with_trades(booked.trades, trades@.take(0)) == booked.trades);
        while i < trades.len()
            invariant
                i <= trades.len(),
                self.wf(),
                self@ == (BoardView { trades: with_trades(booked.trades, trades@.take(i as int)), ..booked }),
            decreases trades.len() - i,
        {
            assert(trades@.take(i + 1).drop_last() =~= trades@.take(i as int));
            self.trades.insert(trades[i].id, trades[i]);
            i += 1;
        }
        assert(trades@.take(i as int) =~= trades@);
        Ok((taker, trades))
    }
}

/// Matching changes nothing of an order but how much of it is filled.
pub proof fn lemma_taker_keeps_terms(m: Matching, ids: Seq<Id>, now: Timestamp)
    ensures
        m.after(ids, now).taker == (Order { filled: m.after(ids, now).taker.filled, ..m.taker }),
    decreases ids.len(),
{
    if ids.len() > 0 {
        lemma_taker_keeps_terms(m, ids.drop_last(), now);
    }
}

/// Filing an account as it is leaves the ledger sound.
proof fn lemma_account_filed(b: BoardView, owner: PublicKey)
    requires
        b.wf(),
        b.exchange_sound(),
    ensures
        b.with_account(owner, b.account_of(owner)).exchange_sound(),
{
    let after = b.with_account(owner, b.account_of(owner));
    lemma_totals_with_account(b, owner, b.account_of(owner));
    assert forall|taker: PublicKey| #[trigger] after.covers(taker, 0, 0) by {
        assert(b.covers(taker, 0, 0));
        assert forall|x: PublicKey| after.account_of(x) == b.account_of(x) by {
        }
        assert forall|x: PublicKey| #[trigger] after.account_of(x).locked_base <= after.account_of(x).base_balance by {
            assert(b.account_of(x).locked_base <= b.account_of(x).base_balance);
        }
        assert forall|x: PublicKey| #[trigger] after.account_of(x).locked_compute <= after.account_of(
            x,
        ).compute_balance by {
            assert(b.account_of(x).locked_compute <= b.account_of(x).compute_balance);
        }
        assert forall|x: PublicKey| #[trigger]
            after.buys_hold(x) + (if x == taker { 0int } else { 0 }) <= after.account_of(x).locked_base by {
            assert(b.buys_hold(x) + (if x == taker { 0int } else { 0 }) <= b.account_of(x).locked_base);
            assert(after.buys_hold(x) == b.buys_hold(x));
        }
        assert forall|x: PublicKey| #[trigger]
            after.sales_hold(x) + (if x == taker { 0int } else { 0 }) <= after.account_of(x).locked_compute by {
            assert(b.sales_hold(x) + (if x == taker { 0int } else { 0 }) <= b.account_of(x).locked_compute);
            assert(after.sales_hold(x) == b.sales_hold(x));
        }
    }
}

}
