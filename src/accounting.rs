use vstd::prelude::*;
use crate::types::{OrderSide, Trade, has_position, held_qty, signed_qty, qty_after, realized_of, net_amount_of, avg_cost_after};
use crate::broker::{PaperBroker, book, book_after, entry, replay_book, sum_net};

verus! {

/// Cash always equals the initial cash plus the net amounts of all trades, in
/// every state the broker reaches.
pub proof fn lemma_cash_ledger(b: PaperBroker)
    requires
        b.wf(),
    ensures
        b.cash == b.initial_cash + sum_net(b.trades@),
{
}

/// A broker never holds a flat position, and a fill that brings a position's
/// quantity to zero removes it from the book.
pub proof fn lemma_flat_positions_leave(
    b: PaperBroker,
    sym: Seq<char>,
    side: OrderSide,
    qty: int,
    price: int,
)
    requires
        b.wf(),
        qty_after(entry(book(b.positions@), sym).0, signed_qty(side, qty)) == 0,
    ensures
        forall|s: Seq<char>| has_position(b.positions@, s) ==> held_qty(b.positions@, s) != 0,
        !book_after(book(b.positions@), sym, side, qty, price).contains_key(sym),
{
}

/// Buying `qty` at `buy_price` and selling it at `sell_price`, starting flat, realizes
/// `qty * (sell_price - buy_price)` on the position, leaves it flat (and out of the book),
/// and moves cash by `qty * (sell_price - buy_price)` less both commissions.
pub proof fn lemma_round_trip(
    m: Map<Seq<char>, (int, int, int)>,
    sym: Seq<char>,
    qty: int,
    buy_price: int,
    sell_price: int,
    c1: int,
    c2: int,
)
    requires
        !m.contains_key(sym),
        qty > 0,
        buy_price > 0,
        sell_price > 0,
    ensures
        avg_cost_after(0, 0, qty, buy_price) == buy_price,
        realized_of(qty, buy_price, -qty, sell_price) == qty * (sell_price - buy_price),
        book_after(book_after(m, sym, OrderSide::Buy, qty, buy_price), sym, OrderSide::Sell, qty, sell_price) == m,
        net_amount_of(OrderSide::Buy, buy_price, qty, c1) + net_amount_of(OrderSide::Sell, sell_price, qty, c2) == qty * (
        sell_price - buy_price) - c1 - c2,
{
    let m1 = book_after(m, sym, OrderSide::Buy, qty, buy_price);
    assert(m1[sym] == (qty, buy_price, 0int));
    assert(book_after(m1, sym, OrderSide::Sell, qty, sell_price) =~= m);
    assert(qty * sell_price - qty * buy_price == qty * (sell_price - buy_price)) by (nonlinear_arith);
}

/// Fills in different symbols commute: applying them in either order gives
/// the same book (and cash, since addition commutes).
pub proof fn lemma_fills_commute(
    m: Map<Seq<char>, (int, int, int)>,
    s1: Seq<char>,
    side1: OrderSide,
    q1: int,
    first_price: int,
    s2: Seq<char>,
    side2: OrderSide,
    q2: int,
    second_price: int,
)
    requires
        s1 != s2,
    ensures
        book_after(book_after(m, s1, side1, q1, first_price), s2, side2, q2, second_price) == book_after(
            book_after(m, s2, side2, q2, second_price),
            s1,
            side1,
            q1,
            first_price,
        ),
{
    let a = book_after(book_after(m, s1, side1, q1, first_price), s2, side2, q2, second_price);
    let b = book_after(book_after(m, s2, side2, q2, second_price), s1, side1, q1, first_price);
    assert(a =~= b);
}

/// Swapping two adjacent trades in different symbols changes neither the
/// replayed book nor the total net amount: any reordering that keeps each
/// symbol's own sequence gives the same positions and cash.
pub proof fn lemma_replay_swap(ts: Seq<Trade>, k: int)
    requires
        0 <= k < ts.len() - 1,
        ts[k].symbol@ != ts[k + 1].symbol@,
    ensures
        replay_book(ts.update(k, ts[k + 1]).update(k + 1, ts[k])) == replay_book(ts),
        sum_net(ts.update(k, ts[k + 1]).update(k + 1, ts[k])) == sum_net(ts),
    decreases ts.len(),
{
    let sw = ts.update(k, ts[k + 1]).update(k + 1, ts[k]);
    if k + 2 == ts.len() {
        let base = ts.subrange(0, k);
        assert(ts.drop_last().drop_last() =~= base);
        assert(sw.drop_last().drop_last() =~= base);
        assert(ts.drop_last().last() == ts[k]);
        assert(sw.drop_last().last() == ts[k + 1]);
        let (a, b) = (ts[k], ts[k + 1]);
        lemma_fills_commute(
            replay_book(base),
            a.symbol@,
            a.side,
            a.quantity as int,
            a.price as int,
            b.symbol@,
            b.side,
            b.quantity as int,
            b.price as int,
        );
        assert(replay_book(ts.drop_last()) == book_after(replay_book(base), a.symbol@, a.side, a.quantity as int, a.price as int));
        assert(replay_book(sw.drop_last()) == book_after(replay_book(base), b.symbol@, b.side, b.quantity as int, b.price as int));
        assert(sum_net(ts.drop_last()) == sum_net(base) + a.net_amount);
        assert(sum_net(sw.drop_last()) == sum_net(base) + b.net_amount);
        assert(ts.last() == b);
        assert(sw.last() == a);
    } else {
        lemma_replay_swap(ts.drop_last(), k);
        assert(sw.drop_last() =~= ts.drop_last().update(k, ts[k + 1]).update(k + 1, ts[k]));
        assert(sw.last() == ts.last());
        assert(replay_book(sw) == book_after(replay_book(sw.drop_last()), sw.last().symbol@, sw.last().side, sw.last().quantity as int, sw.last().price as int));
        assert(sum_net(sw) == sum_net(sw.drop_last()) + sw.last().net_amount);
    }
}

/// A broker's cash and positions are determined by its initial cash and its
/// journal of trades: two states with the same of both agree, so a broker
/// restored from the journal matches the one that wrote it.
pub proof fn lemma_state_from_journal(b1: PaperBroker, b2: PaperBroker)
    requires
        b1.wf(),
        b2.wf(),
        b1.initial_cash == b2.initial_cash,
        b1.trades@ == b2.trades@,
    ensures
        b1.cash == b2.cash,
        book(b1.positions@) == book(b2.positions@),
{
}

} // verus!
