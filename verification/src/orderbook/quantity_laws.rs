//! Laws of prices and quantities on a book side: which price is better, how
//! much rests at or better than a limit, and what leaving out an account does
//! to it.

use vstd::prelude::*;

use super::book_side::{
    is_best, orders, rank, saturated, total_available, total_remaining, with_order, BookSide, Entry,
    RestingOrder,
};
use crate::types::{AccountId, Price, Side};

verus! {

/// The orders of a run that are not of an account.
pub open spec fn of_others(q: Seq<RestingOrder>, account: AccountId) -> Seq<RestingOrder> {
    q.filter(|o: RestingOrder| o.account != account)
}

/// The orders of a run that are of an account.
pub open spec fn of_account(q: Seq<RestingOrder>, account: AccountId) -> Seq<RestingOrder> {
    q.filter(|o: RestingOrder| o.account == account)
}

/// Levels without the orders of an account.
pub open spec fn levels_of_others(
    levels: Seq<(Price, Seq<RestingOrder>)>,
    account: AccountId,
) -> Seq<(Price, Seq<RestingOrder>)> {
    levels.map_values(|l: (Price, Seq<RestingOrder>)| (l.0, of_others(l.1, account)))
}

/// The quantity of one order is what remains of it, and nothing where its
/// account is left out. No orders come to nothing.
pub proof fn law_quantity_of_one_order(o: RestingOrder, exclude: Option<AccountId>)
    ensures
        total_remaining(Seq::empty(), exclude) == 0,
        exclude == Some(o.account) ==> total_remaining(seq![o], exclude) == 0,
        exclude != Some(o.account) ==> total_remaining(seq![o], exclude) == o.remaining.0,
{
    assert(seq![o].drop_last() =~= Seq::<RestingOrder>::empty());
    reveal_with_fuel(total_remaining, 2);
}

/// The quantity of two runs of orders one after the other is the sum of both.
pub proof fn law_quantities_add_up(
    a: Seq<RestingOrder>,
    b: Seq<RestingOrder>,
    exclude: Option<AccountId>,
)
    ensures
        total_remaining(a + b, exclude) == total_remaining(a, exclude) + total_remaining(
            b,
            exclude,
        ),
    decreases b.len(),
{
    if b.len() == 0 {
        assert(a + b =~= a);
    } else {
        assert((a + b).drop_last() =~= a + b.drop_last());
        assert((a + b).last() == b.last());
        law_quantities_add_up(a, b.drop_last(), exclude);
    }
}

/// Leaving out an account counts the orders of all others as if its own were
/// not there, and takes off exactly what remains of its own.
pub proof fn law_left_out_account_counts_nothing(q: Seq<RestingOrder>, account: AccountId)
    ensures
        total_remaining(q, Some(account)) == total_remaining(of_others(q, account), None),
        total_remaining(q, Some(account)) == total_remaining(q, None) - total_remaining(
            of_account(q, account),
            None,
        ),
    decreases q.len(),
{
    reveal(Seq::filter);
    if q.len() > 0 {
        let d = q.drop_last();
        law_left_out_account_counts_nothing(d, account);
        let last = seq![q.last()];
        law_quantity_of_one_order(q.last(), None);
        law_quantities_add_up(of_others(d, account), last, None);
        law_quantities_add_up(of_account(d, account), last, None);
        assert(of_others(d, account).push(q.last()) =~= of_others(d, account) + last);
        assert(of_account(d, account).push(q.last()) =~= of_account(d, account) + last);
    }
}

/// What one level makes available: on the buy side all of it at or above the
/// limit, on the sell side all of it at or below, and all of it without one.
pub proof fn law_quantity_of_one_level(
    side: Side,
    price: Price,
    q: Seq<RestingOrder>,
    limit: Option<Price>,
    exclude: Option<AccountId>,
)
    ensures
        total_available(side, Seq::empty(), limit, exclude) == 0,
        total_available(side, seq![(price, q)], limit, exclude) == (match limit {
            None => total_remaining(q, exclude),
            Some(l) => match side {
                Side::Buy => if price.0 >= l.0 {
                    total_remaining(q, exclude)
                } else {
                    0
                },
                Side::Sell => if price.0 <= l.0 {
                    total_remaining(q, exclude)
                } else {
                    0
                },
            },
        }),
{
    reveal_with_fuel(total_available, 2);
    assert(seq![(price, q)].skip(1) =~= Seq::empty());
}

/// What two runs of levels make available is the sum of both.
pub proof fn law_levels_add_up(
    side: Side,
    a: Seq<(Price, Seq<RestingOrder>)>,
    b: Seq<(Price, Seq<RestingOrder>)>,
    limit: Option<Price>,
    exclude: Option<AccountId>,
)
    ensures
        total_available(side, a + b, limit, exclude) == total_available(side, a, limit, exclude)
            + total_available(side, b, limit, exclude),
    decreases a.len(),
{
    if a.len() == 0 {
        assert(a + b =~= b);
    } else {
        assert((a + b).skip(1) =~= a.skip(1) + b);
        assert((a + b)[0] == a[0]);
        law_levels_add_up(side, a.skip(1), b, limit, exclude);
    }
}

/// What is available with an account left out is what is available with none
/// left out once the account's orders are gone from every level.
pub proof fn law_available_without_account(
    side: Side,
    levels: Seq<(Price, Seq<RestingOrder>)>,
    limit: Option<Price>,
    account: AccountId,
)
    ensures
        total_available(side, levels, limit, Some(account)) == total_available(
            side,
            levels_of_others(levels, account),
            limit,
            None,
        ),
        total_available(side, levels, limit, Some(account)) <= total_available(
            side,
            levels,
            limit,
            None,
        ),
    decreases levels.len(),
{
    let others = levels_of_others(levels, account);
    if levels.len() > 0 {
        law_available_without_account(side, levels.skip(1), limit, account);
        assert(others.skip(1) =~= levels_of_others(levels.skip(1), account));
        assert(others[0] == (levels[0].0, of_others(levels[0].1, account)));
        law_left_out_account_counts_nothing(levels[0].1, account);
        lemma_not_negative(of_account(levels[0].1, account), None);
    }
}

proof fn lemma_not_negative(q: Seq<RestingOrder>, exclude: Option<AccountId>)
    ensures
        total_remaining(q, exclude) >= 0,
    decreases q.len(),
{
    if q.len() > 0 {
        lemma_not_negative(q.drop_last(), exclude);
    }
}

/// A limit further from the top of the book makes no less available, and no
/// limit at all the most.
pub proof fn law_wider_limit_makes_more_available(
    side: Side,
    levels: Seq<(Price, Seq<RestingOrder>)>,
    near: Price,
    far: Price,
    exclude: Option<AccountId>,
)
    requires
        side == Side::Buy ==> far.0 <= near.0,
        side == Side::Sell ==> far.0 >= near.0,
    ensures
        0 <= total_available(side, levels, Some(near), exclude) <= total_available(
            side,
            levels,
            Some(far),
            exclude,
        ) <= total_available(side, levels, None, exclude),
    decreases levels.len(),
{
    if levels.len() > 0 {
        law_wider_limit_makes_more_available(side, levels.skip(1), near, far, exclude);
        lemma_not_negative(levels[0].1, exclude);
    }
}

/// Totals stop at the largest 64-bit number and are exact below it, in
/// whatever order they are added up.
pub proof fn law_totals_saturate(a: int, b: int)
    requires
        0 <= a,
        0 <= b,
    ensures
        a <= u64::MAX ==> saturated(a) == a,
        a >= u64::MAX ==> saturated(a) == u64::MAX,
        saturated(saturated(a) + saturated(b)) == saturated(a + b),
{
}

/// A better price is a higher one on the buy side and a lower one on the sell
/// side.
pub proof fn law_better_price_by_side(a: Price, b: Price)
    ensures
        rank(Side::Buy, a) > rank(Side::Buy, b) <==> a.0 > b.0,
        rank(Side::Sell, a) > rank(Side::Sell, b) <==> a.0 < b.0,
        rank(Side::Buy, a) == rank(Side::Buy, b) <==> a == b,
        rank(Side::Sell, a) == rank(Side::Sell, b) <==> a == b,
{
}

/// The best price is the highest with a level on the buy side and the lowest
/// on the sell side.
pub proof fn law_best_price_by_side(m: Map<Price, Seq<Entry>>, price: Price)
    ensures
        is_best(Side::Buy, m, price) <==> m.dom().contains(price) && (forall|p: Price| #[trigger]
            m.dom().contains(p) ==> p.0 <= price.0),
        is_best(Side::Sell, m, price) <==> m.dom().contains(price) && (forall|p: Price| #[trigger]
            m.dom().contains(p) ==> p.0 >= price.0),
{
}

/// Replacing an order in place touches that order alone: every level keeps its
/// length and every order its place and slab index.
pub proof fn law_replaced_order_alone_changes(
    m: Map<Price, Seq<Entry>>,
    slot: u32,
    order: RestingOrder,
    p: Price,
    k: int,
)
    requires
        m.dom().contains(p),
        0 <= k < m[p].len(),
    ensures
        with_order(m, slot, order).dom() == m.dom(),
        with_order(m, slot, order)[p].len() == m[p].len(),
        with_order(m, slot, order)[p][k].slot == m[p][k].slot,
        m[p][k].slot == slot ==> with_order(m, slot, order)[p][k].order == order,
        m[p][k].slot != slot ==> with_order(m, slot, order)[p][k].order == m[p][k].order,
{
    assert(with_order(m, slot, order).dom() =~= m.dom());
}

/// Levels without those that hold no orders.
pub open spec fn occupied(levels: Seq<(Price, Seq<RestingOrder>)>) -> Seq<
    (Price, Seq<RestingOrder>),
> {
    levels.filter(|l: (Price, Seq<RestingOrder>)| l.1.len() > 0)
}

proof fn lemma_empty_levels_add_nothing(
    side: Side,
    levels: Seq<(Price, Seq<RestingOrder>)>,
    limit: Option<Price>,
    exclude: Option<AccountId>,
)
    ensures
        total_available(side, occupied(levels), limit, exclude) == total_available(
            side,
            levels,
            limit,
            exclude,
        ),
    decreases levels.len(),
{
    reveal(Seq::filter);
    if levels.len() > 0 {
        let d = levels.drop_last();
        let last = levels.last();
        lemma_empty_levels_add_nothing(side, d, limit, exclude);
        assert(levels =~= d + seq![last]);
        law_levels_add_up(side, d, seq![last], limit, exclude);
        law_quantity_of_one_level(side, last.0, last.1, limit, exclude);
        if last.1.len() > 0 {
            assert(occupied(levels) =~= occupied(d) + seq![last]);
            law_levels_add_up(side, occupied(d), seq![last], limit, exclude);
        } else {
            assert(occupied(levels) =~= occupied(d));
        }
    }
}

/// What a side makes available with an account left out is what a side without
/// the orders of that account makes available with none left out.
pub proof fn law_left_out_as_if_gone(
    book: &BookSide,
    gone: &BookSide,
    limit: Option<Price>,
    account: AccountId,
    left_out: u64,
    without: u64,
)
    requires
        gone.side() == book.side(),
        gone.ranked_levels() == occupied(levels_of_others(book.ranked_levels(), account)),
        call_ensures(BookSide::available_quantity, (book, limit, Some(account)), left_out),
        call_ensures(BookSide::available_quantity, (gone, limit, None::<AccountId>), without),
    ensures
        left_out == without,
{
    law_available_without_account(book.side(), book.ranked_levels(), limit, account);
    lemma_empty_levels_add_nothing(
        book.side(),
        levels_of_others(book.ranked_levels(), account),
        limit,
        None,
    );
}

/// The best price is at or better than every price with a level, by the order
/// of prices on its side.
pub proof fn law_best_price_is_at_or_better(
    book: &BookSide,
    best: Option<Price>,
    price: Price,
    limit: Price,
    b: bool,
)
    requires
        call_ensures(BookSide::best_price, (book,), best),
        call_ensures(BookSide::at_or_better, (book, price, limit), b),
    ensures
        best is None ==> book@ == Map::<Price, Seq<Entry>>::empty(),
        best matches Some(p) ==> book@.dom().contains(p),
        book@.dom().contains(price) ==> best is Some,
        book@.dom().contains(price) && book.side() == Side::Buy ==> price.0 <= best.unwrap().0,
        book@.dom().contains(price) && book.side() == Side::Sell ==> price.0 >= best.unwrap().0,
        book.side() == Side::Buy ==> (b <==> price.0 >= limit.0),
        book.side() == Side::Sell ==> (b <==> price.0 <= limit.0),
{
}

/// The depth at a price is what remains of the orders there, and nothing where
/// none rests.
pub proof fn law_depth_is_what_rests(book: &BookSide, price: Price, depth: u64)
    requires
        call_ensures(BookSide::depth_at, (book, price), depth),
    ensures
        !book@.dom().contains(price) ==> depth == 0,
        book@.dom().contains(price) && book@[price].len() == 1 ==> depth
            == book@[price][0].order.remaining.0,
        book@.dom().contains(price) ==> depth == saturated(
            total_remaining(orders(book@[price]), None),
        ),
{
    if book@.dom().contains(price) {
        let q = orders(book@[price]);
        if q.len() == 1 {
            law_quantity_of_one_order(q[0], None);
            assert(q =~= seq![q[0]]);
        }
    }
}

} // verus!
