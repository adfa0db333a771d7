//! What an order book holds of the updates it was given.
use vstd::prelude::*;
use crate::double::Double;
use crate::models;
use crate::models::{BookView, Level};

verus! {

/// A snapshot is always taken; anything else only when it is ahead of the book.
pub proof fn stale_updates_are_refused(book: BookView, kind: Seq<char>, sequence: i64)
    ensures
        kind == "snapshot"@ ==> book.accepts(kind, sequence),
        kind != "snapshot"@ ==> (book.accepts(kind, sequence) <==> book.sequence < sequence),
{
}

/// What a snapshot leaves does not depend on what was there before; and every update leaves its
/// own sequence number and moment.
pub proof fn a_snapshot_starts_anew(
    book: BookView,
    other: BookView,
    kind: Seq<char>,
    bids: Seq<Level>,
    asks: Seq<Level>,
    sequence: i64,
    clock: Double,
)
    ensures
        book.updated("snapshot"@, bids, asks, sequence, clock) == other.updated(
            "snapshot"@,
            bids,
            asks,
            sequence,
            clock,
        ),
        book.updated("snapshot"@, Seq::empty(), Seq::empty(), sequence, clock) == (BookView {
            bids: Seq::empty(),
            asks: Seq::empty(),
            updated_at: clock,
            sequence,
        }),
        book.updated(kind, bids, asks, sequence, clock).sequence == sequence,
        book.updated(kind, bids, asks, sequence, clock).updated_at == clock,
{
}

proof fn lemma_runs(levels: Seq<Level>, updates: Seq<Level>)
    requires
        models::ascending(levels),
    ensures
        models::ascending(models::with_levels(levels, updates)),
        models::with_levels(levels, updates).len() <= levels.len() + updates.len(),
    decreases updates.len(),
{
    if updates.len() > 0 {
        lemma_runs(levels, updates.drop_last());
        let before = models::with_levels(levels, updates.drop_last());
        models::an_update_changes_one_price(before, updates.last(), updates.last().0);
        models::slots_are_places(before, updates.last().0);
    }
}

/// The size that a run of updates leaves at a price: that of the last update of the price, none
/// if that was zero, and what was there if no update speaks of it.
pub open spec fn left_at(levels: Seq<Level>, updates: Seq<Level>, price: Double) -> Option<Double>
    decreases updates.len(),
{
    if updates.len() == 0 {
        models::size_at(levels, price)
    } else if price.same(updates.last().0) || (price.nan() && updates.last().0.nan()) {
        if updates.last().1.same(Double::zero()) {
            None
        } else {
            Some(updates.last().1)
        }
    } else {
        left_at(levels, updates.drop_last(), price)
    }
}

proof fn lemma_left(levels: Seq<Level>, updates: Seq<Level>, price: Double)
    requires
        models::ascending(levels),
    ensures
        models::size_at(models::with_levels(levels, updates), price) == left_at(
            levels,
            updates,
            price,
        ),
    decreases updates.len(),
{
    if updates.len() > 0 {
        let rest = updates.drop_last();
        lemma_left(levels, rest, price);
        lemma_runs(levels, rest);
        models::an_update_changes_one_price(
            models::with_levels(levels, rest),
            updates.last(),
            price,
        );
        assert(models::price_key(price) == models::price_key(updates.last().0) <==> price.same(
            updates.last().0,
        ) || (price.nan() && updates.last().0.nan()));
    }
}

/// A delta leaves at every price what its last update of that price says, and what was there
/// before where it says nothing, on each side of the book by its own updates; a snapshot leaves
/// what it says and nothing else. (Here for books that do not have to drop levels.)
pub proof fn a_book_holds_what_updates_say(
    book: BookView,
    kind: Seq<char>,
    bids: Seq<Level>,
    asks: Seq<Level>,
    sequence: i64,
    clock: Double,
    price: Double,
)
    requires
        models::ascending(book.bids),
        models::ascending(book.asks),
        book.bids.len() + bids.len() <= 50,
        book.asks.len() + asks.len() <= 50,
    ensures
        ({
            let after = book.updated(kind, bids, asks, sequence, clock);
            let none: Seq<Level> = Seq::empty();
            &&& kind != "snapshot"@ ==> models::size_at(after.bids, price) == left_at(
                book.bids,
                bids,
                price,
            ) && models::size_at(after.asks, price) == left_at(book.asks, asks, price)
            &&& kind == "snapshot"@ ==> models::size_at(after.bids, price) == left_at(
                none,
                bids,
                price,
            ) && models::size_at(after.asks, price) == left_at(none, asks, price)
        }),
{
    let none: Seq<Level> = Seq::empty();
    lemma_left(book.bids, bids, price);
    lemma_left(book.asks, asks, price);
    lemma_left(none, bids, price);
    lemma_left(none, asks, price);
    lemma_runs(book.bids, bids);
    lemma_runs(book.asks, asks);
    lemma_runs(none, bids);
    lemma_runs(none, asks);
}

/// A book keeps the best fifty levels of each side: of the bids the highest, of the asks the
/// lowest. What it drops is worse than everything it keeps, and it drops nothing before there
/// are more than fifty.
pub proof fn a_book_keeps_its_best_levels(levels: Seq<Level>, i: int)
    requires
        models::ascending(levels),
        0 <= i < levels.len(),
    ensures
        ({
            let high = models::highest(levels);
            let low = models::lowest(levels);
            &&& levels.len() <= 50 ==> high == levels && low == levels
            &&& levels.len() > 50 ==> high.len() == 50 && low.len() == 50
            &&& high.contains(levels[i]) || forall|j: int|
                0 <= j < high.len() ==> models::price_key(levels[i].0) < models::price_key(
                    #[trigger] high[j].0,
                )
            &&& low.contains(levels[i]) || forall|j: int|
                0 <= j < low.len() ==> models::price_key(#[trigger] low[j].0) < models::price_key(
                    levels[i].0,
                )
        }),
{
    let high = models::highest(levels);
    let low = models::lowest(levels);
    if levels.len() > 50 {
        let cut = levels.len() - 50;
        if i >= cut {
            assert(high[i - cut] == levels[i]);
        } else {
            assert forall|j: int| 0 <= j < high.len() implies models::price_key(levels[i].0)
                < models::price_key(#[trigger] high[j].0) by {
                assert(high[j] == levels[j + cut]);
            }
        }
        if i < 50 {
            assert(low[i] == levels[i]);
        } else {
            assert forall|j: int| 0 <= j < low.len() implies models::price_key(
                #[trigger] low[j].0,
            ) < models::price_key(levels[i].0) by {
                assert(low[j] == levels[j]);
            }
        }
    } else {
        assert(high[i] == levels[i]);
        assert(low[i] == levels[i]);
    }
}

/// After an update the bids are the highest of what the updates leave and the asks the lowest.
pub proof fn an_update_keeps_the_best_of_each_side(
    book: BookView,
    kind: Seq<char>,
    bids: Seq<Level>,
    asks: Seq<Level>,
    sequence: i64,
    clock: Double,
)
    ensures
        ({
            let after = book.updated(kind, bids, asks, sequence, clock);
            let none: Seq<Level> = Seq::empty();
            let all_bids = models::with_levels(
                if kind == "snapshot"@ {
                    none
                } else {
                    book.bids
                },
                bids,
            );
            let all_asks = models::with_levels(
                if kind == "snapshot"@ {
                    none
                } else {
                    book.asks
                },
                asks,
            );
            &&& all_bids.len() > 50 ==> after.bids == all_bids.skip(all_bids.len() - 50)
            &&& all_bids.len() <= 50 ==> after.bids == all_bids
            &&& all_asks.len() > 50 ==> after.asks == all_asks.take(50)
            &&& all_asks.len() <= 50 ==> after.asks == all_asks
        }),
{
    let none: Seq<Level> = Seq::empty();
    let all_bids = models::with_levels(
        if kind == "snapshot"@ {
            none
        } else {
            book.bids
        },
        bids,
    );
    let all_asks = models::with_levels(
        if kind == "snapshot"@ {
            none
        } else {
            book.asks
        },
        asks,
    );
    if all_bids.len() > 50 {
        assert(models::highest(all_bids) =~= all_bids.skip(all_bids.len() - 50));
    }
    if all_asks.len() > 50 {
        assert(models::lowest(all_asks) =~= all_asks.take(50));
    }
}

/// The best bid is the highest and the best ask the lowest price of the book.
pub proof fn the_quote_is_the_best_of_each_side(book: BookView, i: int)
    requires
        models::ascending(book.bids),
        models::ascending(book.asks),
    ensures
        0 <= i < book.bids.len() ==> models::price_key(book.bids[i].0) <= models::price_key(
            models::best_prices(book).0,
        ),
        0 <= i < book.asks.len() ==> models::price_key(models::best_prices(book).1)
            <= models::price_key(book.asks[i].0),
        book.bids.len() > 0 ==> exists|k: int|
            0 <= k < book.bids.len() && (#[trigger] book.bids[k]).0 == models::best_prices(book).0,
        book.asks.len() > 0 ==> exists|k: int|
            0 <= k < book.asks.len() && (#[trigger] book.asks[k]).0 == models::best_prices(book).1,
        book.bids.len() == 0 ==> models::best_prices(book).0 == Double::zero(),
        book.asks.len() == 0 ==> models::best_prices(book).1 == Double::zero(),
{
    if book.bids.len() > 0 {
        let n = book.bids.len() - 1;
        assert(book.bids[n].0 == models::best_prices(book).0);
        if 0 <= i < n {
            assert(models::price_key(book.bids[i].0) < models::price_key(book.bids[n].0));
        }
    }
    if book.asks.len() > 0 {
        assert(book.asks[0].0 == models::best_prices(book).1);
        if 0 < i < book.asks.len() {
            assert(models::price_key(book.asks[0].0) < models::price_key(book.asks[i].0));
        }
    }
}

/// The order of prices in a book is their numeric order, and a price that is none comes last.
pub proof fn prices_are_ordered_as_numbers(a: Double, b: Double)
    ensures
        !a.nan() && !b.nan() ==> (models::price_key(a) < models::price_key(b) <==> a.lt(b)),
        !a.nan() && b.nan() ==> models::price_key(a) < models::price_key(b),
        a.nan() && b.nan() ==> models::price_key(a) == models::price_key(b),
{
}

} // verus!
