//! The order book: for each side, the price levels with their volumes, kept
//! in price order, and the id of the last update folded into the book.

use crate::decimal::{decimal_text, key_lt, lemma_key_order, Decimal, PriceKey};
use std::collections::BTreeMap;
use vstd::prelude::*;
use vstd::laws_cmp::obeys_cmp;
use vstd::std_specs::btree::increasing_seq;
use vstd::std_specs::cmp::OrdSpec;
use vstd::std_specs::iter::IteratorSpec;
use vstd::string::*;

verus! {

/// One side of a book: each price key mapped to the price as it was first
/// written and the volume now standing at it.
pub type Side = Map<PriceKey, (Decimal, Decimal)>;

/// A side after one update: a zero volume removes the level, any other volume
/// replaces the level's volume (a level keeps the price text it was created
/// with) or creates the level.
pub open spec fn side_after_update(side: Side, price: Decimal, vol: Decimal) -> Side {
    let k = price.key_spec();
    if vol.is_zero_spec() {
        side.remove(k)
    } else if side.contains_key(k) {
        side.insert(k, (side[k].0, vol))
    } else {
        side.insert(k, (price, vol))
    }
}

/// `k` is the key of the highest price on the side.
pub open spec fn is_highest(side: Side, k: PriceKey) -> bool {
    &&& side.contains_key(k)
    &&& forall|j: PriceKey| #[trigger] side.contains_key(j) ==> !key_lt(k, j)
}

/// `k` is the key of the lowest price on the side.
pub open spec fn is_lowest(side: Side, k: PriceKey) -> bool {
    &&& side.contains_key(k)
    &&& forall|j: PriceKey| #[trigger] side.contains_key(j) ==> !key_lt(j, k)
}

/// The side holds no level.
pub open spec fn is_empty_side(side: Side) -> bool {
    forall|j: PriceKey| !(#[trigger] side.contains_key(j))
}

/// `k` is the key of the best level: the highest when `highest`, else the lowest.
pub open spec fn is_top(side: Side, k: PriceKey, highest: bool) -> bool {
    if highest {
        is_highest(side, k)
    } else {
        is_lowest(side, k)
    }
}

/// The best level of a side: its highest level when `highest`, else its
/// lowest; `None` when the side is empty.
pub open spec fn best_level(side: Side, highest: bool) -> Option<(Decimal, Decimal)> {
    if is_empty_side(side) {
        None
    } else {
        Some(side[choose|k: PriceKey| is_top(side, k, highest)])
    }
}

/// A side has at most one best level.
pub proof fn lemma_top_unique(side: Side, a: PriceKey, b: PriceKey, highest: bool)
    requires
        is_top(side, a, highest),
        is_top(side, b, highest),
    ensures
        a == b,
{
    assert(side.contains_key(a) && side.contains_key(b));
}

/// The level at `k` is the best level when `k` is the top key.
pub proof fn lemma_best_level_at(side: Side, k: PriceKey, highest: bool)
    requires
        is_top(side, k, highest),
    ensures
        best_level(side, highest) == Some(side[k]),
{
    assert(side.contains_key(k));
    let c = choose|j: PriceKey| is_top(side, j, highest);
    lemma_top_unique(side, c, k, highest);
}

/// What a side keeps: finitely many levels, and at each valid numbers, the key
/// of its price, and a volume that is not zero.
pub open spec fn side_wf(side: Side) -> bool {
    &&& side.dom().finite()
    &&& forall|k: PriceKey|
        #[trigger] side.contains_key(k) ==> {
            &&& side[k].0.valid()
            &&& side[k].1.valid()
            &&& side[k].0.key_spec() == k
            &&& !side[k].1.is_zero_spec()
        }
}

/// The operations a connector needs from an order book.
pub trait OrderBookOperations {
    /// The bid side.
    spec fn bids_view(&self) -> Side;

    /// The ask side.
    spec fn asks_view(&self) -> Side;

    /// The id of the last update folded into the book.
    spec fn last_update_id_view(&self) -> u64;

    /// Sets the volume at a price on one side (`is_bid` picks the bids); a zero
    /// volume removes the level.
    fn update(&mut self, price: Decimal, vol: Decimal, is_bid: bool)
        requires
            price.valid(),
            vol.valid(),
        ensures
            final(self).bids_view() == (if is_bid {
                side_after_update(old(self).bids_view(), price, vol)
            } else {
                old(self).bids_view()
            }),
            final(self).asks_view() == (if is_bid {
                old(self).asks_view()
            } else {
                side_after_update(old(self).asks_view(), price, vol)
            }),
            final(self).last_update_id_view() == old(self).last_update_id_view(),
    ;

    /// The highest bid and its volume, if there is a bid.
    fn best_bid(&self) -> (r: Option<(Decimal, Decimal)>)
        ensures
            r == best_level(self.bids_view(), true),
            r matches Some(level) ==> level.0.valid() && level.1.valid(),
            side_wf(self.bids_view()),
    ;

    /// The lowest ask and its volume, if there is an ask.
    fn best_ask(&self) -> (r: Option<(Decimal, Decimal)>)
        ensures
            r == best_level(self.asks_view(), false),
            r matches Some(level) ==> level.0.valid() && level.1.valid(),
            side_wf(self.asks_view()),
    ;

    /// Records the id of the last update folded into the book.
    fn set_last_update_id(&mut self, id: u64)
        ensures
            final(self).last_update_id_view() == id,
            final(self).bids_view() == old(self).bids_view(),
            final(self).asks_view() == old(self).asks_view(),
    ;

    /// The id of the last update folded into the book.
    fn get_last_update_id(&self) -> (id: u64)
        ensures
            id == self.last_update_id_view(),
    ;
}

/// An order book whose sides are B-trees ordered by price.
pub struct BTreeOrderBook {
    last_update_id: u64,
    bids: BTreeMap<PriceKey, (Decimal, Decimal)>,
    asks: BTreeMap<PriceKey, (Decimal, Decimal)>,
}

impl BTreeOrderBook {
    /// Both sides hold only well-formed levels.
    #[verifier::type_invariant]
    spec fn wf(&self) -> bool {
        side_wf(self.bids@) && side_wf(self.asks@)
    }

    /// An empty book whose last update id is 0.
    pub fn new() -> (book: Self)
        ensures
            is_empty_side(book.bids_view()),
            is_empty_side(book.asks_view()),
            book.last_update_id_view() == 0,
    {
        BTreeOrderBook { bids: BTreeMap::new(), asks: BTreeMap::new(), last_update_id: 0 }
    }
}

impl Default for BTreeOrderBook {
    fn default() -> (book: Self)
        ensures
            is_empty_side(book.bids_view()),
            is_empty_side(book.asks_view()),
            book.last_update_id_view() == 0,
    {
        Self::new()
    }
}

fn update_side(side: &mut BTreeMap<PriceKey, (Decimal, Decimal)>, key: PriceKey, price: Decimal, vol: Decimal)
    requires
        key == price.key_spec(),
    ensures
        final(side)@ == side_after_update(old(side)@, price, vol),
{
    if vol.is_zero() {
        side.remove(&key);
    } else {
        let stored = match side.get(&key) {
            Some(level) => level.0,
            None => price,
        };
        side.insert(key, (stored, vol));
    }
}

fn best_entry(side: &BTreeMap<PriceKey, (Decimal, Decimal)>, highest: bool) -> (r: Option<(Decimal, Decimal)>)
    requires
        side_wf(side@),
    ensures
        r == best_level(side@, highest),
        r matches Some(level) ==> level.0.valid() && level.1.valid(),
        side_wf(side@),
{
    let entry = if highest {
        last_entry(side)
    } else {
        first_entry(side)
    };
    match entry {
        Some((k, level)) => {
            proof {
                lemma_best_level_at(side@, k, highest);
            }
            Some(level)
        },
        None => None,
    }
}

/// An update keeps a side well formed.
pub proof fn lemma_update_keeps_wf(side: Side, price: Decimal, vol: Decimal)
    requires
        side_wf(side),
        price.valid(),
        vol.valid(),
    ensures
        side_wf(side_after_update(side, price, vol)),
{
    let k = price.key_spec();
    let after = side_after_update(side, price, vol);
    assert forall|j: PriceKey| #[trigger] after.contains_key(j) implies {
        &&& after[j].0.valid()
        &&& after[j].1.valid()
        &&& after[j].0.key_spec() == j
        &&& !after[j].1.is_zero_spec()
    } by {
        if j != k {
            assert(side.contains_key(j));
        } else if side.contains_key(k) {
            assert(side[k].0.key_spec() == k);
        }
    }
}

/// In a sequence of keys in increasing order, an earlier key comes before a later one.
proof fn lemma_increasing_keys(keys: Seq<PriceKey>, i: int, j: int)
    requires
        increasing_seq(keys),
        0 <= i < j < keys.len(),
    ensures
        key_lt(keys[i], keys[j]),
{
    assert(obeys_cmp::<PriceKey>());
    assert(keys[i].cmp_spec(&keys[j]) is Less);
}

/// The entry with the lowest key, read as the first item of the map's
/// iterator, which yields keys in increasing order.
fn first_entry(side: &BTreeMap<PriceKey, (Decimal, Decimal)>) -> (r: Option<(PriceKey, (Decimal, Decimal))>)
    ensures
        match r {
            None => is_empty_side(side@),
            Some(entry) => is_lowest(side@, entry.0) && side@[entry.0] == entry.1,
        },
{
    proof {
        assert(vstd::std_specs::btree::key_obeys_cmp_spec::<PriceKey>());
    }
    let iter = side.iter();
    let ghost items = iter.remaining();
    proof {
        assert(items == vstd::std_specs::btree::spec_btree_map_iter(side).remaining());
    }
    for entry in it: iter
        invariant
            it.index() == 0,
            it.seq() == items,
            increasing_seq(
                items.map_values(|kv: (&PriceKey, &(Decimal, Decimal))| *kv.0),
            ),
            forall|j: PriceKey| #[trigger] side@.contains_key(j) ==> items.contains((&j, &side@[j])),
            forall|i: int|
                0 <= i < items.len() ==> side@.contains_key(*(#[trigger] items[i]).0) && side@[*items[i].0]
                    == *items[i].1,
    {
        let k = *entry.0;
        let level = *entry.1;
        proof {
            let keys = items.map_values(|kv: (&PriceKey, &(Decimal, Decimal))| *kv.0);
            assert(keys[0] == k);
            assert forall|j: PriceKey| #[trigger] side@.contains_key(j) implies !key_lt(j, k) by {
                assert(items.contains((&j, &side@[j])));
                let i = choose|i: int| 0 <= i < items.len() && items[i] == (&j, &side@[j]);
                assert(keys[i] == j);
                if i > 0 {
                    lemma_increasing_keys(keys, 0, i);
                }
            }
        }
        return Some((k, level));
    }
    proof {
        assert forall|j: PriceKey| !(#[trigger] side@.contains_key(j)) by {
            if side@.contains_key(j) {
                assert(items.contains((&j, &side@[j])));
            }
        }
    }
    None
}

proof fn lemma_last_item_highest(side: Side, items: Seq<(&PriceKey, &(Decimal, Decimal))>)
    requires
        increasing_seq(items.map_values(|kv: (&PriceKey, &(Decimal, Decimal))| *kv.0)),
        forall|j: PriceKey| #[trigger] side.contains_key(j) ==> items.contains((&j, &side[j])),
        forall|i: int|
            0 <= i < items.len() ==> side.contains_key(*(#[trigger] items[i]).0) && side[*items[i].0]
                == *items[i].1,
    ensures
        items.len() == 0 ==> is_empty_side(side),
        items.len() > 0 ==> is_highest(side, *items[items.len() - 1].0) && side[*items[items.len()
            - 1].0] == *items[items.len() - 1].1,
{
    let keys = items.map_values(|kv: (&PriceKey, &(Decimal, Decimal))| *kv.0);
    if items.len() == 0 {
        assert forall|j: PriceKey| !(#[trigger] side.contains_key(j)) by {
            if side.contains_key(j) {
                assert(items.contains((&j, &side[j])));
            }
        }
    } else {
        let n = items.len() - 1;
        let k = *items[n].0;
        assert(keys[n] == k);
        assert(side.contains_key(k));
        assert forall|j: PriceKey| #[trigger] side.contains_key(j) implies !key_lt(k, j) by {
            assert(items.contains((&j, &side[j])));
            let i = choose|i: int| 0 <= i < items.len() && items[i] == (&j, &side[j]);
            assert(keys[i] == j);
            if i < n {
                lemma_increasing_keys(keys, i, n);
            }
        }
    }
}

/// The entry with the highest key: the last item of the map's iterator,
/// which yields keys in increasing order.
fn last_entry(side: &BTreeMap<PriceKey, (Decimal, Decimal)>) -> (r: Option<(PriceKey, (Decimal, Decimal))>)
    ensures
        match r {
            None => is_empty_side(side@),
            Some(entry) => is_highest(side@, entry.0) && side@[entry.0] == entry.1,
        },
{
    proof {
        assert(vstd::std_specs::btree::key_obeys_cmp_spec::<PriceKey>());
    }
    let iter = side.iter();
    let ghost items = iter.remaining();
    proof {
        assert(items == vstd::std_specs::btree::spec_btree_map_iter(side).remaining());
    }
    let mut last: Option<(PriceKey, (Decimal, Decimal))> = None;
    for entry in it: iter
        invariant
            it.seq() == items,
            increasing_seq(items.map_values(|kv: (&PriceKey, &(Decimal, Decimal))| *kv.0)),
            forall|j: PriceKey| #[trigger] side@.contains_key(j) ==> items.contains((&j, &side@[j])),
            forall|i: int|
                0 <= i < items.len() ==> side@.contains_key(*(#[trigger] items[i]).0) && side@[*items[i].0]
                    == *items[i].1,
            it.index() == 0 ==> last is None,
            it.index() > 0 ==> last == Some((*items[it.index() - 1].0, *items[it.index() - 1].1)),
    {
        last = Some((*entry.0, *entry.1));
    }
    proof {
        lemma_last_item_highest(side@, items);
    }
    last
}

impl OrderBookOperations for BTreeOrderBook {
    closed spec fn bids_view(&self) -> Side {
        self.bids@
    }

    closed spec fn asks_view(&self) -> Side {
        self.asks@
    }

    closed spec fn last_update_id_view(&self) -> u64 {
        self.last_update_id
    }

    fn update(&mut self, price: Decimal, vol: Decimal, is_bid: bool) {
        proof {
            use_type_invariant(&*self);
            lemma_update_keeps_wf(self.bids@, price, vol);
            lemma_update_keeps_wf(self.asks@, price, vol);
        }
        let key = price.key();
        let mut side = BTreeMap::new();
        if is_bid {
            std::mem::swap(&mut side, &mut self.bids);
            update_side(&mut side, key, price, vol);
            self.bids = side;
        } else {
            std::mem::swap(&mut side, &mut self.asks);
            update_side(&mut side, key, price, vol);
            self.asks = side;
        }
    }

    fn best_bid(&self) -> (r: Option<(Decimal, Decimal)>) {
        proof {
            use_type_invariant(self);
        }
        best_entry(&self.bids, true)
    }

    fn best_ask(&self) -> (r: Option<(Decimal, Decimal)>) {
        proof {
            use_type_invariant(self);
        }
        best_entry(&self.asks, false)
    }

    fn set_last_update_id(&mut self, id: u64) {
        proof {
            use_type_invariant(&*self);
        }
        self.last_update_id = id;
    }

    fn get_last_update_id(&self) -> (id: u64) {
        self.last_update_id
    }
}

/// Reading after a write: after an update, the level at its price is gone if
/// the volume was zero and otherwise holds that volume, with the price it was
/// created with (this update's price for a new level); every other level is
/// as it was.
pub proof fn lemma_update_then_read(side: Side, price: Decimal, vol: Decimal, other: PriceKey)
    ensures
        ({
            let after = side_after_update(side, price, vol);
            let k = price.key_spec();
            &&& vol.is_zero_spec() ==> !after.contains_key(k)
            &&& !vol.is_zero_spec() ==> after.contains_key(k) && after[k].1 == vol
            &&& !vol.is_zero_spec() && side.contains_key(k) ==> after[k].0 == side[k].0
            &&& !vol.is_zero_spec() && !side.contains_key(k) ==> after[k].0 == price
            &&& other != k ==> (after.contains_key(other) == side.contains_key(other) && (side.contains_key(
                other,
            ) ==> after[other] == side[other]))
        }),
{
}

/// Updates at different prices commute.
pub proof fn lemma_updates_commute(side: Side, p1: Decimal, v1: Decimal, p2: Decimal, v2: Decimal)
    requires
        p1.key_spec() != p2.key_spec(),
    ensures
        side_after_update(side_after_update(side, p1, v1), p2, v2) == side_after_update(
            side_after_update(side, p2, v2),
            p1,
            v1,
        ),
{
    let a = side_after_update(side_after_update(side, p1, v1), p2, v2);
    let b = side_after_update(side_after_update(side, p2, v2), p1, v1);
    assert(a =~= b);
}

/// Repeating an update changes nothing.
pub proof fn lemma_update_idempotent(side: Side, price: Decimal, vol: Decimal)
    ensures
        side_after_update(side_after_update(side, price, vol), price, vol) == side_after_update(
            side,
            price,
            vol,
        ),
{
    let once = side_after_update(side, price, vol);
    let twice = side_after_update(once, price, vol);
    assert(twice =~= once);
}

/// A finite side that holds a level has a best level.
pub proof fn lemma_top_exists(side: Side, highest: bool)
    requires
        side.dom().finite(),
        !is_empty_side(side),
    ensures
        exists|k: PriceKey| is_top(side, k, highest),
    decreases side.dom().len(),
{
    let k0 = choose|k: PriceKey| side.contains_key(k);
    let rest = side.remove(k0);
    assert(rest.dom() =~= side.dom().remove(k0));
    if is_empty_side(rest) {
        assert forall|j: PriceKey| #[trigger] side.contains_key(j) implies j == k0 by {
            if j != k0 {
                assert(rest.contains_key(j));
            }
        }
        assert(is_top(side, k0, highest));
    } else {
        lemma_top_exists(rest, highest);
        let t = choose|k: PriceKey| is_top(rest, k, highest);
        assert(rest.contains_key(t));
        if highest {
            if key_lt(t, k0) {
                assert(is_top(side, k0, highest));
            } else {
                assert(is_top(side, t, highest));
            }
        } else {
            if key_lt(k0, t) {
                assert(is_top(side, k0, highest));
            } else {
                assert(is_top(side, t, highest));
            }
        }
    }
}

/// The best bid is the highest price on the bid side and the best ask the
/// lowest on the ask side, comparing prices by value; there is one exactly
/// when the side holds a level.
pub proof fn lemma_best_level_has_best_price(side: Side, highest: bool)
    requires
        side_wf(side),
    ensures
        best_level(side, highest) is None <==> is_empty_side(side),
        best_level(side, highest) matches Some(best) ==> forall|j: PriceKey| #[trigger]
            side.contains_key(j) ==> side[j] == best || (if highest {
                side[j].0.value_lt(best.0)
            } else {
                best.0.value_lt(side[j].0)
            }),
{
    if !is_empty_side(side) {
        lemma_top_exists(side, highest);
        let t = choose|k: PriceKey| is_top(side, k, highest);
        lemma_best_level_at(side, t, highest);
        assert forall|j: PriceKey| #[trigger] side.contains_key(j) implies side[j] == side[t] || (if highest {
            side[j].0.value_lt(side[t].0)
        } else {
            side[t].0.value_lt(side[j].0)
        }) by {
            assert(side.contains_key(t));
            lemma_key_order(side[j].0, side[t].0);
            lemma_key_order(side[t].0, side[j].0);
        }
    }
}

/// The display text of a valid decimal.
pub open spec fn text_of(d: Decimal) -> Seq<char> {
    decimal_text(d.mantissa, d.scale)
}

/// The texts of a book's best entries: volume and price of the best bid, then
/// of the best ask; `None` while either side is empty.
pub open spec fn best_entries_texts(bid: Option<(Decimal, Decimal)>, ask: Option<(Decimal, Decimal)>) -> Option<
    (Seq<char>, Seq<char>, Seq<char>, Seq<char>),
> {
    match (bid, ask) {
        (Some(b), Some(a)) => Some((text_of(b.1), text_of(b.0), text_of(a.1), text_of(a.0))),
        _ => None,
    }
}

/// The line reports data exactly when both sides hold a level, and then the
/// texts of the best bid's volume and price and the best ask's volume and
/// price, whatever the values.
pub proof fn lemma_best_entries_texts(bid: Option<(Decimal, Decimal)>, ask: Option<(Decimal, Decimal)>)
    ensures
        best_entries_texts(bid, ask) is Some <==> (bid is Some && ask is Some),
        bid matches Some(b) ==> ask matches Some(a) ==> best_entries_texts(bid, ask) == Some(
            (
                decimal_text(b.1.mantissa, b.1.scale),
                decimal_text(b.0.mantissa, b.0.scale),
                decimal_text(a.1.mantissa, a.1.scale),
                decimal_text(a.0.mantissa, a.0.scale),
            ),
        ),
{
}

/// The line that reports a book's best entries from their texts.
pub open spec fn entries_line_spec(
    exchange: Seq<char>,
    symbol: Seq<char>,
    texts: Option<(Seq<char>, Seq<char>, Seq<char>, Seq<char>)>,
) -> Seq<char> {
    let head = "["@ + exchange + "] "@ + symbol;
    match texts {
        Some(t) => head + " - Best bid: "@ + t.0 + " @ "@ + t.1 + ", Best ask: "@ + t.2 + " @ "@ + t.3,
        None => head + " - No data available"@,
    }
}

/// The line that reports the best entries of a book from their texts (bid
/// volume, bid price, ask volume, ask price), or that no data is available.
pub fn entries_line(exchange: &str, symbol: &str, texts: Option<(String, String, String, String)>) -> (line: String)
    ensures
        line@ == entries_line_spec(
            exchange@,
            symbol@,
            match texts {
                Some(t) => Some((t.0@, t.1@, t.2@, t.3@)),
                None => None,
            },
        ),
{
    let mut line = "[".to_owned();
    line.append(exchange);
    line.append("] ");
    line.append(symbol);
    match texts {
        Some((bid_vol, bid_price, ask_vol, ask_price)) => {
            line.append(" - Best bid: ");
            line.append(bid_vol.as_str());
            line.append(" @ ");
            line.append(bid_price.as_str());
            line.append(", Best ask: ");
            line.append(ask_vol.as_str());
            line.append(" @ ");
            line.append(ask_price.as_str());
        },
        None => {
            line.append(" - No data available");
        },
    }
    line
}

/// The line that reports the best bid and ask of the book for `symbol` on
/// `exchange`.
pub fn best_entries_line<O: OrderBookOperations>(book: &O, exchange: &str, symbol: &str) -> (line: String)
    ensures
        line@ == entries_line_spec(
            exchange@,
            symbol@,
            best_entries_texts(best_level(book.bids_view(), true), best_level(book.asks_view(), false)),
        ),
{
    let texts = match (book.best_bid(), book.best_ask()) {
        (Some((bid_price, bid_vol)), Some((ask_price, ask_vol))) => Some(
            (bid_vol.to_text(), bid_price.to_text(), ask_vol.to_text(), ask_price.to_text()),
        ),
        _ => None,
    };
    entries_line(exchange, symbol, texts)
}

} // verus!
