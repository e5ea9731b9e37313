//! Folding the price levels that an exchange sends, as texts, into one side
//! of a book: the fold itself, and what it keeps and changes.

use crate::decimal::{decimal_from_str, Decimal, PriceKey};
use crate::exchanges::connector::ConnectorError;
use crate::order_book::{side_after_update, OrderBookOperations, Side};
use vstd::prelude::*;

verus! {

/// One price level as the exchange sends it: the price's text and the
/// quantity's text.
pub type LevelText = (String, String);

/// The parsed price and quantity of a level, or the text of the first parse
/// error (the price is parsed first).
pub open spec fn parse_level(level: LevelText) -> Result<(Decimal, Decimal), Seq<char>> {
    match decimal_from_str(level.0@) {
        Err(msg) => Err(msg),
        Ok(p) => match decimal_from_str(level.1@) {
            Err(msg) => Err(msg),
            Ok(q) => Ok((Decimal::from_parts(p), Decimal::from_parts(q))),
        },
    }
}

/// Folds levels into a side in order, stopping at the first level that does
/// not parse: the side reached, and the error's text if one stopped it.
pub open spec fn apply_levels(side: Side, levels: Seq<LevelText>) -> (Side, Option<Seq<char>>)
    decreases levels.len(),
{
    if levels.len() == 0 {
        (side, None)
    } else {
        match parse_level(levels[0]) {
            Err(msg) => (side, Some(msg)),
            Ok(level) => apply_levels(side_after_update(side, level.0, level.1), levels.drop_first()),
        }
    }
}

/// Folds bid levels, then (if all of them parsed) ask levels: the bid side,
/// the ask side, and the error's text if one stopped the fold.
pub open spec fn apply_book_levels(bids: Side, asks: Side, b: Seq<LevelText>, a: Seq<LevelText>) -> (
    Side,
    Side,
    Option<Seq<char>>,
) {
    let (new_bids, bid_error) = apply_levels(bids, b);
    if bid_error is Some {
        (new_bids, asks, bid_error)
    } else {
        let (new_asks, ask_error) = apply_levels(asks, a);
        (new_bids, new_asks, ask_error)
    }
}

/// The side of the book that `is_bid` picks.
pub open spec fn side_of<O: OrderBookOperations>(book: O, is_bid: bool) -> Side {
    if is_bid {
        book.bids_view()
    } else {
        book.asks_view()
    }
}

/// `r` reports the outcome of a fold: success, or a parse error with its text.
pub open spec fn reports_parse(r: Result<(), ConnectorError>, error: Option<Seq<char>>) -> bool {
    match error {
        None => r is Ok,
        Some(msg) => r matches Err(ConnectorError::ParseError(text)) && text@ == msg,
    }
}

/// Folds the levels into one side of the book, stopping at the first level
/// that does not parse; what was folded before it stays folded.
pub fn update_levels<O: OrderBookOperations>(book: &mut O, levels: &Vec<LevelText>, is_bid: bool) -> (r: Result<(), ConnectorError>)
    ensures
        side_of(*final(book), is_bid) == apply_levels(side_of(*old(book), is_bid), levels@).0,
        side_of(*final(book), !is_bid) == side_of(*old(book), !is_bid),
        final(book).last_update_id_view() == old(book).last_update_id_view(),
        reports_parse(r, apply_levels(side_of(*old(book), is_bid), levels@).1),
{
    let n = levels.len();
    let mut i: usize = 0;
    assert(levels@.skip(0) =~= levels@);
    while i < n
        invariant
            n == levels@.len(),
            i <= n,
            apply_levels(side_of(*old(book), is_bid), levels@) == apply_levels(
                side_of(*book, is_bid),
                levels@.skip(i as int),
            ),
            side_of(*book, !is_bid) == side_of(*old(book), !is_bid),
            book.last_update_id_view() == old(book).last_update_id_view(),
        decreases n - i,
    {
        let ghost rest = levels@.skip(i as int);
        assert(rest[0] == levels@[i as int]);
        assert(rest.drop_first() =~= levels@.skip(i + 1));
        let level = &levels[i];
        let price = match Decimal::parse(level.0.as_str()) {
            Ok(d) => d,
            Err(msg) => {
                return Err(ConnectorError::ParseError(msg));
            },
        };
        let quantity = match Decimal::parse(level.1.as_str()) {
            Ok(d) => d,
            Err(msg) => {
                return Err(ConnectorError::ParseError(msg));
            },
        };
        assert(Decimal::from_parts((price.mantissa, price.scale)) == price);
        assert(Decimal::from_parts((quantity.mantissa, quantity.scale)) == quantity);
        book.update(price, quantity, is_bid);
        i = i + 1;
    }
    assert(levels@.skip(n as int) =~= Seq::<LevelText>::empty());
    Ok(())
}

/// Folding no levels leaves the side as it is, with no error.
pub proof fn lemma_apply_no_levels(side: Side)
    ensures
        apply_levels(side, Seq::<LevelText>::empty()) == (side, Option::<Seq<char>>::None),
{
}

/// Folding one more level at the end: once an error has stopped the fold,
/// nothing more is folded and the error stays; otherwise the new level's
/// price and quantity are parsed and, if both parse, the side is updated with
/// them, else the fold stops with that level's error and the side unchanged.
pub proof fn lemma_apply_levels_push(side: Side, levels: Seq<LevelText>, level: LevelText)
    ensures
        ({
            let before = apply_levels(side, levels);
            let after = apply_levels(side, levels.push(level));
            if before.1 is Some {
                after == before
            } else {
                match (decimal_from_str(level.0@), decimal_from_str(level.1@)) {
                    (Err(msg), _) => after == (before.0, Some(msg)),
                    (Ok(_), Err(msg)) => after == (before.0, Some(msg)),
                    (Ok(p), Ok(q)) => after == (
                        side_after_update(before.0, Decimal::from_parts(p), Decimal::from_parts(q)),
                        Option::<Seq<char>>::None,
                    ),
                }
            }
        }),
    decreases levels.len(),
{
    if levels.len() == 0 {
        assert(levels.push(level).drop_first() =~= Seq::<LevelText>::empty());
        assert(levels.push(level)[0] == level);
        if let Ok(l) = parse_level(level) {
            let next = side_after_update(side, l.0, l.1);
            assert(apply_levels(next, Seq::<LevelText>::empty()) == (next, Option::<Seq<char>>::None));
        }
    } else {
        assert(levels.push(level).drop_first() =~= levels.drop_first().push(level));
        assert(levels.push(level)[0] == levels[0]);
        if let Ok(first) = parse_level(levels[0]) {
            lemma_apply_levels_push(side_after_update(side, first.0, first.1), levels.drop_first(), level);
        }
    }
}

/// Folding a book's levels: the bid side is the bids folded in, whatever the
/// asks; when every bid level parses, the ask side and the outcome are those
/// of folding the asks, whatever the number of bid levels (so an update with
/// no bid levels folds its asks); when a bid level does not parse, the asks
/// are left alone and the outcome is that error.
pub proof fn lemma_apply_book_levels(bids: Side, asks: Side, b: Seq<LevelText>, a: Seq<LevelText>)
    ensures
        apply_book_levels(bids, asks, b, a).0 == apply_levels(bids, b).0,
        apply_levels(bids, b).1 is None ==> apply_book_levels(bids, asks, b, a).1 == apply_levels(asks, a).0
            && apply_book_levels(bids, asks, b, a).2 == apply_levels(asks, a).1,
        apply_levels(bids, b).1 is Some ==> apply_book_levels(bids, asks, b, a).1 == asks
            && apply_book_levels(bids, asks, b, a).2 == apply_levels(bids, b).1,
        b.len() == 0 ==> apply_book_levels(bids, asks, b, a) == (bids, apply_levels(asks, a).0, apply_levels(
            asks,
            a,
        ).1),
{
}

/// The level a side holds at a key, if any.
pub open spec fn level_at(side: Side, k: PriceKey) -> Option<(Decimal, Decimal)> {
    if side.contains_key(k) {
        Some(side[k])
    } else {
        None
    }
}

/// What a run of updates does to the level at one key: nothing, set it to a
/// fixed state, or keep the level's price (or take this one for a new level)
/// with this volume.
pub enum LevelEffect {
    Keep,
    Fix(Option<(Decimal, Decimal)>),
    Refresh(Decimal, Decimal),
}

/// The level after an effect.
pub open spec fn effect_apply(e: LevelEffect, level: Option<(Decimal, Decimal)>) -> Option<(Decimal, Decimal)> {
    match e {
        LevelEffect::Keep => level,
        LevelEffect::Fix(fixed) => fixed,
        LevelEffect::Refresh(price, vol) => Some(
            (
                match level {
                    Some(l) => l.0,
                    None => price,
                },
                vol,
            ),
        ),
    }
}

/// The effect of `first` followed by `second`.
pub open spec fn effect_then(first: LevelEffect, second: LevelEffect) -> LevelEffect {
    match second {
        LevelEffect::Keep => first,
        LevelEffect::Fix(fixed) => LevelEffect::Fix(fixed),
        LevelEffect::Refresh(price, vol) => match first {
            LevelEffect::Keep => LevelEffect::Refresh(price, vol),
            LevelEffect::Fix(fixed) => LevelEffect::Fix(effect_apply(second, fixed)),
            LevelEffect::Refresh(first_price, _) => LevelEffect::Refresh(first_price, vol),
        },
    }
}

/// The effect of one update on the level at `k`.
pub open spec fn update_effect(k: PriceKey, price: Decimal, vol: Decimal) -> LevelEffect {
    if price.key_spec() != k {
        LevelEffect::Keep
    } else if vol.is_zero_spec() {
        LevelEffect::Fix(None)
    } else {
        LevelEffect::Refresh(price, vol)
    }
}

/// The effect of folding `levels` on the level at `k`.
pub open spec fn levels_effect(k: PriceKey, levels: Seq<LevelText>) -> LevelEffect
    decreases levels.len(),
{
    if levels.len() == 0 {
        LevelEffect::Keep
    } else {
        match parse_level(levels[0]) {
            Err(_) => LevelEffect::Keep,
            Ok(level) => effect_then(
                update_effect(k, level.0, level.1),
                levels_effect(k, levels.drop_first()),
            ),
        }
    }
}

proof fn lemma_update_effect(side: Side, price: Decimal, vol: Decimal, k: PriceKey)
    ensures
        level_at(side_after_update(side, price, vol), k) == effect_apply(
            update_effect(k, price, vol),
            level_at(side, k),
        ),
{
}

proof fn lemma_effect_then(first: LevelEffect, second: LevelEffect, level: Option<(Decimal, Decimal)>)
    ensures
        effect_apply(effect_then(first, second), level) == effect_apply(second, effect_apply(first, level)),
{
}

proof fn lemma_effect_idempotent(e: LevelEffect, level: Option<(Decimal, Decimal)>)
    ensures
        effect_apply(e, effect_apply(e, level)) == effect_apply(e, level),
{
}

proof fn lemma_levels_effect(side: Side, levels: Seq<LevelText>, k: PriceKey)
    ensures
        level_at(apply_levels(side, levels).0, k) == effect_apply(levels_effect(k, levels), level_at(side, k)),
    decreases levels.len(),
{
    if levels.len() > 0 {
        if let Ok(level) = parse_level(levels[0]) {
            let next = side_after_update(side, level.0, level.1);
            lemma_levels_effect(next, levels.drop_first(), k);
            lemma_update_effect(side, level.0, level.1, k);
            lemma_effect_then(
                update_effect(k, level.0, level.1),
                levels_effect(k, levels.drop_first()),
                level_at(side, k),
            );
        }
    }
}

proof fn lemma_levels_error(a: Side, b: Side, levels: Seq<LevelText>)
    ensures
        apply_levels(a, levels).1 == apply_levels(b, levels).1,
    decreases levels.len(),
{
    if levels.len() > 0 {
        if let Ok(level) = parse_level(levels[0]) {
            lemma_levels_error(
                side_after_update(a, level.0, level.1),
                side_after_update(b, level.0, level.1),
                levels.drop_first(),
            );
        }
    }
}

proof fn lemma_sides_equal(a: Side, b: Side)
    requires
        forall|k: PriceKey| #[trigger] level_at(a, k) == level_at(b, k),
    ensures
        a == b,
{
    assert forall|k: PriceKey| a.contains_key(k) == b.contains_key(k) by {
        assert(level_at(a, k) == level_at(b, k));
    }
    assert forall|k: PriceKey| a.contains_key(k) implies a[k] == b[k] by {
        assert(level_at(a, k) == level_at(b, k));
    }
    assert(a =~= b);
}

/// Folding the same levels twice leaves a side as folding them once did, and
/// stops at the same error: a snapshot may be folded in again after a
/// reconnection without changing what it set.
pub proof fn lemma_apply_levels_idempotent(side: Side, levels: Seq<LevelText>)
    ensures
        apply_levels(apply_levels(side, levels).0, levels) == apply_levels(side, levels),
{
    let once = apply_levels(side, levels).0;
    let twice = apply_levels(once, levels).0;
    assert forall|k: PriceKey| #[trigger] level_at(twice, k) == level_at(once, k) by {
        lemma_levels_effect(side, levels, k);
        lemma_levels_effect(once, levels, k);
        lemma_effect_idempotent(levels_effect(k, levels), level_at(side, k));
    }
    lemma_sides_equal(twice, once);
    lemma_levels_error(once, side, levels);
}

/// No level of `levels` that parses has its price at `k`.
pub open spec fn untouched(levels: Seq<LevelText>, k: PriceKey) -> bool {
    forall|i: int|
        0 <= i < levels.len() ==> (#[trigger] parse_level(levels[i]) matches Ok(level) ==> level.0.key_spec()
            != k)
}

proof fn lemma_untouched_effect(levels: Seq<LevelText>, k: PriceKey)
    requires
        untouched(levels, k),
    ensures
        levels_effect(k, levels) == LevelEffect::Keep,
    decreases levels.len(),
{
    if levels.len() > 0 {
        assert(parse_level(levels[0]) matches Ok(level) ==> level.0.key_spec() != k);
        assert forall|i: int| 0 <= i < levels.drop_first().len() implies (#[trigger] parse_level(
            levels.drop_first()[i],
        ) matches Ok(level) ==> level.0.key_spec() != k) by {
            assert(levels.drop_first()[i] == levels[i + 1]);
        }
        lemma_untouched_effect(levels.drop_first(), k);
    }
}

/// The book is not cleared when levels are folded in: a level at a price that
/// no folded level names keeps what it held (or stays absent).
pub proof fn lemma_untouched_level_kept(side: Side, levels: Seq<LevelText>, k: PriceKey)
    requires
        untouched(levels, k),
    ensures
        level_at(apply_levels(side, levels).0, k) == level_at(side, k),
{
    lemma_untouched_effect(levels, k);
    lemma_levels_effect(side, levels, k);
}

/// Folding a snapshot (or an update's levels) into a book into which it was
/// already folded changes neither side and meets the same error: applying a
/// snapshot again on reconnection is harmless.
pub proof fn lemma_book_levels_idempotent(bids: Side, asks: Side, b: Seq<LevelText>, a: Seq<LevelText>)
    ensures
        ({
            let once = apply_book_levels(bids, asks, b, a);
            apply_book_levels(once.0, once.1, b, a) == once
        }),
{
    lemma_apply_levels_idempotent(bids, b);
    lemma_apply_levels_idempotent(asks, a);
}

} // verus!
