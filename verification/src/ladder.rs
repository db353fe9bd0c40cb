//! Price ladders: one sorted side of a venue order book.
//!
//! A ladder is a vector of price levels with strictly ordered prices
//! (descending for bids, ascending for asks) and strictly positive
//! quantities. The operations behave, over the `lookup` spec function,
//! exactly like updates of a finite map from price to quantity: an upsert
//! sets one price, a removal clears one price, and every other price keeps
//! its quantity.

use vstd::prelude::*;

verus! {

/// One order-book price level: a price and the outstanding quantity at
/// that price, both fixed-point decimals (see the decimal module).
#[derive(Clone, Copy, PartialEq, Eq, Structural, Debug)]
pub struct PriceLevel {
    pub price: u64,
    pub quantity: u64,
}

/// Price `a` comes strictly before price `b` on this side: higher first
/// on the bid side (`desc`), lower first on the ask side.
pub open spec fn better(a: u64, b: u64, desc: bool) -> bool {
    if desc {
        a > b
    } else {
        a < b
    }
}

/// `a` comes before `b`, or ties with it.
pub open spec fn better_or_eq(a: u64, b: u64, desc: bool) -> bool {
    better(a, b, desc) || a == b
}

/// Well-formed ladder: prices strictly ordered for this side and every
/// stored quantity positive (a zero quantity is never materialized).
pub open spec fn wf_ladder(s: Seq<PriceLevel>, desc: bool) -> bool {
    &&& forall|i: int, j: int|
        0 <= i < j < s.len() ==> better(#[trigger] s[i].price, #[trigger] s[j].price, desc)
    &&& forall|i: int| 0 <= i < s.len() ==> (#[trigger] s[i]).quantity > 0
}

/// The quantity stored at price `p`, if any (first match).
pub open spec fn lookup(s: Seq<PriceLevel>, p: u64) -> Option<u64>
    decreases s.len(),
{
    if s.len() == 0 {
        None
    } else if s[0].price == p {
        Some(s[0].quantity)
    } else {
        lookup(s.drop_first(), p)
    }
}

/// A well-formed ladder holds no duplicate prices.
pub proof fn lemma_ladder_no_duplicates(s: Seq<PriceLevel>, desc: bool)
    requires
        wf_ladder(s, desc),
    ensures
        forall|i: int, j: int|
            0 <= i < s.len() && 0 <= j < s.len() && i != j ==> (#[trigger] s[i]).price != (
            #[trigger] s[j]).price,
{
}

proof fn lemma_lookup_append(a: Seq<PriceLevel>, b: Seq<PriceLevel>, p: u64)
    ensures
        lookup(a + b, p) == (if lookup(a, p) is Some {
            lookup(a, p)
        } else {
            lookup(b, p)
        }),
    decreases a.len(),
{
    if a.len() == 0 {
        assert(a + b =~= b);
    } else {
        assert((a + b).drop_first() =~= a.drop_first() + b);
        lemma_lookup_append(a.drop_first(), b, p);
    }
}

/// `lookup` misses exactly when no level has the price.
proof fn lemma_lookup_none(s: Seq<PriceLevel>, p: u64)
    ensures
        lookup(s, p) is None <==> (forall|i: int| 0 <= i < s.len() ==> (#[trigger] s[i]).price
            != p),
    decreases s.len(),
{
    if s.len() > 0 {
        lemma_lookup_none(s.drop_first(), p);
        assert(forall|i: int|
            1 <= i < s.len() ==> #[trigger] s[i] == s.drop_first()[i - 1]);
    }
}

/// In a well-formed ladder, the level at any index is what `lookup`
/// returns for its price: the bridge between contracts stated over
/// `lookup` (event application) and contracts stated over level indices
/// (consolidation).
pub proof fn lemma_lookup_at(s: Seq<PriceLevel>, desc: bool, i: int)
    requires
        wf_ladder(s, desc),
        0 <= i < s.len(),
    ensures
        lookup(s, s[i].price) == Some(s[i].quantity),
    decreases s.len(),
{
    if i > 0 {
        lemma_lookup_at(s.drop_first(), desc, i - 1);
        assert(s.drop_first()[i - 1] == s[i]);
    }
}

fn is_better(a: u64, b: u64, desc: bool) -> (r: bool)
    ensures
        r == better(a, b, desc),
{
    if desc {
        a > b
    } else {
        a < b
    }
}

/// Insert or replace the level at `price` with quantity `quantity`.
pub fn ladder_upsert(lad: &mut Vec<PriceLevel>, desc: bool, price: u64, quantity: u64)
    requires
        wf_ladder(old(lad)@, desc),
        quantity > 0,
    ensures
        wf_ladder(final(lad)@, desc),
        lookup(final(lad)@, price) == Some(quantity),
        forall|p: u64| p != price ==> lookup(final(lad)@, p) == lookup(old(lad)@, p),
{
    let ghost s0 = lad@;
    let lvl = PriceLevel { price, quantity };
    let mut i: usize = 0;
    while i < lad.len() && is_better(lad[i].price, price, desc)
        invariant
            lad@ == s0,
            i <= lad.len(),
            forall|j: int| 0 <= j < i ==> better((#[trigger] s0[j]).price, price, desc),
        decreases lad.len() - i,
    {
        i = i + 1;
    }
    let ghost pre = s0.subrange(0, i as int);
    if i < lad.len() && lad[i].price == price {
        lad.set(i, lvl);
        proof {
            let s1 = lad@;
            let ghost suf = s0.subrange(i + 1, s0.len() as int);
            assert(s0 =~= pre + (seq![s0[i as int]] + suf));
            assert(s1 =~= pre + (seq![lvl] + suf));
            assert(forall|k: int| 0 <= k < s1.len() ==> #[trigger] s1[k].price == s0[k].price);
            assert(wf_ladder(s1, desc));
            lemma_lookup_none(pre, price);
            assert forall|p: u64| true implies lookup(s1, p) == (if p == price {
                Some(quantity)
            } else {
                lookup(s0, p)
            }) by {
                lemma_lookup_append(pre, seq![lvl] + suf, p);
                lemma_lookup_append(pre, seq![s0[i as int]] + suf, p);
                assert((seq![lvl] + suf).drop_first() =~= suf);
                assert((seq![s0[i as int]] + suf).drop_first() =~= suf);
            }
        }
    } else {
        proof {
            if i < s0.len() {
                assert(s0[i as int].price != price);
            }
        }
        lad.insert(i, lvl);
        proof {
            let s1 = lad@;
            let ghost suf = s0.subrange(i as int, s0.len() as int);
            assert(s0 =~= pre + suf);
            assert(s1 =~= pre + (seq![lvl] + suf));
            // every later level sits past the insertion point of `price`
            assert forall|j: int| 0 <= j < suf.len() implies better(price, (
            #[trigger] suf[j]).price, desc) by {
                assert(suf[j] == s0[i + j]);
                if j > 0 {
                    assert(better(s0[i as int].price, s0[i + j].price, desc));
                }
            }
            assert forall|a: int, b: int| 0 <= a < b < s1.len() implies better(
                (#[trigger] s1[a]).price,
                (#[trigger] s1[b]).price,
                desc,
            ) by {
                if a < i && b > i {
                    assert(s1[a] == s0[a]);
                    assert(s1[b] == suf[b - i - 1]);
                }
            }
            assert(wf_ladder(s1, desc));
            lemma_lookup_none(pre, price);
            assert forall|p: u64| true implies lookup(s1, p) == (if p == price {
                Some(quantity)
            } else {
                lookup(s0, p)
            }) by {
                lemma_lookup_append(pre, seq![lvl] + suf, p);
                lemma_lookup_append(pre, suf, p);
                assert((seq![lvl] + suf).drop_first() =~= suf);
            }
        }
    }
}

/// Remove the level at `price`, if present.
pub fn ladder_remove(lad: &mut Vec<PriceLevel>, desc: bool, price: u64)
    requires
        wf_ladder(old(lad)@, desc),
    ensures
        wf_ladder(final(lad)@, desc),
        lookup(final(lad)@, price) is None,
        forall|p: u64| p != price ==> lookup(final(lad)@, p) == lookup(old(lad)@, p),
{
    let ghost s0 = lad@;
    let mut i: usize = 0;
    while i < lad.len() && lad[i].price != price
        invariant
            lad@ == s0,
            i <= lad.len(),
            forall|j: int| 0 <= j < i ==> (#[trigger] s0[j]).price != price,
        decreases lad.len() - i,
    {
        i = i + 1;
    }
    if i < lad.len() {
        lad.remove(i);
        proof {
            let s1 = lad@;
            let pre = s0.subrange(0, i as int);
            let suf = s0.subrange(i + 1, s0.len() as int);
            assert(s0 =~= pre + (seq![s0[i as int]] + suf));
            assert(s1 =~= pre + suf);
            assert forall|a: int, b: int| 0 <= a < b < s1.len() implies better(
                (#[trigger] s1[a]).price,
                (#[trigger] s1[b]).price,
                desc,
            ) by {
                if b >= i {
                    assert(s1[b] == s0[b + 1]);
                }
                if a >= i {
                    assert(s1[a] == s0[a + 1]);
                }
            }
            assert(wf_ladder(s1, desc));
            lemma_lookup_none(pre, price);
            lemma_ladder_no_duplicates(s0, desc);
            assert forall|j: int| 0 <= j < suf.len() implies (#[trigger] suf[j]).price != price
                by {
                assert(suf[j] == s0[i + 1 + j]);
            }
            lemma_lookup_none(suf, price);
            assert forall|p: u64| true implies lookup(s1, p) == (if p == price {
                None
            } else {
                lookup(s0, p)
            }) by {
                lemma_lookup_append(pre, suf, p);
                lemma_lookup_append(pre, seq![s0[i as int]] + suf, p);
                assert((seq![s0[i as int]] + suf).drop_first() =~= suf);
            }
        }
    } else {
        proof {
            lemma_lookup_none(s0, price);
        }
    }
}

/// The result of running a list of level changes, in order, on top of a
/// starting quantity for price `p`: a change with a zero quantity removes
/// the price, any other change sets it, and the last change for `p` wins.
pub open spec fn change_result(base: Option<u64>, changes: Seq<PriceLevel>, p: u64) -> Option<
    u64,
>
    decreases changes.len(),
{
    if changes.len() == 0 {
        base
    } else {
        let c = changes.last();
        if c.price == p {
            if c.quantity == 0 {
                None
            } else {
                Some(c.quantity)
            }
        } else {
            change_result(base, changes.drop_last(), p)
        }
    }
}

/// Apply a list of level changes to a ladder: zero-quantity changes
/// remove their price, the others upsert it.
pub fn ladder_apply_changes(lad: &mut Vec<PriceLevel>, desc: bool, changes: &Vec<PriceLevel>)
    requires
        wf_ladder(old(lad)@, desc),
    ensures
        wf_ladder(final(lad)@, desc),
        forall|p: u64| #[trigger]
            lookup(final(lad)@, p) == change_result(lookup(old(lad)@, p), changes@, p),
{
    let ghost s0 = old(lad)@;
    let mut k: usize = 0;
    while k < changes.len()
        invariant
            wf_ladder(lad@, desc),
            k <= changes.len(),
            forall|p: u64| #[trigger]
                lookup(lad@, p) == change_result(
                    lookup(s0, p),
                    changes@.subrange(0, k as int),
                    p,
                ),
        decreases changes.len() - k,
    {
        let ghost prev = lad@;
        let c = changes[k];
        if c.quantity == 0 {
            ladder_remove(lad, desc, c.price);
        } else {
            ladder_upsert(lad, desc, c.price, c.quantity);
        }
        proof {
            let done = changes@.subrange(0, k + 1 as int);
            assert(done.drop_last() =~= changes@.subrange(0, k as int));
            assert(done.last() == changes@[k as int]);
        }
        k = k + 1;
    }
    proof {
        assert(changes@.subrange(0, changes@.len() as int) =~= changes@);
    }
}

} // verus!
