//! Consolidated top-of-book across venues.
//!
//! The consolidated view merges, over every contributing venue (a venue
//! that is `Synced` and not crossed), the best `depth` bid levels (price
//! descending) and the best `depth` ask levels (price ascending), each
//! tagged with its venue; price ties keep venue registration order. The
//! spread is the best ask price minus the best bid price and is undefined
//! exactly when a side is empty.

use vstd::prelude::*;
use crate::book::{BookState, VenueBook, spec_crossed, wf_book};
use crate::ladder::{PriceLevel, better, better_or_eq};

verus! {

/// One consolidated level: the contributing venue and its price level.
#[derive(Clone, Copy, PartialEq, Eq, Structural, Debug)]
pub struct ConsolidatedLevel {
    pub venue_id: u32,
    pub price: u64,
    pub quantity: u64,
}

/// The consolidated best-bid/best-ask view. Spread is `None` exactly
/// when a side has no level; a negative spread means the consolidated
/// view is crossed between venues.
pub struct ConsolidatedBook {
    pub bids: Vec<ConsolidatedLevel>,
    pub asks: Vec<ConsolidatedLevel>,
    pub spread: Option<i128>,
}

/// Value equality of consolidated books: same levels and same spread.
pub open spec fn cb_eq(a: ConsolidatedBook, b: ConsolidatedBook) -> bool {
    a.bids@ == b.bids@ && a.asks@ == b.asks@ && a.spread == b.spread
}

/// A venue contributes to consolidation while it is `Synced` and its own
/// book is not crossed.
pub open spec fn contributes(b: VenueBook) -> bool {
    b.state == BookState::Synced && !spec_crossed(b)
}

/// The requested side of a venue book (`desc` = bids, otherwise asks).
pub open spec fn side_seq(b: VenueBook, desc: bool) -> Seq<PriceLevel> {
    if desc {
        b.bids@
    } else {
        b.asks@
    }
}

/// Levels the venue offers to consolidation on this side.
pub open spec fn contrib_len(b: VenueBook, desc: bool) -> int {
    if contributes(b) {
        side_seq(b, desc).len() as int
    } else {
        0
    }
}

/// Levels contributed on this side by the first `upto` venues.
pub open spec fn total_upto(vs: Seq<VenueBook>, desc: bool, upto: int) -> int
    decreases upto,
{
    if upto <= 0 {
        0
    } else {
        total_upto(vs, desc, upto - 1) + contrib_len(vs[upto - 1], desc)
    }
}

/// Levels contributed on this side by all venues.
pub open spec fn total_len(vs: Seq<VenueBook>, desc: bool) -> int {
    total_upto(vs, desc, vs.len() as int)
}

/// Index of the first venue book with this id, or a negative value if
/// none has it.
pub open spec fn spec_find_venue(vs: Seq<VenueBook>, id: u32) -> int
    decreases vs.len(),
{
    if vs.len() == 0 {
        -1
    } else if vs[0].venue_id == id {
        0
    } else {
        let r = spec_find_venue(vs.drop_first(), id);
        if r < 0 {
            -1
        } else {
            r + 1
        }
    }
}

pub proof fn lemma_find_venue_at(vs: Seq<VenueBook>, id: u32, i: int)
    requires
        0 <= i < vs.len(),
        forall|j: int| 0 <= j < i ==> (#[trigger] vs[j]).venue_id != id,
        vs[i].venue_id == id,
    ensures
        spec_find_venue(vs, id) == i,
    decreases i,
{
    if i > 0 {
        assert(forall|j: int|
            0 <= j < vs.drop_first().len() ==> #[trigger] vs.drop_first()[j] == vs[j + 1]);
        lemma_find_venue_at(vs.drop_first(), id, i - 1);
    }
}

pub proof fn lemma_find_venue_none(vs: Seq<VenueBook>, id: u32)
    requires
        forall|j: int| 0 <= j < vs.len() ==> (#[trigger] vs[j]).venue_id != id,
    ensures
        spec_find_venue(vs, id) < 0,
    decreases vs.len(),
{
    if vs.len() > 0 {
        assert(forall|j: int|
            0 <= j < vs.drop_first().len() ==> #[trigger] vs.drop_first()[j] == vs[j + 1]);
        lemma_find_venue_none(vs.drop_first(), id);
    }
}

/// The venue ids are pairwise distinct.
pub open spec fn distinct_venue_ids(vs: Seq<VenueBook>) -> bool {
    forall|i: int, j: int|
        0 <= i < j < vs.len() ==> (#[trigger] vs[i]).venue_id != (#[trigger] vs[j]).venue_id
}

/// With distinct ids, looking a venue's own id up gives its index.
proof fn lemma_find_venue_self(vs: Seq<VenueBook>, i: int)
    requires
        distinct_venue_ids(vs),
        0 <= i < vs.len(),
    ensures
        spec_find_venue(vs, vs[i].venue_id) == i,
{
    lemma_find_venue_at(vs, vs[i].venue_id, i);
}

/// The consolidated level made from level `j` of this side of venue `b`.
pub open spec fn mk_level(b: VenueBook, desc: bool, j: int) -> ConsolidatedLevel {
    ConsolidatedLevel {
        venue_id: b.venue_id,
        price: side_seq(b, desc)[j].price,
        quantity: side_seq(b, desc)[j].quantity,
    }
}

/// `out` holds the consolidated level for level `j` of venue `b`.
pub open spec fn in_out(out: Seq<ConsolidatedLevel>, b: VenueBook, desc: bool, j: int) -> bool {
    exists|k: int| 0 <= k < out.len() && #[trigger] out[k] == mk_level(b, desc, j)
}

/// Prices come in side order, ties allowed.
pub open spec fn sorted_cons(out: Seq<ConsolidatedLevel>, desc: bool) -> bool {
    forall|k: int, l: int|
        0 <= k < l < out.len() ==> better_or_eq(
            (#[trigger] out[k]).price,
            (#[trigger] out[l]).price,
            desc,
        )
}

/// Every consolidated level is a level of some contributing venue.
pub open spec fn from_venues(out: Seq<ConsolidatedLevel>, vs: Seq<VenueBook>, desc: bool) -> bool {
    forall|k: int|
        0 <= k < out.len() ==> exists|i: int, j: int|
            0 <= i < vs.len() && contributes(vs[i]) && 0 <= j < side_seq(vs[i], desc).len() && (
            #[trigger] out[k]) == mk_level(vs[i], desc, j)
}

/// What one consolidated side is: as many levels as fit under `depth`,
/// in side order, each taken from a contributing venue; the first level
/// is at least as good as every level any contributing venue offers; a
/// level left out only misses because the side is full of levels at
/// least as good; and, for distinct venue ids, levels of equal price
/// keep venue registration order.
pub open spec fn valid_merge(
    out: Seq<ConsolidatedLevel>,
    vs: Seq<VenueBook>,
    depth: int,
    desc: bool,
) -> bool {
    &&& out.len() == if depth <= total_len(vs, desc) {
        depth
    } else {
        total_len(vs, desc)
    }
    &&& sorted_cons(out, desc)
    &&& from_venues(out, vs, desc)
    &&& out.len() > 0 ==> forall|i: int, j: int|
        0 <= i < vs.len() && contributes(vs[i]) && 0 <= j < side_seq(vs[i], desc).len()
            ==> better_or_eq(out[0].price, (#[trigger] side_seq(vs[i], desc)[j]).price, desc)
    &&& depth > 0 ==> forall|i: int, j: int|
        0 <= i < vs.len() && contributes(vs[i]) && 0 <= j < side_seq(vs[i], desc).len()
            ==> in_out(out, vs[i], desc, j) || (out.len() == depth && better_or_eq(
            out[depth - 1].price,
            (#[trigger] side_seq(vs[i], desc)[j]).price,
            desc,
        ))
    &&& distinct_venue_ids(vs) ==> forall|k: int, l: int|
        0 <= k < l < out.len() && (#[trigger] out[k]).price == (#[trigger] out[l]).price
            ==> spec_find_venue(vs, out[k].venue_id) < spec_find_venue(vs, out[l].venue_id)
}

/// What a consolidated book is, for a set of venue books and a depth:
/// both sides are valid merges, and the spread is the best ask price
/// minus the best bid price, undefined exactly when a side is empty.
pub open spec fn spec_consolidated_view(nb: ConsolidatedBook, vs: Seq<VenueBook>, depth: int) -> bool {
    &&& valid_merge(nb.bids@, vs, depth, true)
    &&& valid_merge(nb.asks@, vs, depth, false)
    &&& nb.spread is None <==> (nb.bids@.len() == 0 || nb.asks@.len() == 0)
    &&& nb.bids@.len() > 0 && nb.asks@.len() > 0 ==> nb.spread == Some(
        (nb.asks@[0].price as i128 - nb.bids@[0].price as i128) as i128,
    )
}

/// Levels consumed so far from the first `upto` venues, given per-venue
/// cursors.
pub open spec fn consumed(vs: Seq<VenueBook>, cs: Seq<usize>, desc: bool, upto: int) -> int
    decreases upto,
{
    if upto <= 0 {
        0
    } else {
        consumed(vs, cs, desc, upto - 1) + if contributes(vs[upto - 1]) {
            cs[upto - 1] as int
        } else {
            0
        }
    }
}

proof fn lemma_consumed_zero(vs: Seq<VenueBook>, cs: Seq<usize>, desc: bool, upto: int)
    requires
        upto <= cs.len(),
        forall|i: int| 0 <= i < cs.len() ==> #[trigger] cs[i] == 0,
    ensures
        consumed(vs, cs, desc, upto) == 0,
    decreases upto,
{
    if upto > 0 {
        lemma_consumed_zero(vs, cs, desc, upto - 1);
    }
}

proof fn lemma_consumed_le(vs: Seq<VenueBook>, cs: Seq<usize>, desc: bool, upto: int)
    requires
        cs.len() == vs.len(),
        upto <= vs.len(),
        forall|i: int|
            0 <= i < vs.len() && contributes(#[trigger] vs[i]) ==> cs[i] <= side_seq(
                vs[i],
                desc,
            ).len(),
        forall|i: int| 0 <= i < vs.len() && !contributes(#[trigger] vs[i]) ==> cs[i] == 0,
    ensures
        0 <= consumed(vs, cs, desc, upto) <= total_upto(vs, desc, upto),
    decreases upto,
{
    if upto > 0 {
        lemma_consumed_le(vs, cs, desc, upto - 1);
    }
}

proof fn lemma_consumed_full(vs: Seq<VenueBook>, cs: Seq<usize>, desc: bool, upto: int)
    requires
        cs.len() == vs.len(),
        upto <= vs.len(),
        forall|i: int|
            0 <= i < vs.len() && contributes(#[trigger] vs[i]) ==> cs[i] == side_seq(
                vs[i],
                desc,
            ).len(),
    ensures
        consumed(vs, cs, desc, upto) == total_upto(vs, desc, upto),
    decreases upto,
{
    if upto > 0 {
        lemma_consumed_full(vs, cs, desc, upto - 1);
    }
}

proof fn lemma_consumed_update(
    vs: Seq<VenueBook>,
    cs: Seq<usize>,
    cs2: Seq<usize>,
    desc: bool,
    b: int,
    upto: int,
)
    requires
        cs.len() == vs.len(),
        cs2.len() == cs.len(),
        upto <= vs.len(),
        0 <= b < cs.len(),
        contributes(vs[b]),
        forall|i: int| 0 <= i < cs.len() && i != b ==> #[trigger] cs2[i] == cs[i],
        cs2[b] as int == cs[b] as int + 1,
    ensures
        consumed(vs, cs2, desc, upto) == consumed(vs, cs, desc, upto) + if b < upto {
            1int
        } else {
            0int
        },
    decreases upto,
{
    if upto > 0 {
        lemma_consumed_update(vs, cs, cs2, desc, b, upto - 1);
    }
}

proof fn lemma_total_upto_nonneg(vs: Seq<VenueBook>, desc: bool, upto: int)
    ensures
        total_upto(vs, desc, upto) >= 0,
    decreases upto,
{
    if upto > 0 {
        lemma_total_upto_nonneg(vs, desc, upto - 1);
    }
}

proof fn lemma_total_upto_zero(vs: Seq<VenueBook>, desc: bool, upto: int)
    requires
        upto <= vs.len(),
    ensures
        total_upto(vs, desc, upto) == 0 <==> (forall|i: int|
            0 <= i < upto && contributes(#[trigger] vs[i]) ==> side_seq(vs[i], desc).len() == 0),
    decreases upto,
{
    if upto > 0 {
        lemma_total_upto_zero(vs, desc, upto - 1);
        lemma_total_upto_nonneg(vs, desc, upto - 1);
    }
}

/// A consolidated side is empty exactly when every contributing venue's
/// side is empty. Together with the spread clause of `consolidate`, the
/// spread is undefined exactly when at least one side has zero entries
/// across all contributing venues.
pub proof fn lemma_total_len_zero(vs: Seq<VenueBook>, desc: bool)
    ensures
        total_len(vs, desc) == 0 <==> (forall|i: int|
            0 <= i < vs.len() && contributes(#[trigger] vs[i]) ==> side_seq(vs[i], desc).len()
                == 0),
{
    lemma_total_upto_zero(vs, desc, vs.len() as int);
}

/// A consolidated side of any positive depth is empty exactly when every
/// contributing venue offers no level on that side.
pub proof fn lemma_side_empty_iff(
    out: Seq<ConsolidatedLevel>,
    vs: Seq<VenueBook>,
    depth: int,
    desc: bool,
)
    requires
        valid_merge(out, vs, depth, desc),
        depth > 0,
    ensures
        out.len() == 0 <==> (forall|i: int|
            0 <= i < vs.len() && contributes(#[trigger] vs[i]) ==> side_seq(vs[i], desc).len()
                == 0),
{
    lemma_total_len_zero(vs, desc);
    lemma_total_upto_nonneg(vs, desc, vs.len() as int);
}

fn is_contributing(b: &VenueBook) -> (r: bool)
    ensures
        r == contributes(*b),
{
    (match b.state {
        BookState::Synced => true,
        _ => false,
    }) && !b.is_crossed()
}

fn side_len_of(b: &VenueBook, desc: bool) -> (r: usize)
    ensures
        r == side_seq(*b, desc).len(),
{
    if desc {
        b.bids.len()
    } else {
        b.asks.len()
    }
}

fn side_at(b: &VenueBook, desc: bool, j: usize) -> (r: PriceLevel)
    requires
        j < side_seq(*b, desc).len(),
    ensures
        r == side_seq(*b, desc)[j as int],
{
    if desc {
        b.bids[j]
    } else {
        b.asks[j]
    }
}

fn is_better(a: u64, b: u64, desc: bool) -> (r: bool)
    ensures
        r == better(a, b, desc),
{
    if desc {
        a > b
    } else {
        a < b
    }
}

/// Merge one side of every contributing venue book into at most `depth`
/// consolidated levels, best first; price ties keep the venue with the
/// lower index first.
pub fn merge_side(venues: &Vec<VenueBook>, depth: usize, desc: bool) -> (out: Vec<
    ConsolidatedLevel,
>)
    requires
        forall|i: int| 0 <= i < venues@.len() ==> wf_book(#[trigger] venues@[i]),
    ensures
        valid_merge(out@, venues@, depth as int, desc),
{
    let ghost vs = venues@;
    let n = venues.len();
    let mut cursors: Vec<usize> = Vec::new();
    while cursors.len() < n
        invariant
            cursors@.len() <= n,
            forall|i: int| 0 <= i < cursors@.len() ==> #[trigger] cursors@[i] == 0,
        decreases n - cursors.len(),
    {
        cursors.push(0);
    }
    let mut out: Vec<ConsolidatedLevel> = Vec::new();
    // which venue and level index each output element came from
    let ghost mut src: Seq<(int, int)> = Seq::empty();
    proof {
        lemma_consumed_zero(vs, cursors@, desc, n as int);
    }
    let mut done = false;
    while !done && out.len() < depth
        invariant
            n == vs.len(),
            vs == venues@,
            cursors@.len() == n,
            forall|i: int| 0 <= i < n ==> wf_book(#[trigger] vs[i]),
            forall|i: int|
                0 <= i < n ==> #[trigger] cursors@[i] <= side_seq(vs[i], desc).len(),
            forall|i: int|
                0 <= i < n && !contributes(#[trigger] vs[i]) ==> cursors@[i] == 0,
            out@.len() <= depth,
            out@.len() == consumed(vs, cursors@, desc, n as int),
            sorted_cons(out@, desc),
            from_venues(out@, vs, desc),
            forall|i: int, j: int|
                0 <= i < n && contributes(vs[i]) && cursors@[i] <= j < side_seq(
                    vs[i],
                    desc,
                ).len() && out@.len() > 0 ==> better_or_eq(
                    out@[out@.len() - 1].price,
                    (#[trigger] side_seq(vs[i], desc)[j]).price,
                    desc,
                ),
            forall|i: int, j: int|
                0 <= i < n && contributes(vs[i]) && 0 <= j < cursors@[i] ==> #[trigger] in_out(
                    out@,
                    vs[i],
                    desc,
                    j,
                ),
            done ==> forall|i: int|
                0 <= i < n && contributes(#[trigger] vs[i]) ==> cursors@[i] == side_seq(
                    vs[i],
                    desc,
                ).len(),
            src.len() == out@.len(),
            forall|k: int|
                0 <= k < out@.len() ==> 0 <= (#[trigger] src[k]).0 < n && contributes(
                    vs[src[k].0],
                ) && 0 <= src[k].1 < cursors@[src[k].0] && out@[k] == mk_level(
                    vs[src[k].0],
                    desc,
                    src[k].1,
                ),
            forall|k: int, i2: int, j: int|
                #![trigger out@[k], side_seq(vs[i2], desc)[j]]
                0 <= k < out@.len() && 0 <= i2 < src[k].0 && contributes(vs[i2])
                    && cursors@[i2] <= j < side_seq(vs[i2], desc).len() ==> better(
                    out@[k].price,
                    side_seq(vs[i2], desc)[j].price,
                    desc,
                ),
            forall|k: int, l: int|
                0 <= k < l < out@.len() && (#[trigger] out@[k]).price == (
                #[trigger] out@[l]).price ==> src[k].0 < src[l].0,
        decreases (if done {
            0int
        } else {
            1int
        }), depth - out.len(),
    {
        let mut best: usize = n;
        let mut best_price: u64 = 0;
        let mut i: usize = 0;
        while i < n
            invariant
                n == vs.len(),
                vs == venues@,
                cursors@.len() == n,
                i <= n,
                forall|i2: int|
                    0 <= i2 < n ==> #[trigger] cursors@[i2] <= side_seq(vs[i2], desc).len(),
                best == n || best < i,
                best == n ==> forall|i2: int|
                    0 <= i2 < i && contributes(#[trigger] vs[i2]) ==> cursors@[i2] == side_seq(
                        vs[i2],
                        desc,
                    ).len(),
                best < n ==> contributes(vs[best as int]) && cursors@[best as int] < side_seq(
                    vs[best as int],
                    desc,
                ).len() && best_price == side_seq(vs[best as int], desc)[cursors@[best as int] as int].price,
                best < n ==> forall|i2: int|
                    0 <= i2 < i && contributes(#[trigger] vs[i2]) && cursors@[i2] < side_seq(
                        vs[i2],
                        desc,
                    ).len() ==> better_or_eq(
                        best_price,
                        side_seq(vs[i2], desc)[cursors@[i2] as int].price,
                        desc,
                    ),
                best < n ==> forall|i2: int|
                    0 <= i2 < best && contributes(#[trigger] vs[i2]) && cursors@[i2] < side_seq(
                        vs[i2],
                        desc,
                    ).len() ==> better(
                        best_price,
                        side_seq(vs[i2], desc)[cursors@[i2] as int].price,
                        desc,
                    ),
            decreases n - i,
        {
            if is_contributing(&venues[i]) && cursors[i] < side_len_of(&venues[i], desc) {
                let cand = side_at(&venues[i], desc, cursors[i]).price;
                if best == n || is_better(cand, best_price, desc) {
                    best = i;
                    best_price = cand;
                }
            }
            i = i + 1;
        }
        if best == n {
            done = true;
        } else {
            let ghost out0 = out@;
            let ghost cs0 = cursors@;
            let ghost vb = vs[best as int];
            let ghost jb = cs0[best as int] as int;
            let lvl = side_at(&venues[best], desc, cursors[best]);
            let c = ConsolidatedLevel {
                venue_id: venues[best].venue_id,
                price: lvl.price,
                quantity: lvl.quantity,
            };
            out.push(c);
            let sl = side_len_of(&venues[best], desc);
            let cur = cursors[best];
            assert(cur < sl);
            let next = cur + 1;
            cursors.set(best, next);
            proof {
                assert(c == mk_level(vb, desc, jb));
                let src0 = src;
                src = src.push((best as int, jb));
                lemma_consumed_update(vs, cs0, cursors@, desc, best as int, n as int);
                // the pushed level keeps the output in side order
                assert forall|k: int| 0 <= k < out0.len() implies better_or_eq(
                    (#[trigger] out0[k]).price,
                    c.price,
                    desc,
                ) by {
                    assert(better_or_eq(out0[out0.len() - 1].price, c.price, desc));
                    if k < out0.len() - 1 {
                        assert(better_or_eq(out0[k].price, out0[out0.len() - 1].price, desc));
                    }
                }
                assert(sorted_cons(out@, desc));
                // the pushed level is at least as good as every remaining one
                assert forall|i2: int, j: int|
                    0 <= i2 < n && contributes(vs[i2]) && cursors@[i2] <= j
                        < side_seq(vs[i2], desc).len() implies better_or_eq(
                    c.price,
                    (#[trigger] side_seq(vs[i2], desc)[j]).price,
                    desc,
                ) by {
                    if i2 == best as int {
                        assert(better(
                            side_seq(vb, desc)[jb].price,
                            side_seq(vb, desc)[j].price,
                            desc,
                        ));
                    } else {
                        assert(better_or_eq(
                            c.price,
                            side_seq(vs[i2], desc)[cs0[i2] as int].price,
                            desc,
                        ));
                        if j > cs0[i2] {
                            assert(better(
                                side_seq(vs[i2], desc)[cs0[i2] as int].price,
                                side_seq(vs[i2], desc)[j].price,
                                desc,
                            ));
                        }
                    }
                }
                // consumed levels stay represented in the output
                assert forall|i2: int, j: int|
                    0 <= i2 < n && contributes(vs[i2]) && 0 <= j
                        < cursors@[i2] implies #[trigger] in_out(out@, vs[i2], desc, j) by {
                    if i2 == best as int && j == jb {
                        assert(out@[out0.len() as int] == mk_level(vs[i2], desc, j));
                    } else {
                        assert(in_out(out0, vs[i2], desc, j));
                        let k = choose|k: int|
                            0 <= k < out0.len() && #[trigger] out0[k] == mk_level(
                                vs[i2],
                                desc,
                                j,
                            );
                        assert(out@[k] == mk_level(vs[i2], desc, j));
                    }
                }
                assert(from_venues(out@, vs, desc));
                // source bookkeeping for old and new elements
                assert forall|k: int|
                    0 <= k < out@.len() implies 0 <= (#[trigger] src[k]).0 < n && contributes(
                    vs[src[k].0],
                ) && 0 <= src[k].1 < cursors@[src[k].0] && out@[k] == mk_level(
                    vs[src[k].0],
                    desc,
                    src[k].1,
                ) by {
                    if k < out0.len() {
                        assert(src[k] == src0[k]);
                        assert(out@[k] == out0[k]);
                    } else {
                        assert(src[k] == (best as int, jb));
                    }
                }
                // earlier venues' remaining levels stay strictly worse
                assert forall|k: int, i2: int, j: int|
                    #![trigger out@[k], side_seq(vs[i2], desc)[j]]
                    0 <= k < out@.len() && 0 <= i2 < src[k].0 && contributes(vs[i2])
                        && cursors@[i2] <= j < side_seq(vs[i2], desc).len() implies better(
                    out@[k].price,
                    side_seq(vs[i2], desc)[j].price,
                    desc,
                ) by {
                    if k < out0.len() {
                        assert(out@[k] == out0[k]);
                        assert(src[k] == src0[k]);
                        assert(cursors@[i2] >= cs0[i2]);
                        assert(better(out0[k].price, side_seq(vs[i2], desc)[j].price, desc));
                    } else {
                        assert(src[k] == (best as int, jb));
                        assert(cursors@[i2] == cs0[i2]);
                        assert(better(
                            c.price,
                            side_seq(vs[i2], desc)[cs0[i2] as int].price,
                            desc,
                        ));
                        if j > cs0[i2] {
                            assert(better(
                                side_seq(vs[i2], desc)[cs0[i2] as int].price,
                                side_seq(vs[i2], desc)[j].price,
                                desc,
                            ));
                        }
                    }
                }
                // equal prices keep venue order
                assert forall|k: int, l: int|
                    0 <= k < l < out@.len() && (#[trigger] out@[k]).price == (
                #[trigger] out@[l]).price implies src[k].0 < src[l].0 by {
                    if l < out0.len() {
                        assert(out@[k] == out0[k] && out@[l] == out0[l]);
                        assert(src[k] == src0[k] && src[l] == src0[l]);
                    } else {
                        assert(out@[k] == out0[k]);
                        assert(src[k] == src0[k]);
                        assert(src[l] == (best as int, jb));
                        let iv = src0[k].0;
                        if iv > best as int {
                            assert(better(
                                out0[k].price,
                                side_seq(vs[best as int], desc)[jb].price,
                                desc,
                            ));
                        } else if iv == best as int {
                            assert(src0[k].1 < cs0[best as int]);
                            assert(better(
                                side_seq(vb, desc)[src0[k].1].price,
                                side_seq(vb, desc)[jb].price,
                                desc,
                            ));
                        }
                    }
                }
            }
        }
    }
    proof {
        if distinct_venue_ids(vs) {
            assert forall|k: int, l: int|
                0 <= k < l < out@.len() && (#[trigger] out@[k]).price == (
            #[trigger] out@[l]).price implies spec_find_venue(vs, out@[k].venue_id)
                < spec_find_venue(vs, out@[l].venue_id) by {
                lemma_find_venue_self(vs, src[k].0);
                lemma_find_venue_self(vs, src[l].0);
            }
        }
        lemma_consumed_le(vs, cursors@, desc, n as int);
        lemma_total_upto_nonneg(vs, desc, n as int);
        if done {
            lemma_consumed_full(vs, cursors@, desc, n as int);
        }
        assert(out@.len() == if depth as int <= total_len(vs, desc) {
            depth as int
        } else {
            total_len(vs, desc)
        });
        // every contributed level is in the output or crowded out by a
        // full output of at-least-as-good levels
        if depth > 0 {
            assert forall|i: int, j: int|
                0 <= i < vs.len() && contributes(vs[i]) && 0 <= j < side_seq(
                    vs[i],
                    desc,
                ).len() implies in_out(out@, vs[i], desc, j) || (out@.len() == depth
                && better_or_eq(
                out@[depth - 1].price,
                (#[trigger] side_seq(vs[i], desc)[j]).price,
                desc,
            )) by {
                if j >= cursors@[i] {
                    assert(!done);
                    assert(out@.len() == depth);
                    assert(better_or_eq(
                        out@[out@.len() - 1].price,
                        side_seq(vs[i], desc)[j].price,
                        desc,
                    ));
                }
            }
        }
        // the first level tops everything any contributing venue offers
        if out@.len() > 0 {
            assert forall|i: int, j: int|
                0 <= i < vs.len() && contributes(vs[i]) && 0 <= j < side_seq(
                    vs[i],
                    desc,
                ).len() implies better_or_eq(
                out@[0].price,
                (#[trigger] side_seq(vs[i], desc)[j]).price,
                desc,
            ) by {
                if j < cursors@[i] {
                    assert(in_out(out@, vs[i], desc, j));
                    let k = choose|k: int|
                        0 <= k < out@.len() && #[trigger] out@[k] == mk_level(vs[i], desc, j);
                    if k > 0 {
                        assert(better_or_eq(out@[0].price, out@[k].price, desc));
                    }
                } else {
                    assert(better_or_eq(
                        out@[out@.len() - 1].price,
                        side_seq(vs[i], desc)[j].price,
                        desc,
                    ));
                    if out@.len() > 1 {
                        assert(better_or_eq(out@[0].price, out@[out@.len() - 1].price, desc));
                    }
                }
            }
        }
    }
    out
}

/// Recompute the consolidated book over all venues: both sides merged to
/// `depth` levels and the spread of the best levels. The spread is
/// `None` exactly when a side is empty; the best bid price is at least
/// every bid price any contributing venue offers, and the best ask price
/// is at most every ask price any contributing venue offers (the
/// dominance clauses of `valid_merge`).
#[verifier::rlimit(30)]
pub fn consolidate(venues: &Vec<VenueBook>, depth: usize) -> (out: ConsolidatedBook)
    requires
        forall|i: int| 0 <= i < venues@.len() ==> wf_book(#[trigger] venues@[i]),
    ensures
        spec_consolidated_view(out, venues@, depth as int),
{
    let bids = merge_side(venues, depth, true);
    let asks = merge_side(venues, depth, false);
    let spread = if bids.len() > 0 && asks.len() > 0 {
        Some(asks[0].price as i128 - bids[0].price as i128)
    } else {
        None
    };
    let out = ConsolidatedBook { bids, asks, spread };
    proof {
        assert(valid_merge(out.bids@, venues@, depth as int, true));
        assert(valid_merge(out.asks@, venues@, depth as int, false));
        assert(out.spread is None <==> (out.bids@.len() == 0 || out.asks@.len() == 0));
    }
    out
}

fn levels_equal(a: &Vec<ConsolidatedLevel>, b: &Vec<ConsolidatedLevel>) -> (r: bool)
    ensures
        r == (a@ == b@),
{
    if a.len() != b.len() {
        return false;
    }
    let mut i: usize = 0;
    while i < a.len()
        invariant
            i <= a.len(),
            a@.len() == b@.len(),
            forall|j: int| 0 <= j < i ==> a@[j] == b@[j],
        decreases a.len() - i,
    {
        if a[i] != b[i] {
            return false;
        }
        i = i + 1;
    }
    proof {
        assert(a@ =~= b@);
    }
    true
}

/// Whether two consolidated books are equal in value.
pub fn books_equal(a: &ConsolidatedBook, b: &ConsolidatedBook) -> (r: bool)
    ensures
        r == cb_eq(*a, *b),
{
    let spread_eq = match (&a.spread, &b.spread) {
        (Option::None, Option::None) => true,
        (Option::Some(x), Option::Some(y)) => *x == *y,
        _ => false,
    };
    spread_eq && levels_equal(&a.bids, &b.bids) && levels_equal(&a.asks, &b.asks)
}

fn clone_levels(v: &Vec<ConsolidatedLevel>) -> (out: Vec<ConsolidatedLevel>)
    ensures
        out@ == v@,
{
    let mut out: Vec<ConsolidatedLevel> = Vec::new();
    let mut i: usize = 0;
    while i < v.len()
        invariant
            i <= v.len(),
            out@ =~= v@.subrange(0, i as int),
        decreases v.len() - i,
    {
        out.push(v[i]);
        i = i + 1;
    }
    proof {
        assert(v@.subrange(0, v@.len() as int) =~= v@);
    }
    out
}

/// A value copy of a consolidated book.
pub fn clone_book(b: &ConsolidatedBook) -> (out: ConsolidatedBook)
    ensures
        cb_eq(*b, out),
{
    ConsolidatedBook { bids: clone_levels(&b.bids), asks: clone_levels(&b.asks), spread: b.spread }
}

} // verus!
