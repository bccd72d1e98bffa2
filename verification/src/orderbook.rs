//! Order-book data model and the merge engine.
//!
//! Depth snapshots arrive per exchange as [`InTick`]s; the aggregator caches
//! the latest snapshot per exchange in [`Exchanges`] and consolidates both
//! books into an [`OutTick`] of at most [`crate::DEPTH`] levels per side.

use vstd::prelude::*;
use vstd::relations::{sorted_by, total_ordering};
use crate::num::{in_range, Num};
use crate::DEPTH;

verus! {

/// The exchanges whose depth feeds are aggregated.
#[derive(Clone, Copy, Debug, PartialEq, Eq, Structural)]
pub enum Exchange {
    Bitstamp,
    Binance,
}

/// Which side of the book a level belongs to.
#[derive(Clone, Copy, Debug, PartialEq, Eq, Structural)]
pub enum Side {
    Bid,
    Ask,
}

/// Tie-break key of an exchange: levels equal in price and amount are ordered
/// by this rank so that the level ordering is total and deterministic.
pub open spec fn exchange_rank(e: Exchange) -> int {
    match e {
        Exchange::Bitstamp => 0,
        Exchange::Binance => 1,
    }
}

/// Last-resort tie-break key of a side, keeping the level ordering
/// antisymmetric over all levels.
pub open spec fn side_rank(s: Side) -> int {
    match s {
        Side::Bid => 0,
        Side::Ask => 1,
    }
}

impl Exchange {
    /// Canonical lower-case name of the exchange.
    pub fn to_string(&self) -> (s: String)
        ensures
            *self is Bitstamp ==> s@ == "bitstamp"@,
            *self is Binance ==> s@ == "binance"@,
    {
        broadcast use vstd::string::to_string_from_display_ensures_for_str;

        match self {
            Exchange::Bitstamp => "bitstamp".to_string(),
            Exchange::Binance => "binance".to_string(),
        }
    }
}

/// One price point on one side of one exchange's book.
#[derive(Clone, Copy, Debug, PartialEq, Eq, Structural)]
pub struct Level {
    pub side: Side,
    pub price: Num,
    pub amount: Num,
    pub exchange: Exchange,
}

impl Level {
    /// A well-formed level has in-range price and amount, and the amount is
    /// not negative (an amount of zero signals deletion at the source).
    pub open spec fn wf(self) -> bool {
        &&& in_range(self.price@)
        &&& in_range(self.amount@)
        &&& self.amount@ >= 0
    }

    pub fn new(side: Side, price: Num, amount: Num, exchange: Exchange) -> (l: Level)
        ensures
            l == (Level { side, price, amount, exchange }),
    {
        Level { side, price, amount, exchange }
    }
}

/// Best-first order of `a` relative to `b` on the given side.
///
/// Price decides first: on the bid side higher prices are better, on the ask
/// side lower prices are. A price tie is broken by amount — a larger amount
/// ranks higher among bids and lower among asks — and a full tie on price and
/// amount falls back to exchange identity (and lastly the side tag), which
/// makes the order total: mutually ordered levels are equal.
pub open spec fn level_le(side: Side, a: Level, b: Level) -> bool {
    if a.price@ != b.price@ {
        match side {
            Side::Bid => a.price@ > b.price@,
            Side::Ask => a.price@ < b.price@,
        }
    } else if a.amount@ != b.amount@ {
        match side {
            Side::Bid => a.amount@ > b.amount@,
            Side::Ask => a.amount@ < b.amount@,
        }
    } else if exchange_rank(a.exchange) != exchange_rank(b.exchange) {
        exchange_rank(a.exchange) < exchange_rank(b.exchange)
    } else {
        side_rank(a.side) <= side_rank(b.side)
    }
}

/// The level ordering of one side, as a relation.
pub open spec fn level_order(side: Side) -> spec_fn(Level, Level) -> bool {
    |a: Level, b: Level| level_le(side, a, b)
}

/// The best-first level ordering is a total order: reflexive, antisymmetric,
/// transitive and strongly connected.
pub proof fn lemma_level_order_total(side: Side)
    ensures
        total_ordering(level_order(side)),
{
    let leq = level_order(side);
    assert forall|a: Level, b: Level| #[trigger] leq(a, b) && #[trigger] leq(b, a) implies a == b by {
        assert(a.price == b.price);
        assert(a.amount == b.amount);
        assert(a.exchange == b.exchange);
        assert(a.side == b.side);
    }
}

/// Executable decision of `level_le`.
pub fn precedes(side: Side, a: &Level, b: &Level) -> (r: bool)
    ensures
        r == level_le(side, *a, *b),
{
    if a.price.units != b.price.units {
        match side {
            Side::Bid => a.price.units > b.price.units,
            Side::Ask => a.price.units < b.price.units,
        }
    } else if a.amount.units != b.amount.units {
        match side {
            Side::Bid => a.amount.units > b.amount.units,
            Side::Ask => a.amount.units < b.amount.units,
        }
    } else {
        let ra: u8 = match a.exchange {
            Exchange::Bitstamp => 0,
            Exchange::Binance => 1,
        };
        let rb: u8 = match b.exchange {
            Exchange::Bitstamp => 0,
            Exchange::Binance => 1,
        };
        if ra != rb {
            ra < rb
        } else {
            let sa: u8 = match a.side {
                Side::Bid => 0,
                Side::Ask => 1,
            };
            let sb: u8 = match b.side {
                Side::Bid => 0,
                Side::Ask => 1,
            };
            sa <= sb
        }
    }
}

/// The levels of `s` that survive zero-amount deletion, in order.
pub open spec fn live_levels(s: Seq<Level>) -> Seq<Level>
    decreases s.len(),
{
    if s.len() == 0 {
        Seq::empty()
    } else if s.last().amount@ != 0 {
        live_levels(s.drop_last()).push(s.last())
    } else {
        live_levels(s.drop_last())
    }
}

/// Zero-amount filtering distributes over concatenation.
pub proof fn lemma_live_levels_add(a: Seq<Level>, b: Seq<Level>)
    ensures
        live_levels(a + b) == live_levels(a) + live_levels(b),
    decreases b.len(),
{
    if b.len() == 0 {
        assert(a + b =~= a);
        assert(live_levels(a) + live_levels(b) =~= live_levels(a));
    } else {
        assert((a + b).drop_last() =~= a + b.drop_last());
        assert((a + b).last() == b.last());
        lemma_live_levels_add(a, b.drop_last());
        if b.last().amount@ != 0 {
            assert(live_levels(a) + live_levels(b)
                =~= (live_levels(a) + live_levels(b.drop_last())).push(b.last()));
        }
    }
}

/// Every surviving level occurs in the input and has a non-zero amount.
pub proof fn lemma_live_levels_elems(s: Seq<Level>)
    ensures
        forall|x: Level| #[trigger] live_levels(s).contains(x) ==> s.contains(x) && x.amount@
            != 0,
    decreases s.len(),
{
    if s.len() > 0 {
        lemma_live_levels_elems(s.drop_last());
        assert forall|x: Level| #[trigger] live_levels(s).contains(x) implies s.contains(x)
            && x.amount@ != 0 by {
            let prev = live_levels(s.drop_last());
            if s.last().amount@ != 0 {
                let i = choose|i: int| 0 <= i < live_levels(s).len() && live_levels(s)[i] == x;
                if i < prev.len() {
                    assert(prev[i] == x);
                    assert(prev.contains(x));
                } else {
                    assert(x == s.last());
                    assert(s[s.len() - 1] == x);
                }
            } else {
                assert(prev.contains(x));
            }
            if prev.contains(x) {
                let k = choose|k: int| 0 <= k < s.drop_last().len() && s.drop_last()[k] == x;
                assert(s[k] == x);
            }
        }
    }
}

/// The consolidated view of one side: the live levels of both inputs, sorted
/// best-first, truncated to `depth`.
pub open spec fn merged_levels(side: Side, a: Seq<Level>, b: Seq<Level>, depth: int) -> Seq<Level> {
    let sorted = live_levels(a + b).sort_by(level_order(side));
    sorted.take(vstd::math::min(depth, sorted.len() as int))
}

/// Appends the live levels of `src` to `dst`.
fn push_live(dst: &mut Vec<Level>, src: &Vec<Level>)
    ensures
        final(dst)@ == old(dst)@ + live_levels(src@),
{
    let mut i: usize = 0;
    while i < src.len()
        invariant
            i <= src@.len(),
            dst@ == old(dst)@ + live_levels(src@.take(i as int)),
        decreases src@.len() - i,
    {
        proof {
            assert(src@.take(i + 1).drop_last() =~= src@.take(i as int));
            assert(src@.take(i + 1).last() == src@[i as int]);
        }
        if src[i].amount.units != 0 {
            dst.push(src[i]);
        }
        i = i + 1;
    }
    proof {
        assert(src@.take(src@.len() as int) =~= src@);
    }
}

/// Inserts `x` into a best-first sorted vector, keeping it sorted.
fn insert_level(v: &mut Vec<Level>, side: Side, x: Level)
    requires
        sorted_by(old(v)@, level_order(side)),
    ensures
        sorted_by(final(v)@, level_order(side)),
        final(v)@.to_multiset() == old(v)@.to_multiset().insert(x),
        final(v)@.len() == old(v)@.len() + 1,
{
    proof {
        lemma_level_order_total(side);
    }
    let ghost leq = level_order(side);
    let mut j: usize = 0;
    while j < v.len() && precedes(side, &v[j], &x)
        invariant
            j <= v@.len(),
            forall|k: int| 0 <= k < j ==> leq(#[trigger] v@[k], x),
            v == old(v),
            total_ordering(leq),
            leq == level_order(side),
        decreases v@.len() - j,
    {
        j = j + 1;
    }
    proof {
        if j < v@.len() {
            assert(!level_le(side, v@[j as int], x));
            assert(leq(x, v@[j as int]));
        }
    }
    let ghost before = v@;
    v.insert(j, x);
    proof {
        broadcast use vstd::seq_lib::group_to_multiset_ensures;

        let t = v@;
        assert(t == before.insert(j as int, x));
        assert(t.to_multiset() == before.to_multiset().insert(x));
        assert(t =~= before.take(j as int) + seq![x] + before.skip(j as int));
        assert forall|i1: int, i2: int| 0 <= i1 < i2 < t.len() implies #[trigger] leq(
            t[i1],
            t[i2],
        ) by {
            if i2 < j {
                assert(t[i1] == before[i1] && t[i2] == before[i2]);
            } else if i1 < j && i2 == j {
                assert(t[i1] == before[i1] && t[i2] == x);
            } else if i1 < j && i2 > j {
                assert(t[i1] == before[i1] && t[i2] == before[i2 - 1]);
                assert(leq(before[i1], x));
                assert(leq(x, before[j as int]));
                if j < i2 - 1 {
                    assert(leq(before[j as int], before[i2 - 1]));
                }
                assert(leq(x, before[i2 - 1]));
            } else if i1 == j {
                assert(t[i1] == x && t[i2] == before[i2 - 1]);
                assert(leq(x, before[j as int]));
                if j < i2 - 1 {
                    assert(leq(before[j as int], before[i2 - 1]));
                }
            } else {
                assert(t[i1] == before[i1 - 1] && t[i2] == before[i2 - 1]);
            }
        }
    }
}

/// Merges two per-exchange depth lists of one side into a single best-first
/// list of at most `depth` levels, dropping zero-amount deletions.
///
/// The result is exactly the live levels of both inputs, sorted by the level
/// ordering and truncated to the `depth` best.
pub fn merge(a: &Vec<Level>, b: &Vec<Level>, side: Side, depth: usize) -> (out: Vec<Level>)
    ensures
        out@ == merged_levels(side, a@, b@, depth as int),
        sorted_by(out@, level_order(side)),
        out@.len() <= depth,
        out@.len() == vstd::math::min(depth as int, live_levels(a@ + b@).len() as int),
        forall|i: int| 0 <= i < out@.len() ==> (a@ + b@).contains(#[trigger] out@[i])
            && out@[i].amount@ != 0,
{
    proof {
        lemma_level_order_total(side);
    }
    let ghost leq = level_order(side);
    let mut pool: Vec<Level> = Vec::new();
    push_live(&mut pool, a);
    push_live(&mut pool, b);
    proof {
        lemma_live_levels_add(a@, b@);
        assert(pool@ =~= live_levels(a@ + b@));
    }
    let ghost live = pool@;

    let mut out: Vec<Level> = Vec::new();
    proof {
        assert(out@ =~= live.take(0));
    }
    let mut i: usize = 0;
    while i < pool.len()
        invariant
            i <= live.len(),
            pool@ == live,
            sorted_by(out@, leq),
            out@.to_multiset() == live.take(i as int).to_multiset(),
            out@.len() == i,
            total_ordering(leq),
            leq == level_order(side),
        decreases live.len() - i,
    {
        proof {
            broadcast use vstd::seq_lib::group_to_multiset_ensures;

            assert(live.take(i + 1) =~= live.take(i as int).push(live[i as int]));
        }
        insert_level(&mut out, side, pool[i]);
        i = i + 1;
    }
    proof {
        assert(live.take(live.len() as int) =~= live);
        live.lemma_sort_by_ensures(leq);
        vstd::seq_lib::lemma_sorted_unique(out@, live.sort_by(leq), leq);
        assert(out@ == live.sort_by(leq));
    }
    let ghost sorted = live.sort_by(leq);
    if out.len() > depth {
        out.truncate(depth);
        proof {
            assert(out@ =~= sorted.take(depth as int));
        }
    } else {
        proof {
            assert(out@ =~= sorted.take(sorted.len() as int));
        }
    }
    proof {
        assert(out@ == merged_levels(side, a@, b@, depth as int));
        assert forall|i1: int, i2: int| 0 <= i1 < i2 < out@.len() implies #[trigger] leq(
            out@[i1],
            out@[i2],
        ) by {
            assert(out@[i1] == sorted[i1]);
            assert(out@[i2] == sorted[i2]);
        }
        lemma_live_levels_elems(a@ + b@);
        broadcast use vstd::seq_lib::group_to_multiset_ensures;

        assert forall|i1: int| 0 <= i1 < out@.len() implies (a@ + b@).contains(
            #[trigger] out@[i1],
        ) && out@[i1].amount@ != 0 by {
            let x = out@[i1];
            assert(out@[i1] == sorted[i1]);
            assert(sorted.contains(x)) by {
                assert(0 <= i1 < sorted.len() && sorted[i1] == x);
            }
            assert(sorted.to_multiset().contains(x));
            assert(live.to_multiset() == sorted.to_multiset());
            assert(live.contains(x));
            assert(live_levels(a@ + b@).contains(x));
        }
    }
    out
}

/// Error taxonomy of the pipeline.
///
/// `Decode` marks a malformed or unexpected payload from an exchange,
/// `Transport` a websocket read/write/close failure (a clean close included),
/// `Bind` a server that cannot bind its port, and `Config` bad arguments.
#[derive(Clone, Copy, Debug, PartialEq, Eq, Structural)]
pub enum Error {
    Decode,
    Transport,
    Bind,
    Config,
}

/// An error wrapped with the exchange it originated from.
#[derive(Clone, Copy, Debug, PartialEq, Eq, Structural)]
pub struct ExchangeErr {
    pub exchange: Exchange,
    pub error: Error,
}

/// An untagged price point as decoded from an exchange payload.
#[derive(Clone, Copy, Debug, PartialEq, Eq, Structural)]
pub struct RawLevel {
    pub price: Num,
    pub amount: Num,
}

impl RawLevel {
    /// A decodable raw level: price and amount are in range and the amount is
    /// not negative.
    pub open spec fn wf(self) -> bool {
        &&& in_range(self.price@)
        &&& in_range(self.amount@)
        &&& self.amount@ >= 0
    }
}

/// The level a raw price point becomes once tagged with its side and its
/// exchange of origin.
pub open spec fn tagged_level(side: Side, exchange: Exchange, r: RawLevel) -> Level {
    Level { side, price: r.price, amount: r.amount, exchange }
}

/// The first `depth` raw levels, tagged with side and exchange.
pub open spec fn tagged_levels(
    raw: Seq<RawLevel>,
    side: Side,
    exchange: Exchange,
    depth: int,
) -> Seq<Level> {
    raw.take(vstd::math::min(depth, raw.len() as int)).map_values(
        |r: RawLevel| tagged_level(side, exchange, r),
    )
}

/// Truncates a decoded depth list to `depth` levels and tags each level with
/// its side and its exchange of origin, preserving the best-first order of
/// the input.
pub fn to_levels(raw: &Vec<RawLevel>, side: Side, exchange: Exchange, depth: usize) -> (out: Vec<
    Level,
>)
    ensures
        out@ == tagged_levels(raw@, side, exchange, depth as int),
        out@.len() <= depth,
{
    let n: usize = if raw.len() < depth {
        raw.len()
    } else {
        depth
    };
    let ghost f = |r: RawLevel| tagged_level(side, exchange, r);
    let mut out: Vec<Level> = Vec::new();
    proof {
        assert(out@ =~= raw@.take(0).map_values(f));
    }
    let mut i: usize = 0;
    while i < n
        invariant
            i <= n,
            n == vstd::math::min(depth as int, raw@.len() as int),
            out@ == raw@.take(i as int).map_values(f),
            f == (|r: RawLevel| tagged_level(side, exchange, r)),
        decreases n - i,
    {
        out.push(Level { side, price: raw[i].price, amount: raw[i].amount, exchange });
        proof {
            assert(raw@.take(i + 1).map_values(f) =~= raw@.take(i as int).map_values(f).push(
                f(raw@[i as int]),
            ));
        }
        i = i + 1;
    }
    out
}

/// A depth list is well-formed for a side and an exchange when it is no
/// longer than `DEPTH` and every level is well-formed and carries that side
/// and that exchange tag.
pub open spec fn side_levels_wf(s: Seq<Level>, side: Side, exchange: Exchange) -> bool {
    &&& s.len() <= DEPTH
    &&& forall|i: int|
        0 <= i < s.len() ==> (#[trigger] s[i]).wf() && s[i].side == side && s[i].exchange
            == exchange
}

/// A depth snapshot from one exchange: bids and asks already truncated to
/// `DEPTH`, best-first, every level tagged with the exchange.
#[derive(Debug, PartialEq)]
pub struct InTick {
    pub exchange: Exchange,
    pub bids: Vec<Level>,
    pub asks: Vec<Level>,
}

/// Mathematical view of an [`InTick`].
#[verifier::ext_equal]
pub ghost struct InTickV {
    pub exchange: Exchange,
    pub bids: Seq<Level>,
    pub asks: Seq<Level>,
}

impl View for InTick {
    type V = InTickV;

    open spec fn view(&self) -> InTickV {
        InTickV { exchange: self.exchange, bids: self.bids@, asks: self.asks@ }
    }
}

impl InTick {
    pub open spec fn wf(self) -> bool {
        &&& side_levels_wf(self.bids@, Side::Bid, self.exchange)
        &&& side_levels_wf(self.asks@, Side::Ask, self.exchange)
    }
}

/// Raw-level lists are decodable when every entry is well-formed.
pub open spec fn raws_wf(s: Seq<RawLevel>) -> bool {
    forall|i: int| 0 <= i < s.len() ==> (#[trigger] s[i]).wf()
}

/// Checks that every raw level of `raw` is decodable.
fn check_raws(raw: &Vec<RawLevel>) -> (ok: bool)
    ensures
        ok == raws_wf(raw@),
{
    let mut i: usize = 0;
    while i < raw.len()
        invariant
            i <= raw@.len(),
            forall|k: int| 0 <= k < i ==> (#[trigger] raw@[k]).wf(),
        decreases raw@.len() - i,
    {
        let r = raw[i];
        if !(-crate::num::UNITS_MAX <= r.price.units && r.price.units <= crate::num::UNITS_MAX
            && 0 <= r.amount.units && r.amount.units <= crate::num::UNITS_MAX) {
            return false;
        }
        i = i + 1;
    }
    true
}

/// Builds the depth snapshot of one exchange from its decoded raw bid and ask
/// lists: each side is truncated to `DEPTH` best-first levels and tagged with
/// the exchange. Rejects, as a decode error, any payload with an
/// out-of-range price or amount or a negative amount.
pub fn decode_depths(exchange: Exchange, bids: &Vec<RawLevel>, asks: &Vec<RawLevel>) -> (r: Result<
    InTick,
    Error,
>)
    ensures
        r is Ok <==> raws_wf(bids@) && raws_wf(asks@),
        r is Ok ==> ({
            let t = r->Ok_0;
            &&& t.exchange == exchange
            &&& t.bids@ == tagged_levels(bids@, Side::Bid, exchange, DEPTH as int)
            &&& t.asks@ == tagged_levels(asks@, Side::Ask, exchange, DEPTH as int)
            &&& t.wf()
        }),
        r is Err ==> r->Err_0 == Error::Decode,
{
    if !check_raws(bids) || !check_raws(asks) {
        return Err(Error::Decode);
    }
    let tick_bids = to_levels(bids, Side::Bid, exchange, DEPTH);
    let tick_asks = to_levels(asks, Side::Ask, exchange, DEPTH);
    proof {
        lemma_tagged_levels_wf(bids@, Side::Bid, exchange, DEPTH as int);
        lemma_tagged_levels_wf(asks@, Side::Ask, exchange, DEPTH as int);
    }
    Ok(InTick { exchange, bids: tick_bids, asks: tick_asks })
}

/// Tagging decodable raw levels yields a well-formed depth list.
proof fn lemma_tagged_levels_wf(raw: Seq<RawLevel>, side: Side, exchange: Exchange, depth: int)
    requires
        raws_wf(raw),
        0 <= depth <= DEPTH,
    ensures
        side_levels_wf(tagged_levels(raw, side, exchange, depth), side, exchange),
{
    let t = tagged_levels(raw, side, exchange, depth);
    let n = vstd::math::min(depth, raw.len() as int);
    assert forall|i: int| 0 <= i < t.len() implies (#[trigger] t[i]).wf() && t[i].side == side
        && t[i].exchange == exchange by {
        assert(t[i] == tagged_level(side, exchange, raw.take(n)[i]));
        assert(raw.take(n)[i] == raw[i]);
        assert(raw[i].wf());
    }
}

/// The consolidated snapshot across all exchanges: at most `DEPTH` bids and
/// asks, each side sorted best-first, and the spread between the best ask and
/// the best bid (zero when either side is empty).
#[derive(Clone, Debug, PartialEq)]
pub struct OutTick {
    pub spread: Num,
    pub bids: Vec<Level>,
    pub asks: Vec<Level>,
}

/// Mathematical view of an [`OutTick`].
#[verifier::ext_equal]
pub ghost struct OutTickV {
    pub spread: int,
    pub bids: Seq<Level>,
    pub asks: Seq<Level>,
}

impl View for OutTick {
    type V = OutTickV;

    open spec fn view(&self) -> OutTickV {
        OutTickV { spread: self.spread@, bids: self.bids@, asks: self.asks@ }
    }
}

/// The consolidated tick before anything was published: zero spread, both
/// sides empty.
pub open spec fn empty_tick() -> OutTickV {
    OutTickV { spread: 0, bids: Seq::empty(), asks: Seq::empty() }
}

impl OutTickV {
    /// Structural well-formedness of a consolidated snapshot: both sides are
    /// bounded by `DEPTH`, sorted best-first, and hold well-formed levels
    /// tagged with the matching side.
    pub open spec fn wf(self) -> bool {
        &&& self.bids.len() <= DEPTH
        &&& self.asks.len() <= DEPTH
        &&& sorted_by(self.bids, level_order(Side::Bid))
        &&& sorted_by(self.asks, level_order(Side::Ask))
        &&& forall|i: int|
            0 <= i < self.bids.len() ==> (#[trigger] self.bids[i]).wf() && self.bids[i].side
                == Side::Bid
        &&& forall|i: int|
            0 <= i < self.asks.len() ==> (#[trigger] self.asks[i]).wf() && self.asks[i].side
                == Side::Ask
    }
}

impl OutTick {
    pub open spec fn wf(self) -> bool {
        self@.wf()
    }

    /// The empty consolidated tick.
    pub fn new() -> (t: OutTick)
        ensures
            t@ == empty_tick(),
            t.wf(),
    {
        let t = OutTick { spread: Num::zero(), bids: Vec::new(), asks: Vec::new() };
        proof {
            assert(t@ =~= empty_tick());
        }
        t
    }

    /// A copy whose view is identical.
    pub fn duplicate(&self) -> (t: OutTick)
        ensures
            t@ == self@,
    {
        let t = OutTick {
            spread: self.spread,
            bids: copy_levels(&self.bids),
            asks: copy_levels(&self.asks),
        };
        proof {
            assert(t@ =~= self@);
        }
        t
    }

    /// Whether two consolidated ticks hold the same values.
    pub fn same_as(&self, other: &OutTick) -> (r: bool)
        ensures
            r == (self@ == other@),
    {
        if self.spread.units != other.spread.units {
            return false;
        }
        if !levels_eq(&self.bids, &other.bids) {
            return false;
        }
        if !levels_eq(&self.asks, &other.asks) {
            return false;
        }
        proof {
            assert(self@ =~= other@);
        }
        true
    }
}

/// Element-wise copy of a level list.
fn copy_levels(v: &Vec<Level>) -> (r: Vec<Level>)
    ensures
        r@ == v@,
{
    let mut r: Vec<Level> = Vec::new();
    let mut i: usize = 0;
    while i < v.len()
        invariant
            i <= v@.len(),
            r@ == v@.take(i as int),
        decreases v@.len() - i,
    {
        r.push(v[i]);
        proof {
            assert(v@.take(i + 1) =~= v@.take(i as int).push(v@[i as int]));
        }
        i = i + 1;
    }
    proof {
        assert(v@.take(v@.len() as int) =~= v@);
    }
    r
}

/// Element-wise equality of two level lists.
fn levels_eq(a: &Vec<Level>, b: &Vec<Level>) -> (r: bool)
    ensures
        r == (a@ == b@),
{
    if a.len() != b.len() {
        return false;
    }
    let mut i: usize = 0;
    while i < a.len()
        invariant
            i <= a@.len(),
            a@.len() == b@.len(),
            forall|k: int| 0 <= k < i ==> a@[k] == b@[k],
        decreases a@.len() - i,
    {
        if a[i] != b[i] {
            return false;
        }
        i = i + 1;
    }
    proof {
        assert(a@ =~= b@);
    }
    true
}

/// The latest cached depth snapshot of one exchange.
#[derive(Debug, PartialEq)]
pub struct OrderDepths {
    pub bids: Vec<Level>,
    pub asks: Vec<Level>,
}

/// Mathematical view of [`OrderDepths`].
#[verifier::ext_equal]
pub ghost struct OrderDepthsV {
    pub bids: Seq<Level>,
    pub asks: Seq<Level>,
}

impl View for OrderDepths {
    type V = OrderDepthsV;

    open spec fn view(&self) -> OrderDepthsV {
        OrderDepthsV { bids: self.bids@, asks: self.asks@ }
    }
}

impl OrderDepthsV {
    pub open spec fn wf(self, exchange: Exchange) -> bool {
        &&& side_levels_wf(self.bids, Side::Bid, exchange)
        &&& side_levels_wf(self.asks, Side::Ask, exchange)
    }
}

impl OrderDepths {
    pub fn new() -> (d: OrderDepths)
        ensures
            d@.bids == Seq::<Level>::empty(),
            d@.asks == Seq::<Level>::empty(),
    {
        let d = OrderDepths { bids: Vec::new(), asks: Vec::new() };
        proof {
            assert(d@.bids =~= Seq::<Level>::empty());
            assert(d@.asks =~= Seq::<Level>::empty());
        }
        d
    }
}

/// The aggregator's cache: the most recent depth snapshot of each exchange,
/// and nothing else.
#[derive(Debug, PartialEq)]
pub struct Exchanges {
    pub bitstamp: OrderDepths,
    pub binance: OrderDepths,
}

/// Mathematical view of [`Exchanges`].
#[verifier::ext_equal]
pub ghost struct ExchangesV {
    pub bitstamp: OrderDepthsV,
    pub binance: OrderDepthsV,
}

impl View for Exchanges {
    type V = ExchangesV;

    open spec fn view(&self) -> ExchangesV {
        ExchangesV { bitstamp: self.bitstamp@, binance: self.binance@ }
    }
}

impl ExchangesV {
    pub open spec fn wf(self) -> bool {
        &&& self.bitstamp.wf(Exchange::Bitstamp)
        &&& self.binance.wf(Exchange::Binance)
    }
}

/// The cache after a snapshot `t` replaced its exchange's entry wholesale.
pub open spec fn updated(e: ExchangesV, t: InTickV) -> ExchangesV {
    match t.exchange {
        Exchange::Bitstamp => ExchangesV {
            bitstamp: OrderDepthsV { bids: t.bids, asks: t.asks },
            binance: e.binance,
        },
        Exchange::Binance => ExchangesV {
            bitstamp: e.bitstamp,
            binance: OrderDepthsV { bids: t.bids, asks: t.asks },
        },
    }
}

/// The spread between the best ask and the best bid, zero when either side is
/// empty.
pub open spec fn spread_of(bids: Seq<Level>, asks: Seq<Level>) -> int {
    if bids.len() > 0 && asks.len() > 0 {
        asks[0].price@ - bids[0].price@
    } else {
        0
    }
}

/// The consolidated tick that merging a cache yields.
pub open spec fn merged_tick(e: ExchangesV) -> OutTickV {
    let bids = merged_levels(Side::Bid, e.bitstamp.bids, e.binance.bids, DEPTH as int);
    let asks = merged_levels(Side::Ask, e.bitstamp.asks, e.binance.asks, DEPTH as int);
    OutTickV { spread: spread_of(bids, asks), bids, asks }
}

impl Exchanges {
    pub open spec fn wf(self) -> bool {
        self@.wf()
    }

    /// An empty cache: no exchange has reported yet.
    pub fn new() -> (e: Exchanges)
        ensures
            e@.bitstamp.bids == Seq::<Level>::empty(),
            e@.bitstamp.asks == Seq::<Level>::empty(),
            e@.binance.bids == Seq::<Level>::empty(),
            e@.binance.asks == Seq::<Level>::empty(),
            e.wf(),
    {
        Exchanges { bitstamp: OrderDepths::new(), binance: OrderDepths::new() }
    }

    /// Replaces the cached depth of the snapshot's exchange wholesale; the
    /// other exchange's entry is untouched.
    pub fn update(&mut self, t: InTick)
        ensures
            final(self)@ == updated(old(self)@, t@),
            old(self).wf() && t.wf() ==> final(self).wf(),
    {
        let InTick { exchange, bids, asks } = t;
        match exchange {
            Exchange::Bitstamp => {
                self.bitstamp.bids = bids;
                self.bitstamp.asks = asks;
            },
            Exchange::Binance => {
                self.binance.bids = bids;
                self.binance.asks = asks;
            },
        }
        proof {
            assert(self@ =~= updated(old(self)@, t@));
        }
    }

    /// Merges both cached books into the consolidated snapshot.
    ///
    /// Both output sides hold the `DEPTH` best live levels across the two
    /// exchanges, sorted best-first; the spread is `asks[0].price -
    /// bids[0].price` when both sides are non-empty and zero otherwise.
    pub fn to_tick(&self) -> (t: OutTick)
        requires
            self.wf(),
        ensures
            t@ == merged_tick(self@),
            t.wf(),
            t.bids@.len() <= DEPTH && t.asks@.len() <= DEPTH,
            sorted_by(t.bids@, level_order(Side::Bid)),
            sorted_by(t.asks@, level_order(Side::Ask)),
            t.bids@.len() > 0 && t.asks@.len() > 0 ==> t.spread@ == t.asks@[0].price@
                - t.bids@[0].price@,
            !(t.bids@.len() > 0 && t.asks@.len() > 0) ==> t.spread@ == 0,
    {
        let bids = merge(&self.bitstamp.bids, &self.binance.bids, Side::Bid, DEPTH);
        let asks = merge(&self.bitstamp.asks, &self.binance.asks, Side::Ask, DEPTH);
        proof {
            lemma_side_levels_elem_wf(
                self.bitstamp.bids@,
                self.binance.bids@,
                Side::Bid,
                bids@,
                Exchange::Bitstamp,
                Exchange::Binance,
            );
            lemma_side_levels_elem_wf(
                self.bitstamp.asks@,
                self.binance.asks@,
                Side::Ask,
                asks@,
                Exchange::Bitstamp,
                Exchange::Binance,
            );
        }
        let spread = if bids.len() > 0 && asks.len() > 0 {
            asks[0].price.sub(bids[0].price)
        } else {
            Num::zero()
        };
        let t = OutTick { spread, bids, asks };
        proof {
            assert(t@ =~= merged_tick(self@));
        }
        t
    }
}

/// Levels drawn from two well-formed per-exchange depth lists are well-formed
/// and carry the side of the lists they came from.
proof fn lemma_side_levels_elem_wf(
    a: Seq<Level>,
    b: Seq<Level>,
    side: Side,
    out: Seq<Level>,
    ea: Exchange,
    eb: Exchange,
)
    requires
        side_levels_wf(a, side, ea),
        side_levels_wf(b, side, eb),
        forall|i: int| 0 <= i < out.len() ==> (a + b).contains(#[trigger] out[i]),
    ensures
        forall|i: int| 0 <= i < out.len() ==> (#[trigger] out[i]).wf() && out[i].side == side,
{
    assert forall|i: int| 0 <= i < out.len() implies (#[trigger] out[i]).wf() && out[i].side
        == side by {
        let x = out[i];
        let k = choose|k: int| 0 <= k < (a + b).len() && (a + b)[k] == x;
        if k < a.len() {
            assert(a[k] == x);
        } else {
            assert(b[k - a.len()] == x);
        }
    }
}

/// Every level of a merged side occurs among the live input levels.
pub proof fn lemma_merged_levels_elems(side: Side, a: Seq<Level>, b: Seq<Level>, depth: int)
    requires
        0 <= depth,
    ensures
        forall|x: Level| #[trigger] merged_levels(side, a, b, depth).contains(x) ==> (a
            + b).contains(x) && x.amount@ != 0,
{
    let leq = level_order(side);
    lemma_level_order_total(side);
    let live = live_levels(a + b);
    live.lemma_sort_by_ensures(leq);
    lemma_live_levels_elems(a + b);
    let sorted = live.sort_by(leq);
    let kept = merged_levels(side, a, b, depth);
    broadcast use vstd::seq_lib::group_to_multiset_ensures;

    assert forall|x: Level| #[trigger] kept.contains(x) implies (a + b).contains(x) && x.amount@
        != 0 by {
        let i = choose|i: int| 0 <= i < kept.len() && kept[i] == x;
        assert(kept[i] == sorted[i]);
        assert(sorted.contains(x)) by {
            assert(0 <= i < sorted.len() && sorted[i] == x);
        }
        assert(sorted.to_multiset().contains(x));
        assert(live.to_multiset() == sorted.to_multiset());
        assert(live.contains(x));
        assert(live_levels(a + b).contains(x));
    }
}

/// Depth bound: however many ticks were fed in, the consolidated snapshot
/// holds at most `DEPTH` bids and `DEPTH` asks.
pub proof fn lemma_depth_bound(e: ExchangesV)
    ensures
        merged_tick(e).bids.len() <= DEPTH,
        merged_tick(e).asks.len() <= DEPTH,
{
}

/// Ordering: both sides of the consolidated snapshot are sorted best-first by
/// the level ordering — bids non-increasing and asks non-decreasing in price,
/// ties broken by amount as the side demands.
pub proof fn lemma_merged_sorted(e: ExchangesV)
    ensures
        sorted_by(merged_tick(e).bids, level_order(Side::Bid)),
        sorted_by(merged_tick(e).asks, level_order(Side::Ask)),
{
    lemma_merged_levels_sorted(Side::Bid, e.bitstamp.bids, e.binance.bids, DEPTH as int);
    lemma_merged_levels_sorted(Side::Ask, e.bitstamp.asks, e.binance.asks, DEPTH as int);
}

/// A merged side is sorted by the level ordering of that side.
pub proof fn lemma_merged_levels_sorted(side: Side, a: Seq<Level>, b: Seq<Level>, depth: int)
    requires
        0 <= depth,
    ensures
        sorted_by(merged_levels(side, a, b, depth), level_order(side)),
{
    let leq = level_order(side);
    lemma_level_order_total(side);
    let live = live_levels(a + b);
    live.lemma_sort_by_ensures(leq);
    let sorted = live.sort_by(leq);
    let kept = merged_levels(side, a, b, depth);
    assert forall|i: int, j: int| 0 <= i < j < kept.len() implies #[trigger] leq(
        kept[i],
        kept[j],
    ) by {
        assert(kept[i] == sorted[i]);
        assert(kept[j] == sorted[j]);
    }
}

/// Spread consistency: when both sides are non-empty the spread is the best
/// ask price minus the best bid price (negative for a crossed book), and zero
/// otherwise.
pub proof fn lemma_spread_consistent(e: ExchangesV)
    ensures
        ({
            let t = merged_tick(e);
            &&& t.bids.len() > 0 && t.asks.len() > 0 ==> t.spread == t.asks[0].price@
                - t.bids[0].price@
            &&& !(t.bids.len() > 0 && t.asks.len() > 0) ==> t.spread == 0
        }),
{
}

/// Idempotence: feeding the same input tick twice leaves the cache — and
/// therefore the consolidated snapshot — exactly as feeding it once does.
pub proof fn lemma_update_idempotent(e: ExchangesV, t: InTickV)
    ensures
        updated(updated(e, t), t) == updated(e, t),
        merged_tick(updated(updated(e, t), t)) == merged_tick(updated(e, t)),
{
    assert(updated(updated(e, t), t) =~= updated(e, t));
}

/// Isolation: a tick from one exchange leaves the other exchange's cached
/// contribution to the merge unchanged.
pub proof fn lemma_update_isolated(e: ExchangesV, t: InTickV)
    ensures
        t.exchange == Exchange::Binance ==> updated(e, t).bitstamp == e.bitstamp,
        t.exchange == Exchange::Bitstamp ==> updated(e, t).binance == e.binance,
{
}

/// Origin preservation: every level of the consolidated snapshot carries the
/// tag of the exchange whose cached book supplied it.
pub proof fn lemma_origin_preserved(e: ExchangesV)
    requires
        e.wf(),
    ensures
        forall|x: Level| #[trigger] merged_tick(e).bids.contains(x) ==> (x.exchange
            == Exchange::Bitstamp && e.bitstamp.bids.contains(x)) || (x.exchange
            == Exchange::Binance && e.binance.bids.contains(x)),
        forall|x: Level| #[trigger] merged_tick(e).asks.contains(x) ==> (x.exchange
            == Exchange::Bitstamp && e.bitstamp.asks.contains(x)) || (x.exchange
            == Exchange::Binance && e.binance.asks.contains(x)),
{
    lemma_merged_levels_elems(Side::Bid, e.bitstamp.bids, e.binance.bids, DEPTH as int);
    lemma_merged_levels_elems(Side::Ask, e.bitstamp.asks, e.binance.asks, DEPTH as int);
    lemma_origin_side(e.bitstamp.bids, e.binance.bids, merged_tick(e).bids);
    lemma_origin_side(e.bitstamp.asks, e.binance.asks, merged_tick(e).asks);
}

/// Splits membership in a concatenation of a Bitstamp-tagged and a
/// Binance-tagged list into membership in the matching list.
proof fn lemma_origin_side(a: Seq<Level>, b: Seq<Level>, out: Seq<Level>)
    requires
        forall|i: int| 0 <= i < a.len() ==> (#[trigger] a[i]).exchange == Exchange::Bitstamp,
        forall|i: int| 0 <= i < b.len() ==> (#[trigger] b[i]).exchange == Exchange::Binance,
        forall|x: Level| #[trigger] out.contains(x) ==> (a + b).contains(x),
    ensures
        forall|x: Level| #[trigger] out.contains(x) ==> (x.exchange == Exchange::Bitstamp
            && a.contains(x)) || (x.exchange == Exchange::Binance && b.contains(x)),
{
    assert forall|x: Level| #[trigger] out.contains(x) implies (x.exchange == Exchange::Bitstamp
        && a.contains(x)) || (x.exchange == Exchange::Binance && b.contains(x)) by {
        let k = choose|k: int| 0 <= k < (a + b).len() && (a + b)[k] == x;
        if k < a.len() {
            assert(a[k] == x);
        } else {
            assert(b[k - a.len()] == x);
        }
    }
}

/// Depth truncation keeps the best levels: the consolidated side is the
/// sorted prefix of the live input levels, and every retained level ranks no
/// worse than every level left out.
pub proof fn lemma_truncation_keeps_best(side: Side, a: Seq<Level>, b: Seq<Level>, depth: int)
    requires
        0 <= depth,
    ensures
        ({
            let live = live_levels(a + b);
            let sorted = live.sort_by(level_order(side));
            let kept = merged_levels(side, a, b, depth);
            &&& sorted.to_multiset() == live.to_multiset()
            &&& kept == sorted.take(vstd::math::min(depth, sorted.len() as int))
            &&& forall|i: int, j: int|
                0 <= i < kept.len() && kept.len() <= j < sorted.len() ==> level_le(
                    side,
                    #[trigger] kept[i],
                    #[trigger] sorted[j],
                )
        }),
{
    let leq = level_order(side);
    lemma_level_order_total(side);
    let live = live_levels(a + b);
    live.lemma_sort_by_ensures(leq);
    let sorted = live.sort_by(leq);
    let kept = merged_levels(side, a, b, depth);
    assert forall|i: int, j: int|
        0 <= i < kept.len() && kept.len() <= j < sorted.len() implies level_le(
        side,
        #[trigger] kept[i],
        #[trigger] sorted[j],
    ) by {
        assert(kept[i] == sorted[i]);
        assert(leq(sorted[i], sorted[j]));
    }
}

} // verus!
