//! A price-ordered level-2 book and its support and resistance levels.

use vstd::prelude::*;
use crate::model::Side;

verus! {

/// A change to one price level: the new quantity resting there.
#[derive(Debug, Clone, Copy, PartialEq, Eq, Structural)]
pub struct L2Data {
    pub side: Side,
    pub price_level: i64,
    pub new_quantity: u64,
}

/// Levels in strictly increasing price order, each with a positive quantity.
pub open spec fn sorted_levels(s: Seq<L2Data>) -> bool {
    &&& forall|i: int, j: int| 0 <= i < j < s.len() ==> s[i].price_level < s[j].price_level
    &&& forall|i: int| 0 <= i < s.len() ==> #[trigger] s[i].new_quantity > 0
}

/// How many leading levels lie below price `p`.
pub open spec fn count_below(s: Seq<L2Data>, p: i64) -> nat
    decreases s.len(),
{
    if s.len() == 0 || s[0].price_level >= p {
        0
    } else {
        1 + count_below(s.drop_first(), p)
    }
}

/// The levels after an update: those below its price, then the update
/// itself when its quantity is positive, then those above its price; a
/// level at the update's price is replaced or, at quantity zero, removed.
pub open spec fn levels_after(s: Seq<L2Data>, u: L2Data) -> Seq<L2Data> {
    let k = count_below(s, u.price_level) as int;
    let rest = if k < s.len() && s[k].price_level == u.price_level {
        s.subrange(k + 1, s.len() as int)
    } else {
        s.subrange(k, s.len() as int)
    };
    let mid = if u.new_quantity > 0 {
        seq![u]
    } else {
        Seq::empty()
    };
    s.subrange(0, k) + mid + rest
}

/// The price of the first level, in book order, at which the cumulative
/// quantity (starting from `acc`) reaches `threshold`; 0 if none does.
pub open spec fn strong_level_from(s: Seq<L2Data>, threshold: int, acc: int) -> i64
    decreases s.len(),
{
    if s.len() == 0 {
        0
    } else if acc + s[0].new_quantity >= threshold {
        s[0].price_level
    } else {
        strong_level_from(s.drop_first(), threshold, acc + s[0].new_quantity)
    }
}

/// The levels below `p` are the leading `count_below` ones.
proof fn lemma_count_below(s: Seq<L2Data>, p: i64)
    requires
        sorted_levels(s),
    ensures
        count_below(s, p) <= s.len(),
        forall|i: int| 0 <= i < count_below(s, p) ==> #[trigger] s[i].price_level < p,
        forall|i: int| count_below(s, p) <= i < s.len() ==> #[trigger] s[i].price_level >= p,
    decreases s.len(),
{
    if s.len() > 0 && s[0].price_level < p {
        let t = s.drop_first();
        assert(sorted_levels(t)) by {
            assert forall|i: int, j: int| 0 <= i < j < t.len() implies t[i].price_level
                < t[j].price_level by {
                assert(t[i] == s[i + 1] && t[j] == s[j + 1]);
            }
            assert forall|i: int| 0 <= i < t.len() implies #[trigger] t[i].new_quantity > 0 by {
                assert(t[i] == s[i + 1]);
            }
        }
        lemma_count_below(t, p);
        assert forall|i: int| 0 <= i < count_below(s, p) implies #[trigger] s[i].price_level
            < p by {
            if i > 0 {
                assert(s[i] == t[i - 1]);
            }
        }
        assert forall|i: int| count_below(s, p) <= i < s.len() implies #[trigger] s[i].price_level
            >= p by {
            assert(s[i] == t[i - 1]);
        }
    } else if s.len() > 0 {
        assert forall|i: int| 0 <= i < s.len() implies #[trigger] s[i].price_level >= p by {
            if i > 0 {
                assert(s[0].price_level < s[i].price_level);
            }
        }
    }
}

/// An update keeps the levels sorted.
proof fn lemma_levels_after_sorted(s: Seq<L2Data>, u: L2Data)
    requires
        sorted_levels(s),
    ensures
        sorted_levels(levels_after(s, u)),
{
    lemma_count_below(s, u.price_level);
    let r = levels_after(s, u);
    let k = count_below(s, u.price_level) as int;
    let skip = k < s.len() && s[k].price_level == u.price_level;
    let m: int = if u.new_quantity > 0 { 1 } else { 0 };
    let start: int = if skip { k + 1 } else { k };
    assert(r.len() == k + m + (s.len() - start));
    assert forall|i: int| 0 <= i < r.len() implies (i < k ==> r[i] == s[i]) && (k <= i < k + m
        ==> r[i] == u) && (k + m <= i ==> r[i] == s[i - k - m + start]) by {}
    assert forall|i: int, j: int| 0 <= i < j < r.len() implies r[i].price_level
        < r[j].price_level by {
        if j >= k + m && skip {
            assert(s[k].price_level == u.price_level);
            assert(s[k].price_level < s[j - k - m + start].price_level);
        }
        if i >= k + m && j >= k + m {
            assert(s[i - k - m + start].price_level < s[j - k - m + start].price_level);
        }
        if i < k && j < k {
            assert(s[i].price_level < s[j].price_level);
        }
        if i < k && j >= k + m {
            assert(s[i].price_level < s[j - k - m + start].price_level);
        }
    }
    assert forall|i: int| 0 <= i < r.len() implies #[trigger] r[i].new_quantity > 0 by {
        if i < k {
            assert(r[i] == s[i]);
        } else if i >= k + m {
            assert(r[i] == s[i - k - m + start]);
        }
    }
}

/// Bids and asks, each in increasing price order.
pub struct OrderBook {
    pub bids: Vec<L2Data>,
    pub asks: Vec<L2Data>,
}

impl OrderBook {
    /// Both sides are sorted with positive quantities.
    pub open spec fn wf(&self) -> bool {
        sorted_levels(self.bids@) && sorted_levels(self.asks@)
    }

    /// An empty book.
    pub fn new() -> (r: OrderBook)
        ensures
            r.wf(),
            r.bids@ == Seq::<L2Data>::empty(),
            r.asks@ == Seq::<L2Data>::empty(),
    {
        OrderBook { bids: Vec::new(), asks: Vec::new() }
    }

    /// Applies a level update to its side of the book.
    pub fn process_side_update(&mut self, update: L2Data)
        requires
            old(self).wf(),
        ensures
            final(self).wf(),
            match update.side {
                Side::Bid => final(self).bids@ == levels_after(old(self).bids@, update)
                    && final(self).asks@ == old(self).asks@,
                Side::Offer => final(self).asks@ == levels_after(old(self).asks@, update)
                    && final(self).bids@ == old(self).bids@,
            },
    {
        match update.side {
            Side::Bid => {
                let next = apply_update(&self.bids, update);
                self.bids = next;
            },
            Side::Offer => {
                let next = apply_update(&self.asks, update);
                self.asks = next;
            },
        }
    }

    /// The strongest support (among bids) and resistance (among asks): on
    /// each side, the first level at which the cumulative quantity reaches
    /// `threshold`, or 0.
    pub fn identify_support_and_resistance(&self, threshold: u64) -> (r: (i64, i64))
        ensures
            r == (
                strong_level_from(self.bids@, threshold as int, 0),
                strong_level_from(self.asks@, threshold as int, 0),
            ),
    {
        (get_strong_level(&self.bids, threshold), get_strong_level(&self.asks, threshold))
    }
}

/// The levels of one side after an update.
fn apply_update(levels: &Vec<L2Data>, u: L2Data) -> (r: Vec<L2Data>)
    requires
        sorted_levels(levels@),
    ensures
        r@ == levels_after(levels@, u),
        sorted_levels(r@),
{
    let ghost s = levels@;
    proof {
        lemma_count_below(s, u.price_level);
        lemma_levels_after_sorted(s, u);
    }
    let ghost k = count_below(s, u.price_level) as int;
    let mut out: Vec<L2Data> = Vec::new();
    let mut i: usize = 0;
    while i < levels.len() && levels[i].price_level < u.price_level
        invariant
            s == levels@,
            0 <= i <= k,
            k <= s.len(),
            forall|j: int| 0 <= j < k ==> #[trigger] s[j].price_level < u.price_level,
            forall|j: int| k <= j < s.len() ==> #[trigger] s[j].price_level >= u.price_level,
            out@ == s.subrange(0, i as int),
        decreases levels.len() - i,
    {
        assert(s.subrange(0, i as int + 1) =~= s.subrange(0, i as int).push(s[i as int]));
        out.push(levels[i]);
        i = i + 1;
    }
    assert(i == k);
    if u.new_quantity > 0 {
        out.push(u);
    }
    if i < levels.len() && levels[i].price_level == u.price_level {
        i = i + 1;
    }
    let ghost start = i as int;
    let ghost head = out@;
    assert(head + s.subrange(start, start) =~= head);
    while i < levels.len()
        invariant
            s == levels@,
            0 <= start <= i <= s.len(),
            out@ == head + s.subrange(start, i as int),
        decreases levels.len() - i,
    {
        assert(head + s.subrange(start, i as int + 1) =~= (head + s.subrange(start, i as int)).push(
            s[i as int],
        ));
        out.push(levels[i]);
        i = i + 1;
    }
    assert(out@ =~= levels_after(s, u));
    out
}

/// The price at which the cumulative quantity of `side_data`, in order,
/// first reaches `threshold`; 0 if it never does.
pub fn get_strong_level(side_data: &Vec<L2Data>, threshold: u64) -> (r: i64)
    ensures
        r == strong_level_from(side_data@, threshold as int, 0),
{
    let mut cumulative: u128 = 0;
    let mut i: usize = 0;
    assert(side_data@.subrange(0, side_data@.len() as int) =~= side_data@);
    while i < side_data.len()
        invariant
            0 <= i <= side_data@.len(),
            i > 0 ==> cumulative < threshold,
            i == 0 ==> cumulative == 0,
            strong_level_from(side_data@, threshold as int, 0) == strong_level_from(
                side_data@.subrange(i as int, side_data@.len() as int),
                threshold as int,
                cumulative as int,
            ),
        decreases side_data.len() - i,
    {
        proof {
            let t = side_data@.subrange(i as int, side_data@.len() as int);
            assert(t.drop_first() =~= side_data@.subrange(i as int + 1, side_data@.len() as int));
            assert(t[0] == side_data@[i as int]);
        }
        cumulative = cumulative + side_data[i].new_quantity as u128;
        if cumulative >= threshold as u128 {
            return side_data[i].price_level;
        }
        i = i + 1;
    }
    0
}

} // verus!
