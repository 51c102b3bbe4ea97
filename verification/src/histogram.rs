//! Occurrence counts of digraphs, with the largest count tracked alongside.

use vstd::prelude::*;
use vstd::multiset::*;
use vstd::seq_lib::*;

verus! {

/// How many different digraphs there are: one table slot for each.
pub const DIGRAPH_KINDS: usize = 65536;

/// The number of positions of `data` that hold `value`.
pub open spec fn occurrences(data: Seq<u16>, value: u16) -> nat {
    data.to_multiset().count(value)
}

/// `peak` is the largest entry of `counts`: no entry exceeds it and some
/// entry attains it.
pub open spec fn is_peak(counts: Seq<u64>, peak: u64) -> bool {
    &&& forall|k: int| 0 <= k < counts.len() ==> counts[k] <= peak
    &&& exists|k: int| 0 <= k < counts.len() && counts[k] == peak
}

/// The largest number of times that any one digraph occurs in `data`.
pub open spec fn peak_occurrence(data: Seq<u16>) -> nat {
    choose|peak: nat| is_peak_occurrence(data, peak)
}

/// `peak` is the largest number of times that any one digraph occurs in
/// `data`.
pub open spec fn is_peak_occurrence(data: Seq<u16>, peak: nat) -> bool {
    &&& forall|v: u16| occurrences(data, v) <= peak
    &&& exists|v: u16| occurrences(data, v) == peak
}

/// The counts that `data` gives: none for empty data, and otherwise, for
/// every digraph, the number of times it occurs.
pub open spec fn tally(data: Seq<u16>) -> Seq<u64> {
    if data.len() == 0 {
        Seq::empty()
    } else {
        Seq::new(DIGRAPH_KINDS as nat, |v: int| occurrences(data, v as u16) as u64)
    }
}

/// Dense occurrence counts for all digraphs, or the empty histogram that
/// stands for "nothing counted".
pub struct Histogram {
    counts: Vec<u64>,
    max_count: u64,
}

impl View for Histogram {
    type V = Seq<u64>;

    /// The counts, indexed by digraph; the empty sequence for the empty
    /// histogram.
    closed spec fn view(&self) -> Seq<u64> {
        self.counts@
    }
}

impl Histogram {
    /// The tracked maximum.
    pub closed spec fn peak(self) -> u64 {
        self.max_count
    }

    /// Either nothing has been counted, and the table is empty with a peak
    /// of zero, or the table has a slot for every digraph and the peak is
    /// the largest count in it, at least one.
    pub open spec fn wf(self) -> bool {
        if self@.len() == 0 {
            self.peak() == 0
        } else {
            &&& self@.len() == DIGRAPH_KINDS
            &&& self.peak() >= 1
            &&& is_peak(self@, self.peak())
        }
    }

    #[verifier::type_invariant]
    closed spec fn inv(self) -> bool {
        self.wf()
    }

    /// Counts the digraphs of `data`.
    ///
    /// Empty input gives the empty histogram. Otherwise every digraph gets a
    /// slot holding the number of times it occurs in `data`, and the peak is
    /// the largest of these counts.
    pub fn build(data: &Vec<u16>) -> (h: Histogram)
        ensures
            h@ == tally(data@),
            data.len() == 0 ==> h.peak() == 0,
            data.len() > 0 ==> h.peak() == peak_occurrence(data@),
            h.wf(),
    {
        if data.len() == 0 {
            return Histogram { counts: Vec::new(), max_count: 0 };
        }
        let mut counts: Vec<u64> = vec![0u64; DIGRAPH_KINDS];
        let mut max: u64 = 0;
        let mut i: usize = 0;
        proof {
            assert(data@.take(0) =~= Seq::<u16>::empty());
            broadcast use group_to_multiset_ensures;
        }
        while i < data.len()
            invariant
                i <= data.len(),
                counts.len() == DIGRAPH_KINDS,
                max <= i,
                forall|v: u16| #[trigger] counts[v as int] == occurrences(data@.take(i as int), v),
                forall|k: int| 0 <= k < counts.len() ==> counts[k] <= max,
                i > 0 ==> max >= 1,
                i > 0 ==> exists|k: int| 0 <= k < counts.len() && counts[k] == max,
            decreases data.len() - i,
        {
            let w: u16 = data[i];
            let slot: usize = w as usize;
            let bumped: u64 = counts[slot] + 1;
            proof {
                let before = data@.take(i as int);
                assert(data@.take(i + 1) =~= before.push(w));
                to_multiset_build(before, w);
            }
            let ghost earlier = counts@;
            let ghost earlier_max = max;
            counts.set(slot, bumped);
            if bumped > max {
                max += 1;
            }
            i += 1;
            proof {
                if bumped > earlier_max {
                    assert(counts[slot as int] == max);
                } else {
                    let k: int = choose|k: int| 0 <= k < earlier.len() && earlier[k] == earlier_max;
                    assert(k != slot);
                    assert(counts[k] == max);
                }
            }
        }
        proof {
            assert(data@.take(data.len() as int) =~= data@);
            assert(counts@ =~= tally(data@));
            assert forall|v: u16| occurrences(data@, v) <= max by {
                assert(counts[v as int] <= max);
            }
            let top: int = choose|k: int| 0 <= k < counts.len() && counts[k] == max;
            assert(counts[(top as u16) as int] == occurrences(data@, top as u16));
            assert(is_peak_occurrence(data@, max as nat));
            lemma_peak_occurrence_unique(data@, max as nat, peak_occurrence(data@));
        }
        Histogram { counts, max_count: max }
    }

    /// Whether nothing has been counted.
    pub fn is_empty(&self) -> (b: bool)
        ensures
            b == (self@.len() == 0),
    {
        self.counts.len() == 0
    }

    /// The counts, indexed by digraph.
    pub fn counts(&self) -> (c: &Vec<u64>)
        ensures
            c@ == self@,
    {
        &self.counts
    }

    /// The largest count; zero for the empty histogram.
    pub fn max_count(&self) -> (m: u64)
        ensures
            m == self.peak(),
            self.wf(),
    {
        proof {
            use_type_invariant(self);
        }
        self.max_count
    }
}

/// No value occurs more often than the data is long.
pub proof fn lemma_occurrences_bounded(data: Seq<u16>, value: u16)
    ensures
        occurrences(data, value) <= data.len(),
    decreases data.len(),
{
    if data.len() == 0 {
        assert(data =~= Seq::<u16>::empty());
        broadcast use group_to_multiset_ensures;

    } else {
        lemma_occurrences_bounded(data.drop_last(), value);
        assert(data =~= data.drop_last().push(data.last()));
        to_multiset_build(data.drop_last(), data.last());
    }
}

/// At most one number is the peak occurrence of given data.
pub proof fn lemma_peak_occurrence_unique(data: Seq<u16>, p: nat, q: nat)
    requires
        is_peak_occurrence(data, p),
        is_peak_occurrence(data, q),
    ensures
        p == q,
{
}

/// The largest number of occurrences among the digraphs below `bound`.
spec fn most_below(data: Seq<u16>, bound: nat) -> nat
    decreases bound,
{
    if bound == 0 {
        0
    } else {
        let rest = most_below(data, (bound - 1) as nat);
        let here = occurrences(data, (bound - 1) as u16);
        if here > rest {
            here
        } else {
            rest
        }
    }
}

/// No digraph below `bound` occurs more often than `most_below` says, and
/// one of them occurs exactly that often.
proof fn lemma_most_below(data: Seq<u16>, bound: nat)
    requires
        bound <= DIGRAPH_KINDS,
    ensures
        forall|v: u16| v < bound ==> occurrences(data, v) <= most_below(data, bound),
        bound > 0 ==> exists|v: u16| v < bound && occurrences(data, v) == most_below(data, bound),
    decreases bound,
{
    if bound > 0 {
        lemma_most_below(data, (bound - 1) as nat);
        let rest = most_below(data, (bound - 1) as nat);
        let here = occurrences(data, (bound - 1) as u16);
        if here > rest || bound == 1 {
            assert(occurrences(data, (bound - 1) as u16) == most_below(data, bound));
        } else {
            let v: u16 = choose|v: u16| v < bound - 1 && occurrences(data, v) == rest;
            assert(v < bound && occurrences(data, v) == most_below(data, bound));
        }
    }
}

/// Every digraph stream has a peak occurrence, and for a stream that is
/// not empty it is at least one: the tracked maximum is the true maximum of
/// all counts.
pub proof fn lemma_peak_occurrence_is_maximum(data: Seq<u16>)
    ensures
        is_peak_occurrence(data, peak_occurrence(data)),
        data.len() > 0 ==> peak_occurrence(data) >= 1,
{
    lemma_most_below(data, DIGRAPH_KINDS as nat);
    let most = most_below(data, DIGRAPH_KINDS as nat);
    assert(is_peak_occurrence(data, most));
    if data.len() > 0 {
        broadcast use group_to_multiset_ensures;

        assert(data.contains(data[0]));
        assert(occurrences(data, data[0]) > 0);
    }
}

} // verus!
