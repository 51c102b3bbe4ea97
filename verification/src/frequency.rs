//! Frequencies: occurrence counts taken relative to the largest count.

use vstd::prelude::*;
use crate::histogram::{
    lemma_occurrences_bounded, occurrences, peak_occurrence, Histogram, DIGRAPH_KINDS,
};

verus! {

/// A fraction of two natural numbers: the mathematical value of a
/// frequency.
pub struct Ratio {
    pub numer: nat,
    pub denom: nat,
}

impl Ratio {
    /// The fraction is defined and lies between zero and one.
    pub open spec fn in_unit_interval(self) -> bool {
        1 <= self.denom && self.numer <= self.denom
    }

    /// The fraction is exactly one.
    pub open spec fn is_one(self) -> bool {
        1 <= self.denom && self.numer == self.denom
    }

    /// The whole number nearest to this fraction times `factor`, halves
    /// rounded up.
    pub open spec fn scaled(self, factor: nat) -> nat {
        (2 * self.numer * factor + self.denom) / (2 * self.denom)
    }
}

/// A frequency between zero and one, held exactly as the fraction
/// `numerator / denominator`.
#[derive(Clone, Copy, Debug)]
pub struct Frequency {
    numerator: u64,
    denominator: u64,
}

impl View for Frequency {
    type V = Ratio;

    /// The fraction that this frequency is.
    closed spec fn view(&self) -> Ratio {
        Ratio { numer: self.numerator as nat, denom: self.denominator as nat }
    }
}

impl Frequency {
    #[verifier::type_invariant]
    closed spec fn inv(self) -> bool {
        self@.in_unit_interval()
    }

    /// The frequency `numerator / denominator`, if that is a fraction
    /// between zero and one: the denominator must not be zero and the
    /// numerator must not exceed it.
    pub fn new(numerator: u64, denominator: u64) -> (f: Option<Frequency>)
        ensures
            f.is_some() <==> 1 <= denominator && numerator <= denominator,
            f matches Some(q) ==> q@ == (Ratio {
                numer: numerator as nat,
                denom: denominator as nat,
            }),
    {
        if denominator >= 1 && numerator <= denominator {
            Some(Frequency { numerator, denominator })
        } else {
            None
        }
    }

    /// The numerator of the fraction.
    pub fn numerator(&self) -> (n: u64)
        ensures
            n == self@.numer,
            self@.in_unit_interval(),
    {
        proof {
            use_type_invariant(self);
        }
        self.numerator
    }

    /// The denominator of the fraction.
    pub fn denominator(&self) -> (d: u64)
        ensures
            d == self@.denom,
            self@.in_unit_interval(),
    {
        proof {
            use_type_invariant(self);
        }
        self.denominator
    }
}

/// The frequencies of the digraphs in `data`: none for empty data, and
/// otherwise, for every digraph, the number of times it occurs over the
/// number of times that the most frequent digraph occurs.
pub open spec fn frequencies(data: Seq<u16>) -> Seq<Ratio> {
    if data.len() == 0 {
        Seq::empty()
    } else {
        Seq::new(
            DIGRAPH_KINDS as nat,
            |v: int| Ratio { numer: occurrences(data, v as u16), denom: peak_occurrence(data) },
        )
    }
}

/// The frequencies that a histogram stands for: every count over the
/// histogram's peak.
pub open spec fn normalized(counts: Seq<u64>, peak: u64) -> Seq<Ratio> {
    Seq::new(counts.len(), |k: int| Ratio { numer: counts[k] as nat, denom: peak as nat })
}

/// Scaling a histogram's frequencies by its peak and rounding gives back
/// the counts exactly.
pub proof fn lemma_scaling_recovers_counts(h: Histogram)
    requires
        h.wf(),
    ensures
        forall|k: int|
            0 <= k < h@.len() ==> (#[trigger] normalized(h@, h.peak())[k]).scaled(h.peak() as nat)
                == h@[k],
{
    assert forall|k: int| 0 <= k < h@.len() implies (#[trigger] normalized(
        h@,
        h.peak(),
    )[k]).scaled(h.peak() as nat) == h@[k] by {
        let n = h@[k] as int;
        let m = h.peak() as int;
        assert((2 * n * m + m) / (2 * m) == n) by (nonlinear_arith)
            requires
                m >= 1,
                n >= 0,
        ;
    }
}

/// The frequencies of a histogram all lie between zero and one, and where
/// the histogram is not empty one of them is exactly one: that of a digraph
/// whose count is the peak.
pub proof fn lemma_normalized_in_unit_interval(h: Histogram)
    requires
        h.wf(),
    ensures
        is_frequency_table(normalized(h@, h.peak())),
{
    let entries = normalized(h@, h.peak());
    if h@.len() > 0 {
        let top: int = choose|top: int| 0 <= top < h@.len() && h@[top] == h.peak();
        assert(entries[top].is_one());
    }
}

/// The frequencies of all digraphs, indexed by digraph, or the empty table
/// that stands for "no data".
pub struct FrequencyTable {
    numerators: Vec<u64>,
    denominator: u64,
}

impl View for FrequencyTable {
    type V = Seq<Ratio>;

    /// The entries in index order.
    closed spec fn view(&self) -> Seq<Ratio> {
        normalized(self.numerators@, self.denominator)
    }
}

/// A sequence of fractions is a frequency table: it is empty or has an
/// entry for every digraph, every entry lies between zero and one, and in a
/// table that is not empty some entry is exactly one.
pub open spec fn is_frequency_table(entries: Seq<Ratio>) -> bool {
    &&& entries.len() == 0 || entries.len() == DIGRAPH_KINDS
    &&& forall|k: int| 0 <= k < entries.len() ==> (#[trigger] entries[k]).in_unit_interval()
    &&& entries.len() > 0 ==> exists|k: int|
        0 <= k < entries.len() && (#[trigger] entries[k]).is_one()
}

impl FrequencyTable {
    #[verifier::type_invariant]
    closed spec fn inv(self) -> bool {
        is_frequency_table(self@)
    }

    /// Divides every count of `h` by the largest count.
    ///
    /// The empty histogram gives the empty table. Otherwise entry `k` is
    /// the fraction of the count at `k` over the peak of `h`.
    pub fn normalize(h: &Histogram) -> (t: FrequencyTable)
        ensures
            t@ == normalized(h@, h.peak()),
            is_frequency_table(t@),
    {
        let peak = h.max_count();
        let source = h.counts();
        let mut numerators: Vec<u64> = Vec::new();
        let mut k: usize = 0;
        while k < source.len()
            invariant
                k <= source.len(),
                numerators.len() == k,
                forall|j: int| 0 <= j < k ==> numerators[j] == source[j],
            decreases source.len() - k,
        {
            numerators.push(source[k]);
            k += 1;
        }
        proof {
            assert(numerators@ =~= h@);
            let entries = normalized(h@, h.peak());
            if h@.len() > 0 {
                let top: int = choose|top: int| 0 <= top < h@.len() && h@[top] == h.peak();
                assert(entries[top].is_one());
            }
        }
        FrequencyTable { numerators, denominator: peak }
    }

    /// The number of entries: zero, or one for each digraph.
    pub fn len(&self) -> (n: usize)
        ensures
            n == self@.len(),
            is_frequency_table(self@),
    {
        proof {
            use_type_invariant(self);
        }
        self.numerators.len()
    }

    /// Whether the table holds no data.
    pub fn is_empty(&self) -> (b: bool)
        ensures
            b == (self@.len() == 0),
    {
        self.numerators.len() == 0
    }

    /// The frequency at index `k` of a table that has such an entry.
    pub(crate) fn entry(&self, k: usize) -> (f: Frequency)
        requires
            k < self@.len(),
        ensures
            f@ == self@[k as int],
    {
        proof {
            use_type_invariant(self);
            assert(self@[k as int].in_unit_interval());
        }
        Frequency { numerator: self.numerators[k], denominator: self.denominator }
    }

    /// The frequency at index `k`, or `None` where the table has no such
    /// entry.
    pub fn get(&self, k: usize) -> (f: Option<Frequency>)
        ensures
            f.is_some() <==> k < self@.len(),
            f matches Some(q) ==> q@ == self@[k as int],
    {
        proof {
            use_type_invariant(self);
        }
        if k < self.numerators.len() {
            Some(self.entry(k))
        } else {
            None
        }
    }
}

/// The frequency table of a digraph stream.
///
/// Empty input gives the empty table. Otherwise the table has an entry for
/// every digraph: the number of times the digraph occurs in `data`, over the
/// number of times that the most frequent digraph occurs.
pub fn compute_freqs(data: Vec<u16>) -> (t: FrequencyTable)
    ensures
        t@ == frequencies(data@),
        is_frequency_table(t@),
{
    let h = Histogram::build(&data);
    let t = FrequencyTable::normalize(&h);
    proof {
        assert forall|v: int| 0 <= v < t@.len() implies t@[v] == frequencies(data@)[v] by {
            lemma_occurrences_bounded(data@, v as u16);
        }
        assert(t@ =~= frequencies(data@));
    }
    t
}

} // verus!
