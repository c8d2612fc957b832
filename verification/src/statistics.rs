//! Running minimum, maximum and mean of the bytes received so far.
use vstd::prelude::*;
use crate::utils::{is_number_text, lemma_decimal_is_number_text};

verus! {

/// The abstract value of a `Statistics`.
pub struct StatisticsView {
    pub min: int,
    pub max: int,
    pub mean: int,
    pub count: int,
}

impl StatisticsView {
    /// Statistics of no sample at all.
    pub open spec fn empty() -> StatisticsView {
        StatisticsView { min: 255, max: 0, mean: 0, count: 0 }
    }

    /// The statistics once the sample `element` has been taken in: the
    /// extremes widen to it, the mean is the previous mean weighted by the
    /// previous count plus the sample, divided by the new count and rounded
    /// down.
    pub open spec fn after(self, element: int) -> StatisticsView {
        StatisticsView {
            min: if element < self.min { element } else { self.min },
            max: if element > self.max { element } else { self.max },
            mean: (self.mean * self.count + element) / (self.count + 1),
            count: self.count + 1,
        }
    }

    /// What holds of every statistics value: all fields fit their bytes and
    /// counter; no sample means the initial value; otherwise the mean lies
    /// between the extremes.
    pub open spec fn is_consistent(self) -> bool {
        &&& 0 <= self.min <= 255
        &&& 0 <= self.max <= 255
        &&& 0 <= self.mean <= 255
        &&& 0 <= self.count <= u32::MAX
        &&& self.count == 0 ==> self == StatisticsView::empty()
        &&& self.count > 0 ==> self.min <= self.mean <= self.max
    }

    /// Taking in `element` needs no arithmetic beyond `u32`: the weighted
    /// mean plus the sample and the new count both fit.
    pub open spec fn fits(self, element: int) -> bool {
        self.count < u32::MAX && self.mean * self.count + element <= u32::MAX
    }
}

/// The statistics of the samples `s` taken in order, starting from none.
pub open spec fn statistics_of(s: Seq<u8>) -> StatisticsView
    decreases s.len(),
{
    if s.len() == 0 {
        StatisticsView::empty()
    } else {
        statistics_of(s.drop_last()).after(s.last() as int)
    }
}

/// The smallest of the samples `s` (255 for none).
pub open spec fn seq_min(s: Seq<u8>) -> int
    decreases s.len(),
{
    if s.len() == 0 {
        255
    } else {
        let m = seq_min(s.drop_last());
        if (s.last() as int) < m { s.last() as int } else { m }
    }
}

/// The largest of the samples `s` (0 for none).
pub open spec fn seq_max(s: Seq<u8>) -> int
    decreases s.len(),
{
    if s.len() == 0 {
        0
    } else {
        let m = seq_max(s.drop_last());
        if (s.last() as int) > m { s.last() as int } else { m }
    }
}

/// The sum of the samples `s`.
pub open spec fn seq_sum(s: Seq<u8>) -> int
    decreases s.len(),
{
    if s.len() == 0 {
        0
    } else {
        seq_sum(s.drop_last()) + s.last() as int
    }
}

/// The ASCII decimal digits of `n`, most significant first, without
/// leading zeros.
pub open spec fn decimal(n: nat) -> Seq<u8>
    decreases n,
{
    if n < 10 {
        seq![(0x30 + n) as u8]
    } else {
        decimal(n / 10).push((0x30 + n % 10) as u8)
    }
}

/// The ASCII bytes of `{"min": `.
pub open spec fn json_min_label() -> Seq<u8> {
    seq![0x7bu8, 0x22u8, 0x6du8, 0x69u8, 0x6eu8, 0x22u8, 0x3au8, 0x20u8]
}

/// The ASCII bytes of `, "max": `.
pub open spec fn json_max_label() -> Seq<u8> {
    seq![0x2cu8, 0x20u8, 0x22u8, 0x6du8, 0x61u8, 0x78u8, 0x22u8, 0x3au8, 0x20u8]
}

/// The ASCII bytes of `, "mean": `.
pub open spec fn json_mean_label() -> Seq<u8> {
    seq![0x2cu8, 0x20u8, 0x22u8, 0x6du8, 0x65u8, 0x61u8, 0x6eu8, 0x22u8, 0x3au8, 0x20u8]
}

/// The ASCII bytes of `, "count": `.
pub open spec fn json_count_label() -> Seq<u8> {
    seq![0x2cu8, 0x20u8, 0x22u8, 0x63u8, 0x6fu8, 0x75u8, 0x6eu8, 0x74u8, 0x22u8, 0x3au8, 0x20u8]
}

/// The ASCII bytes of `}`.
pub open spec fn json_close() -> Seq<u8> {
    seq![0x7du8]
}

/// The JSON text that describes `v`:
/// `{"min": <min>, "max": <max>, "mean": <mean>, "count": <count>}`.
pub open spec fn json_text(v: StatisticsView) -> Seq<u8> {
    json_min_label() + decimal(v.min as nat) + json_max_label() + decimal(v.max as nat)
        + json_mean_label() + decimal(v.mean as nat) + json_count_label() + decimal(
        v.count as nat,
    ) + json_close()
}

fn push_decimal(out: &mut Vec<u8>, n: u32)
    ensures
        final(out)@ == old(out)@ + decimal(n as nat),
    decreases n,
{
    if n >= 10 {
        push_decimal(out, n / 10);
    }
    out.push(0x30 + (n % 10) as u8);
    assert(n < 10 ==> decimal(n as nat) =~= seq![(0x30 + n) as u8]);
}

fn push_all(out: &mut Vec<u8>, bytes: &[u8])
    ensures
        final(out)@ == old(out)@ + bytes@,
{
    let mut i: usize = 0;
    while i < bytes.len()
        invariant
            0 <= i <= bytes.len(),
            out@ == old(out)@ + bytes@.take(i as int),
        decreases bytes.len() - i,
    {
        out.push(bytes[i]);
        i = i + 1;
        assert(bytes@.take(i as int) =~= bytes@.take(i - 1).push(bytes@[i - 1]));
    }
    assert(bytes@.take(bytes.len() as int) =~= bytes@);
}

/// Minimum, maximum, mean and number of the bytes received.
#[derive(Clone, Copy, Debug)]
pub struct Statistics {
    min: u8,
    max: u8,
    mean: u8,
    count: u32,
}

impl View for Statistics {
    type V = StatisticsView;

    closed spec fn view(&self) -> StatisticsView {
        StatisticsView {
            min: self.min as int,
            max: self.max as int,
            mean: self.mean as int,
            count: self.count as int,
        }
    }
}

proof fn lemma_mean_between(lo: int, hi: int, m: int, n: int, e: int)
    requires
        0 <= n,
        lo <= m <= hi || n == 0,
        lo <= e <= hi,
        0 <= lo,
    ensures
        lo <= (m * n + e) / (n + 1) <= hi,
{
    assert(lo * (n + 1) <= m * n + e <= hi * (n + 1)) by (nonlinear_arith)
        requires
            0 <= n,
            lo <= m <= hi || n == 0,
            lo <= e <= hi,
    ;
    assert(lo <= (m * n + e) / (n + 1)) by (nonlinear_arith)
        requires
            lo * (n + 1) <= m * n + e,
            0 <= n,
    ;
    assert((m * n + e) / (n + 1) <= hi) by (nonlinear_arith)
        requires
            m * n + e <= hi * (n + 1),
            0 <= n,
    ;
}

/// Taking a sample in keeps the statistics consistent.
pub proof fn lemma_after_keeps_consistent(v: StatisticsView, element: int)
    requires
        v.is_consistent(),
        0 <= element <= 255,
        v.count < u32::MAX,
    ensures
        v.after(element).is_consistent(),
{
    let w = v.after(element);
    if v.count == 0 {
        assert(v.mean == 0 && v.count == 0 && v.min == 255 && v.max == 0);
        assert(v.mean * v.count + element == element);
        assert(w.mean == element / 1);
        if element < 255 {
            assert(w.min == element);
        } else {
            assert(w.min == 255 && element == 255);
        }
        if element > 0 {
            assert(w.max == element);
        } else {
            assert(w.max == 0 && element == 0);
        }
        assert(element / 1 == element) by (nonlinear_arith);
        assert(w.mean == element);
        assert(w.count == 1);
    } else {
        lemma_mean_between(w.min, w.max, v.mean, v.count, element);
        assert(w.min <= w.mean <= w.max);
        assert(0 <= w.min && w.max <= 255);
    }
    assert(w.count > 0);
}

/// Taking in the samples `s` one by one from the initial statistics counts
/// them, tracks their smallest and largest value, and keeps a mean that lies
/// between the two and never exceeds the true mean: mean times count is at
/// most the sum of the samples.
pub proof fn lemma_statistics_of_samples(s: Seq<u8>)
    requires
        s.len() <= u32::MAX,
    ensures
        statistics_of(s).count == s.len(),
        statistics_of(s).min == seq_min(s),
        statistics_of(s).max == seq_max(s),
        statistics_of(s).is_consistent(),
        statistics_of(s).mean * s.len() <= seq_sum(s),
    decreases s.len(),
{
    if s.len() > 0 {
        let p = s.drop_last();
        lemma_statistics_of_samples(p);
        let v = statistics_of(p);
        let e = s.last() as int;
        lemma_after_keeps_consistent(v, e);
        let n = v.count;
        let m = v.mean;
        assert(((m * n + e) / (n + 1)) * (n + 1) <= m * n + e) by (nonlinear_arith)
            requires
                0 <= n,
                0 <= m,
                0 <= e,
        ;
        assert(statistics_of(s).mean * s.len() == ((m * n + e) / (n + 1)) * (n + 1));
    }
}

/// The JSON text of any statistics value is
/// `{"min": A, "max": B, "mean": C, "count": D}` where A, B, C and D are the
/// decimal texts (no sign, no leading zero) of the minimum, the maximum, the
/// mean and the count.
pub proof fn lemma_json_shows_fields(v: StatisticsView)
    requires
        v.is_consistent(),
    ensures
        exists|a: Seq<u8>, b: Seq<u8>, c: Seq<u8>, d: Seq<u8>|
            #![trigger is_number_text(a, v.min), is_number_text(b, v.max), is_number_text(c, v.mean), is_number_text(d, v.count)]
            is_number_text(a, v.min) && is_number_text(b, v.max) && is_number_text(c, v.mean)
                && is_number_text(d, v.count) && json_text(v) == seq![0x7bu8, 0x22u8, 0x6du8, 0x69u8, 0x6eu8, 0x22u8, 0x3au8, 0x20u8] + a + seq![0x2cu8, 0x20u8, 0x22u8, 0x6du8, 0x61u8, 0x78u8, 0x22u8, 0x3au8, 0x20u8] + b
                + seq![0x2cu8, 0x20u8, 0x22u8, 0x6du8, 0x65u8, 0x61u8, 0x6eu8, 0x22u8, 0x3au8, 0x20u8] + c + seq![0x2cu8, 0x20u8, 0x22u8, 0x63u8, 0x6fu8, 0x75u8, 0x6eu8, 0x74u8, 0x22u8, 0x3au8, 0x20u8] + d + seq![0x7du8],
{
    lemma_decimal_is_number_text(v.min as nat);
    lemma_decimal_is_number_text(v.max as nat);
    lemma_decimal_is_number_text(v.mean as nat);
    lemma_decimal_is_number_text(v.count as nat);
    let a = decimal(v.min as nat);
    let b = decimal(v.max as nat);
    let c = decimal(v.mean as nat);
    let d = decimal(v.count as nat);
    assert(json_text(v) == seq![0x7bu8, 0x22u8, 0x6du8, 0x69u8, 0x6eu8, 0x22u8, 0x3au8, 0x20u8] + a + seq![0x2cu8, 0x20u8, 0x22u8, 0x6du8, 0x61u8, 0x78u8, 0x22u8, 0x3au8, 0x20u8] + b + seq![0x2cu8, 0x20u8, 0x22u8, 0x6du8, 0x65u8, 0x61u8, 0x6eu8, 0x22u8, 0x3au8, 0x20u8] + c + seq![0x2cu8, 0x20u8, 0x22u8, 0x63u8, 0x6fu8, 0x75u8, 0x6eu8, 0x74u8, 0x22u8, 0x3au8, 0x20u8] + d + seq![0x7du8]);
}

impl Statistics {
    #[verifier::type_invariant]
    spec fn consistent(self) -> bool {
        self@.is_consistent()
    }

    /// Statistics of no sample: minimum 255, maximum, mean and count 0.
    pub fn new() -> (r: Statistics)
        ensures
            r@ == StatisticsView::empty(),
    {
        Statistics { min: u8::MAX, max: 0, mean: 0, count: 0 }
    }

    /// Takes in one more sample.
    pub fn update_statistics(&mut self, element: u8)
        requires
            old(self)@.fits(element as int),
        ensures
            final(self)@ == old(self)@.after(element as int),
            final(self)@.is_consistent(),
    {
        proof {
            use_type_invariant(&*self);
            lemma_after_keeps_consistent(self@, element as int);
        }
        let min = if element < self.min {
            element
        } else {
            self.min
        };
        let max = if element > self.max {
            element
        } else {
            self.max
        };
        let weighted: u32 = self.mean as u32 * self.count + element as u32;
        let mean = (weighted / (self.count + 1)) as u8;
        let count = self.count + 1;
        *self = Statistics { min, max, mean, count };
    }

    /// The statistics as JSON text (ASCII bytes), as they are sent out:
    /// `{"min": 1, "max": 2, "mean": 3, "count": 4}`.
    pub fn to_json(&self) -> (r: Vec<u8>)
        ensures
            r@ == json_text(self@),
    {
        let mut out: Vec<u8> = Vec::new();
        let label: [u8; 8] = [0x7bu8, 0x22u8, 0x6du8, 0x69u8, 0x6eu8, 0x22u8, 0x3au8, 0x20u8];
        assert(label@ =~= json_min_label());
        push_all(&mut out, &label);
        push_decimal(&mut out, self.min as u32);
        let label: [u8; 9] = [0x2cu8, 0x20u8, 0x22u8, 0x6du8, 0x61u8, 0x78u8, 0x22u8, 0x3au8, 0x20u8];
        assert(label@ =~= json_max_label());
        push_all(&mut out, &label);
        push_decimal(&mut out, self.max as u32);
        let label: [u8; 10] = [0x2cu8, 0x20u8, 0x22u8, 0x6du8, 0x65u8, 0x61u8, 0x6eu8, 0x22u8, 0x3au8, 0x20u8];
        assert(label@ =~= json_mean_label());
        push_all(&mut out, &label);
        push_decimal(&mut out, self.mean as u32);
        let label: [u8; 11] = [0x2cu8, 0x20u8, 0x22u8, 0x63u8, 0x6fu8, 0x75u8, 0x6eu8, 0x74u8, 0x22u8, 0x3au8, 0x20u8];
        assert(label@ =~= json_count_label());
        push_all(&mut out, &label);
        push_decimal(&mut out, self.count);
        let label: [u8; 1] = [0x7du8];
        assert(label@ =~= json_close());
        push_all(&mut out, &label);
        assert(out@ =~= json_text(self@));
        out
    }

    /// Smallest sample so far (255 before the first).
    pub fn min(&self) -> (r: u8)
        ensures
            r == self@.min,
    {
        self.min
    }

    /// Largest sample so far (0 before the first).
    pub fn max(&self) -> (r: u8)
        ensures
            r == self@.max,
    {
        self.max
    }

    /// Running mean, rounded down at each sample (0 before the first).
    pub fn mean(&self) -> (r: u8)
        ensures
            r == self@.mean,
    {
        self.mean
    }

    /// Number of samples so far.
    pub fn count(&self) -> (r: u32)
        ensures
            r == self@.count,
            self@.is_consistent(),
    {
        proof {
            use_type_invariant(self);
        }
        self.count
    }
}

} // verus!
