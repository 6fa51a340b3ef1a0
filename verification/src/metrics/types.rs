//! Counters and gauges. Values are kept in fixed point, in thousandths, and
//! wrap around on overflow as the atomic operations they stand for do.
use vstd::prelude::*;
use crate::assoc::entries;
use crate::text::copy_str;

verus! {

/// The fixed-point value of one whole unit.
pub const UNIT: u64 = 1000;

/// `a + b` wrapped around at 2^64.
pub open spec fn wrapping_sum(a: u64, b: u64) -> u64 {
    if a + b > u64::MAX {
        (a + b - 0x1_0000_0000_0000_0000) as u64
    } else {
        (a + b) as u64
    }
}

/// Types that can provide labels.
pub trait Labeled {
    /// The labels, as key/value pairs.
    fn labels(&self) -> Vec<(String, String)>;
}

/// A monotonically increasing counter.
#[derive(Debug, Clone)]
pub struct Counter {
    value: u64,
    name: String,
    help: String,
    labels: Vec<(String, String)>,
}

impl Counter {
    /// The value in thousandths.
    pub closed spec fn fixed(&self) -> u64 {
        self.value
    }

    /// The metric name.
    pub closed spec fn name_view(&self) -> Seq<char> {
        self.name@
    }

    /// The help text.
    pub closed spec fn help_view(&self) -> Seq<char> {
        self.help@
    }

    /// The labels, keys and values by their views.
    pub closed spec fn labels_view(&self) -> Seq<(Seq<char>, Seq<char>)> {
        label_views(self.labels@)
    }

    /// A counter at zero, without labels.
    pub fn new(name: &str, help: &str) -> (c: Counter)
        ensures
            c.fixed() == 0,
            c.name_view() == name@,
            c.help_view() == help@,
            c.labels_view().len() == 0,
    {
        Counter { value: 0, name: copy_str(name), help: copy_str(help), labels: Vec::new() }
    }

    /// A counter at zero with the given labels.
    pub fn with_labels(name: &str, help: &str, labels: Vec<(String, String)>) -> (c: Counter)
        ensures
            c.fixed() == 0,
            c.name_view() == name@,
            c.help_view() == help@,
            c.labels_view() == label_views(labels@),
    {
        Counter { value: 0, name: copy_str(name), help: copy_str(help), labels }
    }

    /// Adds one.
    pub fn inc(&mut self)
        ensures
            final(self).fixed() == wrapping_sum(old(self).fixed(), UNIT),
            final(self).name_view() == old(self).name_view(),
            final(self).help_view() == old(self).help_view(),
            final(self).labels_view() == old(self).labels_view(),
    {
        self.value = self.value.wrapping_add(UNIT);
    }

    /// Adds an amount given in thousandths.
    pub fn inc_by_fixed(&mut self, amount: u64)
        ensures
            final(self).fixed() == wrapping_sum(old(self).fixed(), amount),
            final(self).name_view() == old(self).name_view(),
            final(self).help_view() == old(self).help_view(),
            final(self).labels_view() == old(self).labels_view(),
    {
        self.value = self.value.wrapping_add(amount);
    }

    /// The value in thousandths.
    pub fn fixed_value(&self) -> (r: u64)
        ensures
            r == self.fixed(),
    {
        self.value
    }

    /// The metric name.
    pub fn name(&self) -> (r: &str)
        ensures
            r@ == self.name_view(),
    {
        self.name.as_str()
    }

    /// The help text.
    pub fn help(&self) -> (r: &str)
        ensures
            r@ == self.help_view(),
    {
        self.help.as_str()
    }

    /// The labels.
    pub fn labels(&self) -> (r: &Vec<(String, String)>)
        ensures
            label_views(r@) == self.labels_view(),
    {
        &self.labels
    }

    /// Sets the counter back to zero.
    pub fn reset(&mut self)
        ensures
            final(self).fixed() == 0,
            final(self).name_view() == old(self).name_view(),
            final(self).help_view() == old(self).help_view(),
            final(self).labels_view() == old(self).labels_view(),
    {
        self.value = 0;
    }
}

/// Labels with keys and values taken by their views.
pub open spec fn label_views(v: Seq<(String, String)>) -> Seq<(Seq<char>, Seq<char>)> {
    entries(v).map_values(|p: (Seq<char>, String)| (p.0, p.1@))
}

/// The signed value of a magnitude and a sign.
pub open spec fn signed_of(magnitude: u64, negative: bool) -> int {
    if negative { -(magnitude as int) } else { magnitude as int }
}

/// The magnitude of a value wrapped around at 2^64 (values stay below 2^65 in size).
pub open spec fn wrapped_magnitude(value: int) -> u64 {
    let m = if value < 0 { -value } else { value };
    if m > u64::MAX { (m - 0x1_0000_0000_0000_0000) as u64 } else { m as u64 }
}

/// A gauge that can go up and down. Its value is kept in thousandths, as a
/// magnitude beside a sign.
#[derive(Debug, Clone)]
pub struct Gauge {
    value: u64,
    negative: bool,
    name: String,
    help: String,
    labels: Vec<(String, String)>,
}

impl Gauge {
    /// The magnitude in thousandths.
    pub closed spec fn fixed(&self) -> u64 {
        self.value
    }

    /// Whether the value is negative.
    pub closed spec fn is_negative(&self) -> bool {
        self.negative
    }

    /// The metric name.
    pub closed spec fn name_view(&self) -> Seq<char> {
        self.name@
    }

    /// The help text.
    pub closed spec fn help_view(&self) -> Seq<char> {
        self.help@
    }

    /// The labels, keys and values by their views.
    pub closed spec fn labels_view(&self) -> Seq<(Seq<char>, Seq<char>)> {
        label_views(self.labels@)
    }

    /// Name, help and labels are kept.
    pub open spec fn same_metric(&self, other: &Gauge) -> bool {
        &&& self.name_view() == other.name_view()
        &&& self.help_view() == other.help_view()
        &&& self.labels_view() == other.labels_view()
    }

    /// A gauge at zero, without labels.
    pub fn new(name: &str, help: &str) -> (g: Gauge)
        ensures
            g.fixed() == 0,
            !g.is_negative(),
            g.name_view() == name@,
            g.help_view() == help@,
            g.labels_view().len() == 0,
    {
        Gauge { value: 0, negative: false, name: copy_str(name), help: copy_str(help), labels: Vec::new() }
    }

    /// A gauge at zero with the given labels.
    pub fn with_labels(name: &str, help: &str, labels: Vec<(String, String)>) -> (g: Gauge)
        ensures
            g.fixed() == 0,
            !g.is_negative(),
            g.name_view() == name@,
            g.help_view() == help@,
            g.labels_view() == label_views(labels@),
    {
        Gauge { value: 0, negative: false, name: copy_str(name), help: copy_str(help), labels }
    }

    /// Sets the magnitude, in thousandths, and the sign.
    pub fn set_fixed(&mut self, magnitude: u64, negative: bool)
        ensures
            final(self).fixed() == magnitude,
            final(self).is_negative() == negative,
            final(self).name_view() == old(self).name_view(),
            final(self).help_view() == old(self).help_view(),
            final(self).labels_view() == old(self).labels_view(),
    {
        self.value = magnitude;
        self.negative = negative;
    }

    /// The signed value in thousandths.
    pub open spec fn signed(&self) -> int {
        signed_of(self.fixed(), self.is_negative())
    }

    /// The gauge holds `value` (in thousandths): its sign, and its magnitude
    /// wrapped around at 2^64 as the atomic operations it stands for wrap.
    pub open spec fn holds(&self, value: int) -> bool {
        &&& self.fixed() == wrapped_magnitude(value)
        &&& self.is_negative() == (value < 0)
    }

    /// Adds a signed amount, in thousandths.
    fn add_signed(&mut self, delta: i128)
        requires
            -0x1_0000_0000_0000_0000 < delta < 0x1_0000_0000_0000_0000,
        ensures
            final(self).holds(old(self).signed() + delta),
            final(self).same_metric(old(self)),
    {
        let current: i128 = if self.negative { -(self.value as i128) } else { self.value as i128 };
        let next: i128 = current + delta;
        let magnitude: i128 = if next < 0 { -next } else { next };
        let wrapped: i128 = if magnitude > 0xffff_ffff_ffff_ffff { magnitude - 0x1_0000_0000_0000_0000 } else { magnitude };
        self.value = wrapped as u64;
        self.negative = next < 0;
    }

    /// Adds one.
    pub fn inc(&mut self)
        ensures
            final(self).holds(old(self).signed() + UNIT),
            final(self).same_metric(old(self)),
    {
        self.add_signed(1000);
    }

    /// Adds an amount given in thousandths.
    pub fn inc_by_fixed(&mut self, amount: u64)
        ensures
            final(self).holds(old(self).signed() + amount),
            final(self).same_metric(old(self)),
    {
        self.add_signed(amount as i128);
    }

    /// Takes one away; the gauge goes below zero as it must.
    pub fn dec(&mut self)
        ensures
            final(self).holds(old(self).signed() - UNIT),
            final(self).same_metric(old(self)),
    {
        self.add_signed(-1000);
    }

    /// Takes an amount, given in thousandths, away.
    pub fn dec_by_fixed(&mut self, amount: u64)
        ensures
            final(self).holds(old(self).signed() - amount),
            final(self).same_metric(old(self)),
    {
        self.add_signed(-(amount as i128));
    }

    /// The magnitude in thousandths.
    pub fn fixed_value(&self) -> (r: u64)
        ensures
            r == self.fixed(),
    {
        self.value
    }

    /// Whether the value is negative.
    pub fn negative(&self) -> (r: bool)
        ensures
            r == self.is_negative(),
    {
        self.negative
    }

    /// The metric name.
    pub fn name(&self) -> (r: &str)
        ensures
            r@ == self.name_view(),
    {
        self.name.as_str()
    }

    /// The help text.
    pub fn help(&self) -> (r: &str)
        ensures
            r@ == self.help_view(),
    {
        self.help.as_str()
    }

    /// The labels.
    pub fn labels(&self) -> (r: &Vec<(String, String)>)
        ensures
            label_views(r@) == self.labels_view(),
    {
        &self.labels
    }
}

/// Whole units are added and taken back exactly while the value stays
/// within 2^64 in size: a gauge after one `inc` and then one `dec` holds the
/// value it held before.
pub proof fn inc_then_dec_restores(before: Gauge, mid: Gauge, after: Gauge)
    requires
        before.signed() + UNIT <= u64::MAX,
        mid.holds(before.signed() + UNIT),
        after.holds(mid.signed() - UNIT),
    ensures
        after.signed() == before.signed(),
{
}

/// `n` calls of `inc` on a fresh counter leave it at `n` whole units, while
/// that stays below 2^64 thousandths.
pub proof fn law_counter_counts_calls(values: Seq<u64>)
    requires
        values.len() >= 1,
        values[0] == 0,
        (values.len() - 1) * UNIT <= u64::MAX,
        forall|i: int| 0 < i < values.len() ==> #[trigger] values[i] == wrapping_sum(values[i - 1], UNIT),
    ensures
        forall|i: int| 0 <= i < values.len() ==> #[trigger] values[i] == i * UNIT,
    decreases values.len(),
{
    if values.len() > 1 {
        law_counter_counts_calls(values.drop_last());
        assert forall|i: int| 0 <= i < values.len() implies #[trigger] values[i] == i * UNIT by {
            if i < values.len() - 1 {
                assert(values.drop_last()[i] == values[i]);
            } else {
                assert(values.drop_last()[i - 1] == values[i - 1]);
            }
        }
    }
}

} // verus!
