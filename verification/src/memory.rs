//! Resident memory: the last reading and the peak.
use vstd::prelude::*;

verus! {

/// Bytes in a megabyte.
pub const MEGABYTE: u64 = 1_048_576;

/// An exact number of megabytes: `whole` of them and `rest` bytes more.
#[derive(Debug, Clone, Copy, PartialEq, Eq, Structural)]
pub struct Megabytes {
    pub whole: u64,
    pub rest: u64,
}

impl Megabytes {
    /// Whether the rest is less than a megabyte.
    pub open spec fn wf(self) -> bool {
        self.rest < MEGABYTE
    }

    /// The same amount in bytes.
    pub open spec fn bytes(self) -> int {
        self.whole * MEGABYTE + self.rest
    }

    /// The amount `bytes` in megabytes.
    pub fn of_bytes(bytes: u64) -> (amount: Self)
        ensures
            amount.wf(),
            amount.bytes() == bytes,
    {
        Megabytes { whole: bytes / MEGABYTE, rest: bytes % MEGABYTE }
    }
}

/// What a reading of the process's memory counts as: a process that cannot be
/// found uses none.
pub open spec fn reading_bytes(reading: Option<u64>) -> u64 {
    match reading {
        Some(bytes) => bytes,
        None => 0,
    }
}

/// The largest of `readings`, or 0.
pub open spec fn peak_of(readings: Seq<Option<u64>>) -> int
    decreases readings.len(),
{
    if readings.len() == 0 {
        0
    } else {
        larger(peak_of(readings.drop_last()), reading_bytes(readings.last()) as int)
    }
}

/// The larger of two numbers.
pub open spec fn larger(a: int, b: int) -> int {
    if a < b {
        b
    } else {
        a
    }
}

/// Keeps the peak of the process's memory over all readings.
#[derive(Debug)]
pub struct MemProbe {
    peak_bytes: u64,
}

impl View for MemProbe {
    type V = int;

    /// The peak, in bytes.
    closed spec fn view(&self) -> int {
        self.peak_bytes as int
    }
}

impl MemProbe {
    /// A probe that has not read anything.
    pub fn new() -> (probe: Self)
        ensures
            probe@ == peak_of(Seq::empty()),
    {
        MemProbe { peak_bytes: 0 }
    }

    /// Takes in a reading, in bytes, and gives it back in megabytes.
    pub fn sample_mb(&mut self, reading: Option<u64>) -> (amount: Megabytes)
        ensures
            amount.wf(),
            amount.bytes() == reading_bytes(reading),
            final(self)@ == larger(old(self)@, reading_bytes(reading) as int),
    {
        let bytes: u64 = reading.unwrap_or(0);
        if bytes > self.peak_bytes {
            self.peak_bytes = bytes;
        }
        Megabytes::of_bytes(bytes)
    }

    /// The peak over all readings, in megabytes.
    pub fn peak_mb(&self) -> (amount: Megabytes)
        ensures
            amount.wf(),
            amount.bytes() == self@,
    {
        Megabytes::of_bytes(self.peak_bytes)
    }
}

impl Default for MemProbe {
    /// A probe that has not read anything.
    fn default() -> (probe: Self)
        ensures
            probe@ == peak_of(Seq::empty()),
    {
        MemProbe::new()
    }
}

/// The peak is no less than any reading, and is one of them unless it is 0.
pub proof fn law_peak_is_largest_reading(readings: Seq<Option<u64>>)
    ensures
        peak_of(readings) >= 0,
        forall|i: int| 0 <= i < readings.len() ==> reading_bytes(#[trigger] readings[i]) <= peak_of(readings),
        peak_of(readings) == 0 || exists|i: int|
            0 <= i < readings.len() && reading_bytes(#[trigger] readings[i]) == peak_of(readings),
    decreases readings.len(),
{
    if readings.len() > 0 {
        let rest = readings.drop_last();
        law_peak_is_largest_reading(rest);
        assert forall|i: int| 0 <= i < readings.len() implies reading_bytes(#[trigger] readings[i]) <= peak_of(
            readings,
        ) by {
            if i < rest.len() {
                assert(rest[i] == readings[i]);
            }
        }
        if peak_of(readings) != 0 {
            if peak_of(readings) == peak_of(rest) {
                let i = choose|i: int|
                    0 <= i < rest.len() && reading_bytes(#[trigger] rest[i]) == peak_of(rest);
                assert(readings[i] == rest[i]);
            } else {
                assert(readings[readings.len() - 1] == readings.last());
            }
        }
    }
}

/// A megabyte has 1048576 bytes: an amount of bytes is that many times the
/// whole megabytes, and a rest of less than one.
pub proof fn law_amounts_are_exact(bytes: u64, amount: Megabytes)
    requires
        call_ensures(Megabytes::of_bytes, (bytes,), amount),
    ensures
        amount.whole * 1048576 + amount.rest == bytes,
        amount.rest < 1048576,
{
}

/// A reading comes back as it was taken, none as 0, and the peak after it is
/// the larger of the reading and the peak before it.
pub proof fn law_peak_follows_the_readings(
    probe: &mut MemProbe,
    reading: Option<u64>,
    amount: Megabytes,
    peak_before: Megabytes,
    peak_after: Megabytes,
)
    requires
        call_ensures(MemProbe::sample_mb, (probe, reading), amount),
        call_ensures(MemProbe::peak_mb, (&*old(probe),), peak_before),
        call_ensures(MemProbe::peak_mb, (&*final(probe),), peak_after),
    ensures
        ({
            let taken = amount.whole * 1048576 + amount.rest;
            let before = peak_before.whole * 1048576 + peak_before.rest;
            let after = peak_after.whole * 1048576 + peak_after.rest;
            &&& reading matches Some(bytes) ==> taken == bytes
            &&& reading is None ==> taken == 0
            &&& amount.rest < 1048576
            &&& peak_after.rest < 1048576
            &&& after >= before
            &&& after >= taken
            &&& after == before || after == taken
        }),
{
}

/// A new probe has a peak of 0.
pub proof fn law_new_probe_has_no_peak(probe: MemProbe, default_probe: MemProbe, peak: Megabytes, default_peak: Megabytes)
    requires
        call_ensures(MemProbe::new, (), probe),
        call_ensures(MemProbe::peak_mb, (&probe,), peak),
        call_ensures(<MemProbe as Default>::default, (), default_probe),
        call_ensures(MemProbe::peak_mb, (&default_probe,), default_peak),
    ensures
        peak.whole == 0 && peak.rest == 0,
        default_peak.whole == 0 && default_peak.rest == 0,
{
}

/// The peak of a list of readings bounds each reading that found the process,
/// and is one of these, or 0.
pub proof fn law_peak_is_a_reading(readings: Seq<Option<u64>>)
    ensures
        forall|i: int|
            0 <= i < readings.len() ==> (#[trigger] readings[i] matches Some(bytes) ==> bytes <= peak_of(readings)),
        peak_of(readings) == 0 || exists|i: int|
            0 <= i < readings.len() && (#[trigger] readings[i] matches Some(bytes) && bytes == peak_of(readings)),
{
    law_peak_is_largest_reading(readings);
}

} // verus!
