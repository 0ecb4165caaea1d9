//! Haptic state: the per-channel strengths sent to the device, their wire encoding, and
//! the sample histories from which the strengths are estimated.
//!
//! Strengths are `f32` values carried as their IEEE-754 bit patterns (`f32::to_bits`).
use vstd::prelude::*;
use crate::osc::F32_ONE_BITS;
use std::collections::VecDeque;

verus! {

/// The strength of every haptic channel, as `f32` bit patterns (`0.0` off, `1.0` full).
///
/// The derived equality and debug output work on the bit patterns: `0.0` and `-0.0` differ,
/// a NaN equals itself, and values print as integers.
#[derive(Clone, Debug, PartialEq, Eq)]
pub struct HapticState {
    pub strength: Vec<u32>,
}

/// The four bytes of `x`, least significant first.
pub open spec fn u32_le_bytes(x: u32) -> Seq<u8> {
    seq![
        (x % 0x100) as u8,
        ((x / 0x100) % 0x100) as u8,
        ((x / 0x1_0000) % 0x100) as u8,
        (x / 0x100_0000) as u8,
    ]
}

/// The channel values one after another, four little-endian bytes each.
pub open spec fn le_frame(values: Seq<u32>) -> Seq<u8>
    decreases values.len(),
{
    if values.len() == 0 {
        Seq::empty()
    } else {
        le_frame(values.drop_last()) + u32_le_bytes(values.last())
    }
}

/// The value that the device reads from four little-endian bytes.
pub open spec fn u32_from_le(b: Seq<u8>) -> int {
    b[0] + 0x100 * b[1] + 0x1_0000 * b[2] + 0x100_0000 * b[3]
}

/// The channel values that the device reads from a frame: one per four bytes.
pub open spec fn frame_values(frame: Seq<u8>) -> Seq<int> {
    Seq::new(frame.len() / 4, |i: int| u32_from_le(frame.subrange(4 * i, 4 * i + 4)))
}

proof fn lemma_le_frame_len(values: Seq<u32>)
    ensures
        le_frame(values).len() == 4 * values.len(),
    decreases values.len(),
{
    if values.len() > 0 {
        lemma_le_frame_len(values.drop_last());
    }
}

proof fn lemma_le_frame_bytes(values: Seq<u32>, i: int)
    requires
        0 <= i < values.len(),
    ensures
        le_frame(values).subrange(4 * i, 4 * i + 4) == u32_le_bytes(values[i]),
    decreases values.len(),
{
    lemma_le_frame_len(values);
    lemma_le_frame_len(values.drop_last());
    if i < values.len() - 1 {
        lemma_le_frame_bytes(values.drop_last(), i);
        assert(le_frame(values).subrange(4 * i, 4 * i + 4) == le_frame(values.drop_last()).subrange(4 * i, 4 * i + 4));
    } else {
        assert(le_frame(values).subrange(4 * i, 4 * i + 4) == u32_le_bytes(values.last()));
    }
}

proof fn lemma_u32_le_round_trip(x: u32)
    ensures
        u32_from_le(u32_le_bytes(x)) == x,
{
    let b0 = x % 0x100;
    let b1 = (x / 0x100) % 0x100;
    let b2 = (x / 0x1_0000) % 0x100;
    let b3 = x / 0x100_0000;
    assert(x == b0 + 0x100 * b1 + 0x1_0000 * b2 + 0x100_0000 * b3) by (nonlinear_arith)
        requires
            b0 == x % 0x100,
            b1 == (x / 0x100) % 0x100,
            b2 == (x / 0x1_0000) % 0x100,
            b3 == x / 0x100_0000,
    ;
}

/// The device reads back, channel by channel, exactly the values that the host encoded.
pub proof fn law_frame_round_trip(values: Seq<u32>)
    ensures
        frame_values(le_frame(values)) == values.map_values(|v: u32| v as int),
{
    lemma_le_frame_len(values);
    assert forall|i: int| 0 <= i < values.len() implies #[trigger] frame_values(le_frame(values))[i] == values[i] as int by {
        lemma_le_frame_bytes(values, i);
        lemma_u32_le_round_trip(values[i]);
    }
    assert(frame_values(le_frame(values)) =~= values.map_values(|v: u32| v as int));
}

impl HapticState {
    /// `size` channels, all off.
    pub fn new(size: usize) -> (s: Self)
        ensures
            s.strength@ == Seq::new(size as nat, |i: int| 0u32),
    {
        let mut strength: Vec<u32> = Vec::new();
        let mut i: usize = 0;
        while i < size
            invariant
                i <= size,
                strength@ == Seq::new(i as nat, |k: int| 0u32),
            decreases size - i,
        {
            strength.push(0);
            i = i + 1;
        }
        HapticState { strength }
    }

    /// The frame written to the device's haptic characteristic: each channel's value as
    /// four little-endian bytes, in channel order.
    pub fn as_le_bytes(&self) -> (bytes: Vec<u8>)
        ensures
            bytes@ == le_frame(self.strength@),
    {
        let mut bytes: Vec<u8> = Vec::new();
        let mut i: usize = 0;
        while i < self.strength.len()
            invariant
                0 <= i <= self.strength@.len(),
                bytes@ == le_frame(self.strength@.take(i as int)),
            decreases self.strength@.len() - i,
        {
            let x = self.strength[i];
            bytes.push((x % 0x100) as u8);
            bytes.push(((x / 0x100) % 0x100) as u8);
            bytes.push(((x / 0x1_0000) % 0x100) as u8);
            bytes.push((x / 0x100_0000) as u8);
            assert(self.strength@.take(i + 1).drop_last() == self.strength@.take(i as int));
            assert(bytes@ == le_frame(self.strength@.take(i + 1)));
            i = i + 1;
        }
        assert(self.strength@.take(i as int) == self.strength@);
        bytes
    }

    /// The state with channel `index` at full strength and the others as they are, for a
    /// test pulse; `None` when there is no such channel.
    pub fn pulse(&self, index: usize) -> (r: Option<HapticState>)
        ensures
            match r {
                Some(p) => index < self.strength@.len() && p.strength@ == self.strength@.update(
                    index as int,
                    F32_ONE_BITS,
                ),
                None => index >= self.strength@.len(),
            },
    {
        if index < self.strength.len() {
            let mut strength = self.strength.clone();
            strength.set(index, F32_ONE_BITS);
            Some(HapticState { strength })
        } else {
            None
        }
    }
}

/// Number of recent samples kept per channel.
pub const HISTORY_DEPTH: usize = 6;

/// The most recent samples of one channel, newest first, at a fixed depth: each new sample
/// pushes the oldest one out.
pub struct SampleHistory<T> {
    samples: VecDeque<T>,
}

impl<T> View for SampleHistory<T> {
    type V = Seq<T>;

    closed spec fn view(&self) -> Seq<T> {
        self.samples@
    }
}

impl<T: Copy> SampleHistory<T> {
    /// A history of `depth` copies of `fill`.
    pub fn new(depth: usize, fill: T) -> (h: Self)
        ensures
            h@ == Seq::new(depth as nat, |i: int| fill),
    {
        let mut samples: VecDeque<T> = VecDeque::new();
        let mut i: usize = 0;
        while i < depth
            invariant
                i <= depth,
                samples@ == Seq::new(i as nat, |k: int| fill),
            decreases depth - i,
        {
            samples.push_back(fill);
            i = i + 1;
        }
        SampleHistory { samples }
    }
}

/// A history, newest first, after `sample` arrives: the oldest entry leaves (an empty
/// history just takes the sample).
pub open spec fn push_newest<T>(history: Seq<T>, sample: T) -> Seq<T> {
    if history.len() == 0 {
        seq![sample]
    } else {
        seq![sample] + history.drop_last()
    }
}

/// A history after the samples `samples` arrive, in order.
pub open spec fn after_samples<T>(history: Seq<T>, samples: Seq<T>) -> Seq<T>
    decreases samples.len(),
{
    if samples.len() == 0 {
        history
    } else {
        push_newest(after_samples(history, samples.drop_last()), samples.last())
    }
}

/// A non-empty history keeps its depth, and after any run of samples it holds the most
/// recent ones, newest first, followed by the newest of the entries it held before.
pub proof fn law_history_window<T>(history: Seq<T>, samples: Seq<T>)
    requires
        history.len() > 0,
    ensures
        after_samples(history, samples).len() == history.len(),
        forall|i: int|
            0 <= i < history.len() ==> #[trigger] after_samples(history, samples)[i] == if i
                < samples.len() {
                samples[samples.len() - 1 - i]
            } else {
                history[i - samples.len()]
            },
    decreases samples.len(),
{
    if samples.len() > 0 {
        law_history_window(history, samples.drop_last());
    }
}

impl<T> SampleHistory<T> {
    /// Records `sample` as the newest one, dropping the oldest.
    pub fn append(&mut self, sample: T)
        ensures
            final(self)@ == push_newest(old(self)@, sample),
    {
        let _ = self.samples.pop_back();
        self.samples.push_front(sample);
        assert(self@ =~= push_newest(old(self)@, sample));
    }

    /// The samples, newest first.
    pub fn samples(&self) -> (s: &VecDeque<T>)
        ensures
            s@ == self@,
    {
        &self.samples
    }
}

/// The channel histories after `sample` arrives for channel `index`: that channel takes it
/// as its newest sample, and a sample for a channel that does not exist changes nothing.
pub open spec fn bank_recorded<T>(bank: Seq<Seq<T>>, index: int, sample: T) -> Seq<Seq<T>> {
    if 0 <= index < bank.len() {
        bank.update(index, push_newest(bank[index], sample))
    } else {
        bank
    }
}

/// The channel histories after the `(channel, sample)` pairs `records` arrive, in order.
pub open spec fn bank_after<T>(bank: Seq<Seq<T>>, records: Seq<(usize, T)>) -> Seq<Seq<T>>
    decreases records.len(),
{
    if records.len() == 0 {
        bank
    } else {
        bank_recorded(bank_after(bank, records.drop_last()), records.last().0 as int, records.last().1)
    }
}

/// Whatever samples arrive, the haptic state keeps its size: the number of channels and the
/// depth of each non-empty channel history stay as they were.
pub proof fn law_bank_keeps_shape<T>(bank: Seq<Seq<T>>, records: Seq<(usize, T)>)
    requires
        forall|i: int| 0 <= i < bank.len() ==> #[trigger] bank[i].len() > 0,
    ensures
        bank_after(bank, records).len() == bank.len(),
        forall|i: int| 0 <= i < bank.len() ==> #[trigger] bank_after(bank, records)[i].len() == bank[i].len(),
    decreases records.len(),
{
    if records.len() > 0 {
        law_bank_keeps_shape(bank, records.drop_last());
    }
}

/// One sample history per haptic channel.
pub struct ChannelBank<T> {
    channels: Vec<SampleHistory<T>>,
}

impl<T> View for ChannelBank<T> {
    type V = Seq<Seq<T>>;

    closed spec fn view(&self) -> Seq<Seq<T>> {
        self.channels@.map_values(|h: SampleHistory<T>| h@)
    }
}

impl<T: Copy> ChannelBank<T> {
    /// `count` channels, each holding `depth` copies of `fill`.
    pub fn new(count: usize, depth: usize, fill: T) -> (b: Self)
        ensures
            b@ == Seq::new(count as nat, |i: int| Seq::new(depth as nat, |k: int| fill)),
    {
        let mut channels: Vec<SampleHistory<T>> = Vec::new();
        let mut i: usize = 0;
        while i < count
            invariant
                i <= count,
                channels@.len() == i,
                forall|k: int| 0 <= k < i ==> #[trigger] channels@[k]@ == Seq::new(depth as nat, |j: int| fill),
            decreases count - i,
        {
            channels.push(SampleHistory::new(depth, fill));
            i = i + 1;
        }
        let b = ChannelBank { channels };
        assert(b@ =~= Seq::new(count as nat, |i: int| Seq::new(depth as nat, |k: int| fill)));
        b
    }
}

impl<T> ChannelBank<T> {
    /// The number of channels.
    pub fn len(&self) -> (n: usize)
        ensures
            n == self@.len(),
    {
        self.channels.len()
    }

    /// The history of channel `index`.
    pub fn channel(&self, index: usize) -> (h: &SampleHistory<T>)
        requires
            index < self@.len(),
        ensures
            h@ == self@[index as int],
    {
        &self.channels[index]
    }

    /// Records `sample` on channel `index`; a sample for a channel that does not exist is
    /// dropped. The answer tells whether the sample was recorded.
    pub fn record(&mut self, index: usize, sample: T) -> (recorded: bool)
        ensures
            recorded == (index < old(self)@.len()),
            final(self)@ == bank_recorded(old(self)@, index as int, sample),
    {
        if index >= self.channels.len() {
            return false;
        }
        let ghost before = self.channels@;
        let mut h = self.channels.remove(index);
        h.append(sample);
        self.channels.insert(index, h);
        assert(self.channels@ == before.update(index as int, h));
        assert(self@ =~= bank_recorded(old(self)@, index as int, sample));
        true
    }
}

} // verus!

verus! {

/// A sample for an existing channel becomes that channel's newest one, pushes out its
/// oldest, and leaves every other channel and the number of channels as they were.
pub proof fn law_record_touches_only_its_channel<T>(bank: Seq<Seq<T>>, index: int, sample: T)
    requires
        0 <= index < bank.len(),
        bank[index].len() > 0,
    ensures
        bank_recorded(bank, index, sample).len() == bank.len(),
        bank_recorded(bank, index, sample)[index] == seq![sample] + bank[index].take(bank[index].len() - 1),
        bank_recorded(bank, index, sample)[index].len() == bank[index].len(),
        forall|j: int| 0 <= j < bank.len() && j != index ==> #[trigger] bank_recorded(bank, index, sample)[j] == bank[j],
{
}

} // verus!

verus! {

/// The frame holds four bytes per channel, in channel order, each channel's value least
/// significant byte first.
pub proof fn law_frame_little_endian(values: Seq<u32>, i: int)
    requires
        0 <= i < values.len(),
    ensures
        le_frame(values).len() == 4 * values.len(),
        le_frame(values)[4 * i] == values[i] % 0x100,
        le_frame(values)[4 * i + 1] == (values[i] / 0x100) % 0x100,
        le_frame(values)[4 * i + 2] == (values[i] / 0x1_0000) % 0x100,
        le_frame(values)[4 * i + 3] == values[i] / 0x100_0000,
{
    lemma_le_frame_len(values);
    lemma_le_frame_bytes(values, i);
    let b = le_frame(values).subrange(4 * i, 4 * i + 4);
    assert(b[0] == le_frame(values)[4 * i]);
    assert(b[1] == le_frame(values)[4 * i + 1]);
    assert(b[2] == le_frame(values)[4 * i + 2]);
    assert(b[3] == le_frame(values)[4 * i + 3]);
}

} // verus!
