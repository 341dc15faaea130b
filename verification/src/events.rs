use vstd::prelude::*;

verus! {

/// Without changes to report, events are published on every this-many-th tick.
pub const EVENTS_PERIOD_TICKS: u64 = 10;

/// What the once-a-second events task does on one tick.
#[derive(Clone, Copy, Debug, PartialEq, Eq, Structural)]
pub struct EventTickAction {
    /// New value of the waterfall throughput gauge, in kbit/s.
    pub waterfall_kbits_per_sec: u64,
    /// New value of the audio throughput gauge, in kbit/s.
    pub audio_kbits_per_sec: u64,
    /// `Some(include_changes)` when an events message is built and sent to the
    /// event clients, `None` when this tick sends nothing.
    pub publish: Option<bool>,
}

/// Some receiver has signal changes to report.
pub open spec fn any_true(s: Seq<bool>) -> bool {
    exists|i: int| 0 <= i < s.len() && s[i]
}

/// Whether tick number `tick` (counted from 1) publishes, and with what.
pub open spec fn tick_publish(tick: u64, include_changes: bool) -> Option<bool> {
    if !include_changes && tick % EVENTS_PERIOD_TICKS != 0 {
        None
    } else {
        Some(include_changes)
    }
}

/// The action of tick number `tick`, given the bits counted since the last
/// tick, the configured number of other users shown, and which receivers have
/// signal changes. Changes are reported only when other users are shown.
pub open spec fn tick_action_spec(
    tick: u64,
    waterfall_bits: u64,
    audio_bits: u64,
    other_users: i64,
    receivers_with_changes: Seq<bool>,
) -> EventTickAction {
    let include_changes = other_users > 0 && any_true(receivers_with_changes);
    EventTickAction {
        waterfall_kbits_per_sec: waterfall_bits / 1000,
        audio_kbits_per_sec: audio_bits / 1000,
        publish: tick_publish(tick, include_changes),
    }
}

/// The tick counter of the events task.
pub struct EventTicker {
    tick: u64,
}

impl View for EventTicker {
    type V = u64;

    closed spec fn view(&self) -> u64 {
        self.tick
    }
}

impl EventTicker {
    /// A ticker before its first tick.
    pub fn new() -> (t: Self)
        ensures
            t@ == 0,
    {
        EventTicker { tick: 0 }
    }

    /// Ticks elapsed.
    pub fn ticks(&self) -> (n: u64)
        ensures
            n == self@,
    {
        self.tick
    }

    /// Advances to the next tick and decides what it does.
    pub fn on_tick(
        &mut self,
        waterfall_bits: u64,
        audio_bits: u64,
        other_users: i64,
        receivers_with_changes: &[bool],
    ) -> (action: EventTickAction)
        requires
            old(self)@ < u64::MAX,
        ensures
            final(self)@ == old(self)@ + 1,
            action == tick_action_spec(
                final(self)@,
                waterfall_bits,
                audio_bits,
                other_users,
                receivers_with_changes@,
            ),
    {
        self.tick = self.tick + 1;
        let mut any_changes = false;
        let mut i: usize = 0;
        while i < receivers_with_changes.len()
            invariant
                0 <= i <= receivers_with_changes@.len(),
                any_changes == exists|j: int| 0 <= j < i && receivers_with_changes@[j],
            decreases receivers_with_changes.len() - i,
        {
            if receivers_with_changes[i] {
                any_changes = true;
            }
            i = i + 1;
        }
        let include_changes = other_users > 0 && any_changes;
        let publish = if !include_changes && self.tick % EVENTS_PERIOD_TICKS != 0 {
            None
        } else {
            Some(include_changes)
        };
        EventTickAction {
            waterfall_kbits_per_sec: waterfall_bits / 1000,
            audio_kbits_per_sec: audio_bits / 1000,
            publish,
        }
    }
}

/// Bits carried by an audio packet of `len` bytes.
pub fn packet_bits(len: usize) -> (bits: usize)
    requires
        len * 8 <= usize::MAX,
    ensures
        bits == len * 8,
{
    len * 8
}

/// However quiet the receivers, an events message goes out at least once in
/// every `EVENTS_PERIOD_TICKS` consecutive ticks; with changes to report it
/// goes out on every tick and carries them.
pub proof fn law_events_published_periodically(tick: u64, include_changes: bool)
    requires
        tick <= u64::MAX - EVENTS_PERIOD_TICKS,
    ensures
        exists|k: u64|
            1 <= k <= EVENTS_PERIOD_TICKS && #[trigger] tick_publish((tick + k) as u64, false)
                is Some,
        include_changes ==> tick_publish(tick, include_changes) == Some(true),
{
    let k = (EVENTS_PERIOD_TICKS - tick % EVENTS_PERIOD_TICKS) as u64;
    assert(((tick + k) as u64) % EVENTS_PERIOD_TICKS == 0);
    assert(tick_publish((tick + k) as u64, false) is Some);
}

/// A tick in terms of its inputs: the gauges are the bits counted since the
/// last tick in whole kilobits; when other users are shown and any receiver,
/// at any position, has signal changes, the tick publishes them; otherwise it
/// publishes (without changes) only on every tenth tick.
pub proof fn law_tick_by_inputs(
    tick: u64,
    waterfall_bits: u64,
    audio_bits: u64,
    other_users: i64,
    receivers_with_changes: Seq<bool>,
)
    ensures
        ({
            let a = tick_action_spec(
                tick,
                waterfall_bits,
                audio_bits,
                other_users,
                receivers_with_changes,
            );
            &&& a.waterfall_kbits_per_sec * 1000 <= waterfall_bits < (a.waterfall_kbits_per_sec
                + 1) * 1000
            &&& a.audio_kbits_per_sec * 1000 <= audio_bits < (a.audio_kbits_per_sec + 1) * 1000
            &&& (other_users > 0 && exists|i: int|
                0 <= i < receivers_with_changes.len() && #[trigger] receivers_with_changes[i])
                ==> a.publish == Some(true)
            &&& (other_users <= 0 || forall|i: int|
                0 <= i < receivers_with_changes.len() ==> !#[trigger] receivers_with_changes[i])
                ==> a.publish == (if tick % 10 == 0 {
                Some(false)
            } else {
                None
            })
        }),
{
}

} // verus!
