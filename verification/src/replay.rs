//! When a measurement is due in a replay.
use vstd::prelude::*;

use crate::ieee;
use crate::nanos;

verus! {

/// Maps the sensors' time to the replay's. The speed is the bit pattern of a
/// 64-bit float; instants are in nanoseconds.
pub struct ReplayClock {
    first_timestamp_ns: i64,
    started_at: u128,
    speed: u64,
}

/// What a clock is made of.
pub struct ClockModel {
    pub first_timestamp_ns: i64,
    pub started_at: u128,
    pub speed: u64,
}

impl View for ReplayClock {
    type V = ClockModel;

    closed spec fn view(&self) -> ClockModel {
        ClockModel {
            first_timestamp_ns: self.first_timestamp_ns,
            started_at: self.started_at,
            speed: self.speed,
        }
    }
}

impl ClockModel {
    /// The speed is zero: nothing waits.
    pub open spec fn unpaced(self) -> bool {
        ieee::f64_magnitude(self.speed) == 0
    }

    /// How long after the first measurement a sensor's time is, as far as 64
    /// signed bits reach.
    pub open spec fn offset(self, timestamp_ns: i64) -> i64 {
        nanos::saturated(timestamp_ns - self.first_timestamp_ns)
    }

    /// The instant is one at which a measurement of that time may be due: the
    /// start where nothing waits, and else as long after it as `scale` says.
    pub open spec fn is_due<F: Fn(i64, u64) -> u64>(
        self,
        timestamp_ns: i64,
        scale: F,
        due: u128,
    ) -> bool {
        if self.unpaced() {
            due == self.started_at
        } else {
            exists|delay: u64| #[trigger]
                call_ensures(scale, (self.offset(timestamp_ns), self.speed), delay) && due
                    == self.started_at + delay
        }
    }
}

/// Whether a replay can run at a speed: not backwards.
pub fn is_speed(speed: u64) -> (good: bool)
    ensures
        good == ieee::f64_le(0, speed),
{
    ieee::le64(0, speed)
}

impl ReplayClock {
    pub fn new(first_timestamp_ns: i64, speed: u64, started_at: u128) -> (clock: ReplayClock)
        ensures
            clock@ == (ClockModel { first_timestamp_ns, started_at, speed }),
    {
        ReplayClock { first_timestamp_ns, started_at, speed }
    }

    /// When a measurement of that time is due. `scale` gives the delay for an
    /// offset, in nanoseconds, at a speed.
    pub fn due_at<F: Fn(i64, u64) -> u64>(&self, timestamp_ns: i64, scale: F) -> (due: u128)
        requires
            self@.started_at + u64::MAX <= u128::MAX,
            forall|offset: i64, speed: u64| #[trigger] call_requires(scale, (offset, speed)),
        ensures
            self@.is_due(timestamp_ns, scale, due),
    {
        if ieee::is_zero64(self.speed) {
            return self.started_at;
        }
        let offset: i64 = nanos::saturate(
            timestamp_ns as i128 - self.first_timestamp_ns as i128,
        );
        let delay: u64 = scale(offset, self.speed);
        self.started_at + delay as u128
    }

    /// How long to wait, at the instant `now`, for a measurement of that time:
    /// nothing where it was due before.
    pub fn wait_until<F: Fn(i64, u64) -> u64>(
        &self,
        timestamp_ns: i64,
        now: u128,
        scale: F,
    ) -> (wait: Option<u128>)
        requires
            self@.started_at + u64::MAX <= u128::MAX,
            forall|offset: i64, speed: u64| #[trigger] call_requires(scale, (offset, speed)),
        ensures
            exists|due: u128| #[trigger]
                self@.is_due(timestamp_ns, scale, due) && wait == if due >= now {
                    Some((due - now) as u128)
                } else {
                    None
                },
    {
        let due: u128 = self.due_at(timestamp_ns, scale);
        if due >= now {
            Some(due - now)
        } else {
            None
        }
    }
}

/// Later measurements are not due earlier: their offsets keep their order.
pub proof fn law_offsets_keep_their_order(clock: ClockModel, earlier: i64, later: i64)
    requires
        earlier <= later,
    ensures
        clock.offset(earlier) <= clock.offset(later),
        clock.offset(clock.first_timestamp_ns) == 0,
{
}

/// Where `scale` gives no smaller delay for a greater offset, a later measurement
/// is not due earlier; where it gives none up to zero, no measurement is due after
/// the start that is not after the first one. At speed zero both hold of any.
pub proof fn law_later_is_not_due_earlier<F: Fn(i64, u64) -> u64>(
    clock: ClockModel,
    scale: F,
    earlier: i64,
    later: i64,
    due: u128,
    later_due: u128,
)
    requires
        earlier <= later,
        clock.is_due(earlier, scale, due),
        clock.is_due(later, scale, later_due),
        !clock.unpaced() ==> forall|low: i64, high: i64, delay: u64, longer: u64|
            low <= high && #[trigger] call_ensures(scale, (low, clock.speed), delay)
                && #[trigger] call_ensures(scale, (high, clock.speed), longer) ==> delay <= longer,
        !clock.unpaced() ==> forall|offset: i64, delay: u64|
            offset <= 0 && #[trigger] call_ensures(scale, (offset, clock.speed), delay) ==> delay
                == 0,
    ensures
        clock.started_at <= due <= later_due,
        later <= clock.first_timestamp_ns ==> later_due == clock.started_at,
        clock.unpaced() ==> due == clock.started_at && later_due == clock.started_at,
{
    law_offsets_keep_their_order(clock, earlier, later);
}

/// A measurement is due as long after the start as `scale` makes of the time since
/// the first measurement; at speed zero it is due at the start.
pub proof fn law_measurements_are_due_after_their_delay<F: Fn(i64, u64) -> u64>(
    clock: ClockModel,
    scale: F,
    timestamp_ns: i64,
    due: u128,
)
    requires
        clock.is_due(timestamp_ns, scale, due),
    ensures
        clock.speed == 0 || clock.speed == 0x8000_0000_0000_0000 ==> due == clock.started_at,
        clock.speed != 0 && clock.speed != 0x8000_0000_0000_0000 ==> exists|
            offset: i64,
            delay: u64,
        |
            {
                &&& #[trigger] call_ensures(scale, (offset, clock.speed), delay)
                &&& due - clock.started_at == delay
                &&& clock.first_timestamp_ns + offset == timestamp_ns || offset == i64::MAX
                    || offset == i64::MIN
            },
{
    if clock.speed != 0 && clock.speed != 0x8000_0000_0000_0000 {
        let delay = choose|delay: u64| #[trigger]
            call_ensures(scale, (clock.offset(timestamp_ns), clock.speed), delay) && due
                == clock.started_at + delay;
        let offset = clock.offset(timestamp_ns);
        assert(call_ensures(scale, (offset, clock.speed), delay));
    }
}

/// The offset is the time since the first measurement wherever 64 signed bits hold
/// it.
pub proof fn law_offsets_count_from_the_first(clock: ClockModel, timestamp_ns: i64)
    ensures
        i64::MIN <= timestamp_ns - clock.first_timestamp_ns <= i64::MAX
            ==> clock.first_timestamp_ns + clock.offset(timestamp_ns) == timestamp_ns,
        timestamp_ns >= clock.first_timestamp_ns <==> clock.offset(timestamp_ns) >= 0,
{
}

} // verus!
