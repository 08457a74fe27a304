//! Cursor blinking, driven by an epoch counter so that stale timers are ignored.
use vstd::prelude::*;

verus! {

/// Blink state of a text cursor: whether it shows, and the epoch of the current timer.
pub struct CursorBlink {
    visible: bool,
    epoch: usize,
}

impl View for CursorBlink {
    type V = (bool, usize);

    closed spec fn view(&self) -> (bool, usize) {
        (self.visible, self.epoch)
    }
}

/// The epoch that follows `e` (it wraps around).
pub open spec fn next_epoch(e: usize) -> usize {
    if e == usize::MAX {
        0
    } else {
        (e + 1) as usize
    }
}

/// Time between two blinks of the cursor, in milliseconds.
pub const BLINK_INTERVAL_MS: u64 = 530;

/// A blink timer for the caller to schedule: after `delay_ms` milliseconds it fires
/// `CursorBlink::blink` with `epoch`.
#[derive(Clone, Copy, Debug, PartialEq, Eq)]
pub struct BlinkTimer {
    pub epoch: usize,
    pub delay_ms: u64,
}

impl CursorBlink {
    /// A blink state with the cursor shown.
    pub fn new() -> (s: Self)
        ensures
            s@ == (true, 0usize),
    {
        CursorBlink { visible: true, epoch: 0 }
    }

    /// Whether the cursor currently shows.
    pub fn visible(&self) -> (r: bool)
        ensures
            r == self@.0,
    {
        self.visible
    }

    /// Shows the cursor and starts a new epoch, which makes every earlier timer stale;
    /// returns the timer to schedule: the new epoch, one blink interval from now (after
    /// cursor movement or an edit).
    pub fn reset(&mut self) -> (timer: BlinkTimer)
        ensures
            final(self)@ == blink_step(old(self)@, BlinkEvent::Reset),
            final(self)@ == (true, next_epoch(old(self)@.1)),
            timer == (BlinkTimer { epoch: final(self)@.1, delay_ms: BLINK_INTERVAL_MS }),
    {
        self.visible = true;
        self.epoch = self.epoch.wrapping_add(1);
        BlinkTimer { epoch: self.epoch, delay_ms: BLINK_INTERVAL_MS }
    }

    /// Shows the cursor and starts a new epoch, which makes every earlier timer stale;
    /// returns the timer to schedule: the new epoch, one blink interval from now (when the
    /// input gains focus).
    pub fn start(&mut self) -> (timer: BlinkTimer)
        ensures
            final(self)@ == blink_step(old(self)@, BlinkEvent::Start),
            final(self)@ == (true, next_epoch(old(self)@.1)),
            timer == (BlinkTimer { epoch: final(self)@.1, delay_ms: BLINK_INTERVAL_MS }),
    {
        self.visible = true;
        self.epoch = self.epoch.wrapping_add(1);
        BlinkTimer { epoch: self.epoch, delay_ms: BLINK_INTERVAL_MS }
    }

    /// Stops blinking: a new epoch makes pending timers stale, and the cursor shows.
    pub fn stop(&mut self)
        ensures
            final(self)@ == blink_step(old(self)@, BlinkEvent::Stop),
            final(self)@ == (true, next_epoch(old(self)@.1)),
    {
        self.epoch = self.epoch.wrapping_add(1);
        self.visible = true;
    }

    /// A blink timer of `epoch` fired: for the current epoch the cursor toggles, and the
    /// result asks the caller to redraw and schedule the next timer of the same epoch one
    /// blink interval from now; a stale timer changes nothing and schedules nothing.
    pub fn blink(&mut self, epoch: usize) -> (next: Option<BlinkTimer>)
        ensures
            final(self)@ == blink_step(old(self)@, BlinkEvent::Tick(epoch)),
            epoch == old(self)@.1 ==> final(self)@ == (!old(self)@.0, old(self)@.1) && next
                == Some(BlinkTimer { epoch: epoch, delay_ms: BLINK_INTERVAL_MS }),
            epoch != old(self)@.1 ==> final(self)@ == old(self)@ && next is None,
    {
        if epoch != self.epoch {
            return None;
        }
        self.visible = !self.visible;
        Some(BlinkTimer { epoch, delay_ms: BLINK_INTERVAL_MS })
    }
}

/// A timer from before a reset, start or stop never changes the cursor.
pub proof fn law_stale_timer_ignored(before: (bool, usize), after: (bool, usize), epoch: usize)
    requires
        after == (true, next_epoch(before.1)),
        epoch == before.1,
    ensures
        epoch != after.1,
{
}

/// What can happen to a blink state: a start, reset or stop call, or a blink timer of
/// some epoch firing.
pub enum BlinkEvent {
    Start,
    Reset,
    Stop,
    Tick(usize),
}

/// The blink state `(visible, epoch)` after one event: `start`, `reset` and `stop` show
/// the cursor and begin a new epoch; a timer toggles the cursor only for the current epoch.
/// (These are the contracts of `CursorBlink`'s methods.)
pub open spec fn blink_step(s: (bool, usize), e: BlinkEvent) -> (bool, usize) {
    match e {
        BlinkEvent::Tick(epoch) => if epoch == s.1 {
            (!s.0, s.1)
        } else {
            s
        },
        _ => (true, next_epoch(s.1)),
    }
}

/// The blink state after a sequence of events.
pub open spec fn blink_run(s: (bool, usize), events: Seq<BlinkEvent>) -> (bool, usize)
    decreases events.len(),
{
    if events.len() == 0 {
        s
    } else {
        blink_step(blink_run(s, events.drop_last()), events.last())
    }
}

/// The number of timers that fired for the then-current epoch since the last start,
/// reset or stop (or since the beginning).
pub open spec fn live_ticks(s: (bool, usize), events: Seq<BlinkEvent>) -> nat
    decreases events.len(),
{
    if events.len() == 0 {
        0
    } else {
        let before = blink_run(s, events.drop_last());
        match events.last() {
            BlinkEvent::Tick(epoch) => live_ticks(s, events.drop_last()) + if epoch == before.1 {
                1nat
            } else {
                0nat
            },
            _ => 0,
        }
    }
}

/// Starting from a shown cursor (as `new`, `start`, `reset` and `stop` leave it), the
/// cursor shows exactly when an even number of timers of the current epoch have fired since
/// the last start, reset or stop; stale timers never count.
pub proof fn law_blink_parity(s: (bool, usize), events: Seq<BlinkEvent>)
    requires
        s.0,
    ensures
        blink_run(s, events).0 == (live_ticks(s, events) % 2 == 0),
    decreases events.len(),
{
    if events.len() > 0 {
        law_blink_parity(s, events.drop_last());
    }
}

} // verus!
