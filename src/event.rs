use vstd::prelude::*;

verus! {

/// A key the dashboard reacts to.
#[derive(Clone, Copy, Debug, PartialEq, Eq, Structural)]
pub enum Key {
    Char(char),
    Backspace,
    Enter,
    Esc,
    Up,
    Down,
    Other,
}

/// Editing state of a text field.
#[derive(Clone, Copy, Debug, PartialEq, Eq, Structural)]
pub enum InputMode {
    Normal,
    Editing,
}

/// What the event loop hands to the dashboard.
#[derive(Clone, Copy, Debug, PartialEq, Eq, Structural)]
pub enum EventType {
    Input(Key),
    Tick,
    Refresh,
}

/// Paces the ticks of the event loop; times are milliseconds on the caller's
/// clock.
pub struct EventHandler {
    pub input_mode: InputMode,
    pub tick_rate: u64,
    pub last_tick: u64,
}

/// Time from `since` to `now`, or zero where the clock reads earlier.
pub open spec fn elapsed(since: u64, now: u64) -> int {
    if now >= since {
        now - since
    } else {
        0
    }
}

impl EventHandler {
    pub fn new(tick_rate: u64, now: u64) -> (r: Self)
        ensures
            r.input_mode == InputMode::Normal,
            r.tick_rate == tick_rate,
            r.last_tick == now,
    {
        EventHandler { input_mode: InputMode::Normal, tick_rate, last_tick: now }
    }

    /// How long to wait for input before the next tick is due.
    pub fn poll_timeout(&self, now: u64) -> (r: u64)
        ensures
            r == (if elapsed(self.last_tick, now) >= self.tick_rate {
                0
            } else {
                self.tick_rate - elapsed(self.last_tick, now)
            }),
    {
        let e: u64 = if now >= self.last_tick {
            now - self.last_tick
        } else {
            0
        };
        if e >= self.tick_rate {
            0
        } else {
            self.tick_rate - e
        }
    }

    /// When no key came within the timeout: a tick if one is due (and the next
    /// one is then counted from `now`), else nothing.
    pub fn next_tick(&mut self, now: u64) -> (r: Option<EventType>)
        ensures
            final(self).tick_rate == old(self).tick_rate,
            final(self).input_mode == old(self).input_mode,
            elapsed(old(self).last_tick, now) >= old(self).tick_rate ==> r == Some(EventType::Tick)
                && final(self).last_tick == now,
            elapsed(old(self).last_tick, now) < old(self).tick_rate ==> r.is_none()
                && final(self).last_tick == old(self).last_tick,
    {
        let e: u64 = if now >= self.last_tick {
            now - self.last_tick
        } else {
            0
        };
        if e >= self.tick_rate {
            self.last_tick = now;
            Some(EventType::Tick)
        } else {
            None
        }
    }
}

} // verus!
