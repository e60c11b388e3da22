//! Keyboard key repetition.
//!
//! The timers that drive repetition are the caller's: each operation returns
//! what to do with them.

use vstd::prelude::*;

verus! {

/// Key repetition configured by the compositor.
#[derive(PartialEq, Eq, Structural, Copy, Clone, Debug)]
pub enum RepeatInfo {
    /// Repeat after `delay` milliseconds, `rate` times per second.
    Repeat { rate: u32, delay: u32 },
    /// Keys do not repeat.
    Disable,
}

/// Active keyboard repeat state.
#[derive(PartialEq, Eq, Structural, Copy, Clone, Debug)]
pub struct CurrentRepeat {
    pub interval: u32,
    pub time: u32,
    pub raw: u32,
}

impl CurrentRepeat {
    /// Repetition of key `raw` pressed at `time`, first due after `interval`.
    pub fn new(raw: u32, time: u32, interval: u32) -> (r: Self)
        ensures
            r == (CurrentRepeat { interval, time, raw }),
    {
        CurrentRepeat { time, interval, raw }
    }

    /// Get the next key event timestamp.
    pub fn next_time(&mut self) -> (t: u32)
        requires
            old(self).time + old(self).interval <= u32::MAX,
        ensures
            t == old(self).time + old(self).interval,
            *final(self) == (CurrentRepeat { time: t, ..*old(self) }),
    {
        self.time = self.time + self.interval;
        self.time
    }
}

/// Timer to start for a repeating key: fire after `delay` milliseconds, then
/// repeat `rate` times per second.
#[derive(PartialEq, Eq, Structural, Copy, Clone, Debug)]
pub struct RepeatStart {
    pub raw: u32,
    pub delay: u32,
    pub rate: u32,
}

/// Timer work requested by a key event.
#[derive(PartialEq, Eq, Structural, Copy, Clone, Debug)]
pub struct RepeatTimers {
    /// Stop the timer of the repetition that was active.
    pub cancel: bool,
    /// Start a timer for a repeating key.
    pub start: Option<RepeatStart>,
}

/// Key repetition state of a keyboard.
pub struct KeyRepeat {
    pub repeat_info: RepeatInfo,
    pub current_repeat: Option<CurrentRepeat>,
}

impl KeyRepeat {
    /// Keyboard without repetition.
    pub fn new() -> (k: Self)
        ensures
            k.repeat_info == RepeatInfo::Disable,
            k.current_repeat is None,
    {
        KeyRepeat { repeat_info: RepeatInfo::Disable, current_repeat: None }
    }

    /// Cancel currently staged key repetition, returning whether one was
    /// active.
    pub fn cancel_repeat(&mut self) -> (cancelled: bool)
        ensures
            cancelled == old(self).current_repeat is Some,
            final(self).current_repeat is None,
            final(self).repeat_info == old(self).repeat_info,
    {
        let cancelled = self.current_repeat.is_some();
        self.current_repeat = None;
        cancelled
    }

    /// Stage new key repetition: any previous repetition stops, and a new one
    /// starts when repetition is enabled, first due after the delay.
    pub fn request_repeat(&mut self, time: u32, raw: u32) -> (timers: RepeatTimers)
        ensures
            timers.cancel == old(self).current_repeat is Some,
            final(self).repeat_info == old(self).repeat_info,
            match old(self).repeat_info {
                RepeatInfo::Repeat { rate, delay } => {
                    &&& timers.start == Some(RepeatStart { raw, delay, rate })
                    &&& final(self).current_repeat == Some(CurrentRepeat { raw, time, interval: delay })
                },
                RepeatInfo::Disable => timers.start is None && final(self).current_repeat is None,
            },
    {
        let cancel = self.cancel_repeat();
        match self.repeat_info {
            RepeatInfo::Repeat { rate, delay } => {
                self.current_repeat = Some(CurrentRepeat::new(raw, time, delay));
                RepeatTimers { cancel, start: Some(RepeatStart { raw, delay, rate }) }
            },
            RepeatInfo::Disable => RepeatTimers { cancel, start: None },
        }
    }

    /// Handle a key press: modifier keys never repeat.
    pub fn press_key(&mut self, time: u32, raw: u32, is_modifier: bool) -> (timers: RepeatTimers)
        ensures
            is_modifier ==> timers == (RepeatTimers { cancel: false, start: None })
                && final(self).current_repeat == old(self).current_repeat,
            !is_modifier ==> timers.cancel == old(self).current_repeat is Some && match old(
                self,
            ).repeat_info {
                RepeatInfo::Repeat { rate, delay } => {
                    &&& timers.start == Some(RepeatStart { raw, delay, rate })
                    &&& final(self).current_repeat == Some(CurrentRepeat { raw, time, interval: delay })
                },
                RepeatInfo::Disable => timers.start is None && final(self).current_repeat is None,
            },
            final(self).repeat_info == old(self).repeat_info,
    {
        if is_modifier {
            RepeatTimers { cancel: false, start: None }
        } else {
            self.request_repeat(time, raw)
        }
    }

    /// Handle a key release: the repetition stops if the released key is the
    /// one repeating. Returns whether it stopped.
    pub fn release_key(&mut self, raw: u32) -> (cancelled: bool)
        ensures
            cancelled == (old(self).current_repeat matches Some(r) && r.raw == raw),
            final(self).current_repeat == (if cancelled {
                None
            } else {
                old(self).current_repeat
            }),
            final(self).repeat_info == old(self).repeat_info,
    {
        let repeating = match self.current_repeat {
            Some(repeat) => repeat.raw == raw,
            None => false,
        };
        if repeating {
            self.cancel_repeat()
        } else {
            false
        }
    }
}

} // verus!
