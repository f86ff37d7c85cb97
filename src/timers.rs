//! The delay and sound timers, which count down at 60 Hz.

use vstd::prelude::*;

verus! {

/// Nanoseconds between two timer ticks.
pub const FREQ_60HZ: u64 = 16_666_667;

/// The two 8-bit countdown cells.
pub struct Chip8Timers {
    delay_timer: u8,
    sound_timer: u8,
}

/// A cell after one tick: it decreases by one unless it is already zero.
pub open spec fn tick_value(v: u8) -> u8 {
    if v > 0 {
        (v - 1) as u8
    } else {
        0
    }
}

impl Chip8Timers {
    /// The delay timer's value.
    pub closed spec fn delay(&self) -> u8 {
        self.delay_timer
    }

    /// The sound timer's value.
    pub closed spec fn sound(&self) -> u8 {
        self.sound_timer
    }

    /// Both timers at zero.
    pub fn init() -> (r: Chip8Timers)
        ensures
            r.delay() == 0,
            r.sound() == 0,
    {
        Chip8Timers { delay_timer: 0, sound_timer: 0 }
    }

    pub fn set_delay(&mut self, value: u8)
        ensures
            final(self).delay() == value,
            final(self).sound() == old(self).sound(),
    {
        self.delay_timer = value;
    }

    pub fn read_delay(&self) -> (r: u8)
        ensures
            r == self.delay(),
    {
        self.delay_timer
    }

    pub fn set_sound(&mut self, value: u8)
        ensures
            final(self).sound() == value,
            final(self).delay() == old(self).delay(),
    {
        self.sound_timer = value;
    }

    pub fn read_sound(&self) -> (r: u8)
        ensures
            r == self.sound(),
    {
        self.sound_timer
    }

    /// One 60 Hz tick: each non-zero timer decreases by one.
    pub fn tick(&mut self)
        ensures
            final(self).delay() == tick_value(old(self).delay()),
            final(self).sound() == tick_value(old(self).sound()),
    {
        if self.delay_timer > 0 {
            self.delay_timer -= 1;
        }
        if self.sound_timer > 0 {
            self.sound_timer -= 1;
        }
    }
}

} // verus!
