//! Level and line bookkeeping: the gravity duration table and the
//! lines-to-level-up rule.

use vstd::prelude::*;

verus! {

/// The current level; governs how fast the piece falls.
#[derive(Debug, Clone, Copy, PartialEq, Eq, Structural)]
pub struct Level(pub u8);

impl Default for Level {
    fn default() -> (l: Level)
        ensures
            l == (Level(9)),
    {
        Level(9)
    }
}

impl Level {
    /// How many frames of a 60 Hz display one gravity step takes at this level.
    pub open spec fn spec_frames(self) -> u64 {
        let l = self.0;
        if l == 0 {
            48u64
        } else if l == 1 {
            43u64
        } else if l == 2 {
            38u64
        } else if l == 3 {
            33u64
        } else if l == 4 {
            28u64
        } else if l == 5 {
            23u64
        } else if l == 6 {
            18u64
        } else if l == 7 {
            13u64
        } else if l == 8 {
            8u64
        } else if l == 9 {
            6u64
        } else if 10 <= l <= 12 {
            5u64
        } else if 13 <= l <= 15 {
            4u64
        } else if 16 <= l <= 18 {
            3u64
        } else if 19 <= l <= 28 {
            2u64
        } else {
            1u64
        }
    }

    /// The wall-clock duration of one gravity step at this level, in
    /// milliseconds: the frame count of the table converted at 60 frames
    /// per 1000 ms, rounded down.
    pub open spec fn spec_duration_ms(self) -> u64 {
        (self.spec_frames() * 1000 / 60) as u64
    }

    /// Look the gravity step duration up, in milliseconds.
    pub fn get_duraiton(&self) -> (ms: u64)
        ensures
            ms == self.spec_duration_ms(),
    {
        let frames: u64 = match self.0 {
            0 => 48,
            1 => 43,
            2 => 38,
            3 => 33,
            4 => 28,
            5 => 23,
            6 => 18,
            7 => 13,
            8 => 8,
            9 => 6,
            10..=12 => 5,
            13..=15 => 4,
            16..=18 => 3,
            19..=28 => 2,
            _ => 1,
        };
        frames * 1000 / 60
    }
}

/// Cleared-line counters: the total ever cleared, and the progress toward
/// the next level-up.
#[derive(Debug, Clone, Copy, PartialEq, Eq, Structural, Default)]
pub struct Lines {
    pub total_lines: usize,
    pub current_level_lines: usize,
}

impl Lines {
    /// Progress toward the next level never reaches a full ten.
    pub open spec fn well_formed(self) -> bool {
        self.current_level_lines < 10
    }
}

/// The player's score.
#[derive(Debug, Clone, Copy, PartialEq, Eq, Structural, Default)]
pub struct Score(pub usize);

/// A report that a number of lines was cleared in one frame.
#[derive(Debug, Clone, Copy, PartialEq, Eq, Structural, Default)]
pub struct LinesIncrementEvent(pub usize);

/// Credit the cleared lines to the counters, then level up once for every
/// full ten lines of progress, carrying the remainder.
pub fn level_up(lines: &mut Lines, level: &mut Level, event: LinesIncrementEvent)
    requires
        old(lines).well_formed(),
        event.0 <= crate::board::BOARD_ROWS,
        old(lines).total_lines + event.0 <= usize::MAX,
        old(level).0 + (old(lines).current_level_lines + event.0) / 10 <= u8::MAX,
    ensures
        final(lines).well_formed(),
        final(lines).total_lines == old(lines).total_lines + event.0,
        final(lines).current_level_lines == (old(lines).current_level_lines + event.0) % 10,
        final(level).0 == old(level).0 + (old(lines).current_level_lines + event.0) / 10,
{
    let n = event.0;
    lines.total_lines = lines.total_lines + n;
    lines.current_level_lines = lines.current_level_lines + n;
    while lines.current_level_lines >= 10
        invariant
            lines.current_level_lines + 10 * level.0 == old(lines).current_level_lines + event.0
                + 10 * old(level).0,
            level.0 <= old(level).0 + (old(lines).current_level_lines + event.0) / 10,
            lines.total_lines == old(lines).total_lines + event.0,
            old(level).0 + (old(lines).current_level_lines + event.0) / 10 <= u8::MAX,
        decreases lines.current_level_lines,
    {
        proof {
            let s = old(lines).current_level_lines + event.0;
            let ol = old(level).0 as int;
            assert(10 * (level.0 + 1) <= s + 10 * ol);
            assert((s + 10 * ol) / 10 == ol + s / 10);
            assert(level.0 + 1 <= ol + s / 10);
        }
        lines.current_level_lines = lines.current_level_lines - 10;
        level.0 = level.0 + 1;
    }
}

} // verus!
