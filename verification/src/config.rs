//! Tunable options of a performance and the geometry of the tracked volume.

use vstd::prelude::*;
use crate::midi::valid_channel;
use crate::scale::{minor_intervals, scale_fits};

verus! {

/// Left edge of the tracked volume, in millimetres.
pub const MIN_X: i32 = -300;

/// Right edge of the tracked volume.
pub const MAX_X: i32 = 300;

/// Height that maps to the bottom of the range. Heights run downwards: the
/// lowest mapped value sits at the top of the volume.
pub const MIN_Y: i32 = 500;

/// Height that maps to the top of the range.
pub const MAX_Y: i32 = 220;

/// Far edge of the tracked volume.
pub const MIN_Z: i32 = -100;

/// Near edge of the tracked volume.
pub const MAX_Z: i32 = 0;

/// Width of the pointer surface, in pixels.
pub const SCREEN_WIDTH: i32 = 1920;

/// Height of the pointer surface, in pixels.
pub const SCREEN_HEIGHT: i32 = 1020;

/// Why a configuration cannot be used to start a session.
#[derive(Clone, Copy, Debug, PartialEq, Eq, Structural)]
pub enum ConfigError {
    /// The channel is not one of the sixteen MIDI channels.
    InvalidChannel,
    /// The shortest note would last longer than the longest one.
    InvalidDurations,
    /// An axis of the tracked volume has no width, so nothing can be mapped
    /// from it.
    ZeroWidthRange,
    /// The scale would hold no pitch at all.
    EmptyScale,
    /// Some pitch of the scale would lie above the highest MIDI pitch.
    PitchOutOfRange,
}

/// The part of space in which the hand is tracked: on each axis the
/// coordinate that maps to the bottom of the range and the one that maps to
/// its top. The second may be the smaller one; the axis then runs backwards.
#[derive(Clone, Copy, Debug, PartialEq, Eq, Structural)]
pub struct Volume {
    pub min_x: i32,
    pub max_x: i32,
    pub min_y: i32,
    pub max_y: i32,
    pub min_z: i32,
    pub max_z: i32,
}

impl Volume {
    /// Every axis has a width.
    pub open spec fn wf(self) -> bool {
        self.min_x != self.max_x && self.min_y != self.max_y && self.min_z != self.max_z
    }
}

/// The options of a performance.
#[derive(Clone, Copy, Debug, PartialEq, Eq, Structural)]
pub struct Config {
    /// Lowest pitch of the scale.
    pub base_pitch: u8,
    /// Octaves that the scale spans.
    pub scale_octaves: u8,
    /// Positions that the moving average looks back on.
    pub moving_average_window: usize,
    /// Channel that everything is sent on, from 1 to 16.
    pub midi_channel: u8,
    /// Delay between chords at a rate of one, in milliseconds.
    pub base_delay_ms: u64,
    /// Finger distance below which the hand counts as pinched, in thousandths
    /// of a millimetre.
    pub pinch_threshold: u32,
    /// Seconds between two instrument changes.
    pub gesture_cooldown_sec: u64,
    /// Duration of the softest note, in milliseconds.
    pub max_duration_ms: u64,
    /// Duration of the hardest note, in milliseconds.
    pub min_duration_ms: u64,
    /// The tracked volume.
    pub volume: Volume,
}

impl Config {
    /// What is wrong with the configuration, if anything. Of several faults
    /// the first in the order of [`ConfigError`] is named.
    pub open spec fn problem(self) -> Option<ConfigError> {
        if !valid_channel(self.midi_channel) {
            Some(ConfigError::InvalidChannel)
        } else if self.min_duration_ms > self.max_duration_ms {
            Some(ConfigError::InvalidDurations)
        } else if !self.volume.wf() {
            Some(ConfigError::ZeroWidthRange)
        } else if self.scale_octaves == 0 {
            Some(ConfigError::EmptyScale)
        } else if !scale_fits(self.base_pitch, minor_intervals(), self.scale_octaves) {
            Some(ConfigError::PitchOutOfRange)
        } else {
            None
        }
    }

    /// The options the instrument starts with unless told otherwise.
    pub fn standard() -> (config: Config)
        ensures
            config == (Config {
                base_pitch: 42,
                scale_octaves: 3,
                moving_average_window: 3,
                midi_channel: 2,
                base_delay_ms: 1000,
                pinch_threshold: 10_000,
                gesture_cooldown_sec: 1,
                max_duration_ms: 5000,
                min_duration_ms: 100,
                volume: Volume {
                    min_x: MIN_X,
                    max_x: MAX_X,
                    min_y: MIN_Y,
                    max_y: MAX_Y,
                    min_z: MIN_Z,
                    max_z: MAX_Z,
                },
            }),
    {
        Config {
            base_pitch: 42,
            scale_octaves: 3,
            moving_average_window: 3,
            midi_channel: 2,
            base_delay_ms: 1000,
            pinch_threshold: 10_000,
            gesture_cooldown_sec: 1,
            max_duration_ms: 5000,
            min_duration_ms: 100,
            volume: Volume {
                min_x: MIN_X,
                max_x: MAX_X,
                min_y: MIN_Y,
                max_y: MAX_Y,
                min_z: MIN_Z,
                max_z: MAX_Z,
            },
        }
    }
}

} // verus!
