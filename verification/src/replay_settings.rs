//! Replay choices that several parts of the recorder share.
use crate::replay_pipeline::ReplayCadence;
use crate::text;
use vstd::prelude::*;
use vstd::string::*;

verus! {

/// Replay lengths that the user may choose.
#[derive(Clone, Copy, Debug, PartialEq, Eq, Structural)]
pub enum ReplayDuration {
    Seconds15,
    Seconds30,
    Seconds60,
    Seconds120,
    Seconds180,
    Seconds300,
    Seconds600,
    Seconds900,
}

/// The length in seconds.
pub open spec fn duration_seconds(duration: ReplayDuration) -> u32 {
    match duration {
        ReplayDuration::Seconds15 => 15,
        ReplayDuration::Seconds30 => 30,
        ReplayDuration::Seconds60 => 60,
        ReplayDuration::Seconds120 => 120,
        ReplayDuration::Seconds180 => 180,
        ReplayDuration::Seconds300 => 300,
        ReplayDuration::Seconds600 => 600,
        ReplayDuration::Seconds900 => 900,
    }
}

impl ReplayDuration {
    pub fn seconds(self) -> (result: u32)
        ensures
            result == duration_seconds(self),
    {
        match self {
            ReplayDuration::Seconds15 => 15,
            ReplayDuration::Seconds30 => 30,
            ReplayDuration::Seconds60 => 60,
            ReplayDuration::Seconds120 => 120,
            ReplayDuration::Seconds180 => 180,
            ReplayDuration::Seconds300 => 300,
            ReplayDuration::Seconds600 => 600,
            ReplayDuration::Seconds900 => 900,
        }
    }
}

/// Capture rates that a launched game may be asked for.
#[derive(Clone, Copy, Debug, PartialEq, Eq, Structural)]
pub enum ReplayFrameRate {
    Fps30,
    Fps60,
    Fps120,
}

/// How a capture rate is written in an environment.
pub open spec fn rate_text(rate: ReplayFrameRate) -> &'static str {
    match rate {
        ReplayFrameRate::Fps30 => "30",
        ReplayFrameRate::Fps60 => "60",
        ReplayFrameRate::Fps120 => "120",
    }
}

pub fn frame_rate_name(rate: ReplayFrameRate) -> (result: &'static str)
    ensures
        result == rate_text(rate),
{
    match rate {
        ReplayFrameRate::Fps30 => "30",
        ReplayFrameRate::Fps60 => "60",
        ReplayFrameRate::Fps120 => "120",
    }
}

/// Encoder quality levels.
#[derive(Clone, Copy, Debug, PartialEq, Eq, Structural)]
pub enum ReplayQuality {
    Efficient,
    Balanced,
    High,
}

/// The encoder's target in megabits per second.
pub open spec fn target_megabits(quality: ReplayQuality) -> u32 {
    match quality {
        ReplayQuality::Efficient => 12,
        ReplayQuality::Balanced => 24,
        ReplayQuality::High => 40,
    }
}

impl ReplayQuality {
    pub fn target_megabits_per_second(self) -> (result: u32)
        ensures
            result == target_megabits(self),
    {
        match self {
            ReplayQuality::Efficient => 12,
            ReplayQuality::Balanced => 24,
            ReplayQuality::High => 40,
        }
    }
}

/// The user's choices for one recording.
#[derive(Clone, Copy, Debug, PartialEq, Eq, Structural)]
pub struct ReplaySettings {
    pub duration: ReplayDuration,
    pub frame_rate: ReplayCadence,
    pub quality: ReplayQuality,
    pub storage_limit_bytes: u64,
}

/// A length is the number of seconds that it is named after.
pub proof fn lengths_are_named_after_their_seconds(duration: ReplayDuration)
    ensures
        duration_seconds(duration) == match duration {
            ReplayDuration::Seconds15 => 15u32,
            ReplayDuration::Seconds30 => 30u32,
            ReplayDuration::Seconds60 => 60u32,
            ReplayDuration::Seconds120 => 120u32,
            ReplayDuration::Seconds180 => 180u32,
            ReplayDuration::Seconds300 => 300u32,
            ReplayDuration::Seconds600 => 600u32,
            ReplayDuration::Seconds900 => 900u32,
        },
{
}

/// A capture rate is written as the number that it is named after.
pub proof fn rates_are_written_as_numbers(rate: ReplayFrameRate)
    ensures
        rate_text(rate)@ == text::decimal(
            match rate {
                ReplayFrameRate::Fps30 => 30,
                ReplayFrameRate::Fps60 => 60,
                ReplayFrameRate::Fps120 => 120,
            },
        ),
{
    reveal_strlit("30");
    reveal_strlit("60");
    reveal_strlit("120");
    reveal_with_fuel(text::decimal, 3);
    assert("30"@ =~= text::decimal(30));
    assert("60"@ =~= text::decimal(60));
    assert("120"@ =~= text::decimal(120));
}

/// A better quality takes more room, and none more than forty megabits a
/// second.
pub proof fn better_quality_takes_more_room()
    ensures
        0 < target_megabits(ReplayQuality::Efficient),
        target_megabits(ReplayQuality::Balanced) == 2 * target_megabits(ReplayQuality::Efficient),
        target_megabits(ReplayQuality::Balanced) < target_megabits(ReplayQuality::High),
        target_megabits(ReplayQuality::High) <= 40,
{
}

} // verus!
