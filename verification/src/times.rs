//! Staleness fingerprints: when a file was last modified and when it was
//! created, in whole milliseconds since the Unix epoch.

use vstd::prelude::*;

verus! {

/// The fingerprint of one file.
#[derive(Clone, Copy, Debug, PartialEq, Eq, Structural)]
pub struct MTimeCTime {
    pub mtime: u128,
    pub ctime: u128,
}

/// A point in time, as the span that has passed since the Unix epoch.
#[derive(Clone, Copy, Debug, PartialEq, Eq, Structural)]
pub struct SinceEpoch {
    pub secs: u64,
    pub subsec_nanos: u32,
}

/// The whole milliseconds in a span: the fraction of a millisecond is dropped.
pub open spec fn whole_millis(span: SinceEpoch) -> nat {
    (span.secs * 1000 + span.subsec_nanos / 1_000_000) as nat
}

/// The fingerprint made of two time stamps, where both could be read.
pub open spec fn fingerprint_of(
    created: Option<SinceEpoch>,
    modified: Option<SinceEpoch>,
) -> Option<MTimeCTime> {
    match (modified, created) {
        (Some(m), Some(c)) => Some(
            MTimeCTime { mtime: whole_millis(m) as u128, ctime: whole_millis(c) as u128 },
        ),
        _ => None,
    }
}

impl SinceEpoch {
    /// The whole milliseconds in the span.
    pub fn as_millis(&self) -> (millis: u128)
        ensures
            millis == whole_millis(*self),
    {
        let secs: u128 = self.secs as u128;
        let nanos: u128 = self.subsec_nanos as u128;
        secs * 1000 + nanos / 1_000_000
    }
}

/// The fingerprint of a file from its creation and modification times, each
/// missing where the file system could not give it or gave a time before the
/// epoch. There is a fingerprint only where both are known.
pub fn get_mtime_ctime(created: Option<SinceEpoch>, modified: Option<SinceEpoch>) -> (r: Option<
    MTimeCTime,
>)
    ensures
        r == fingerprint_of(created, modified),
{
    match (modified, created) {
        (Some(m), Some(c)) => Some(MTimeCTime { mtime: m.as_millis(), ctime: c.as_millis() }),
        _ => None,
    }
}

} // verus!
