use pet::times::{get_mtime_ctime, MTimeCTime, SinceEpoch};

fn at(secs: u64, subsec_nanos: u32) -> Option<SinceEpoch> {
    Some(SinceEpoch { secs, subsec_nanos })
}

#[test]
fn fingerprint_needs_both_times() {
    assert_eq!(get_mtime_ctime(None, None), None);
    assert_eq!(get_mtime_ctime(at(1, 0), None), None);
    assert_eq!(get_mtime_ctime(None, at(1, 0)), None);
}

#[test]
fn fingerprint_is_in_whole_milliseconds() {
    let created = at(1_700_000_000, 123_456_789);
    let modified = at(1_700_000_005, 999_999_999);
    assert_eq!(
        get_mtime_ctime(created, modified),
        Some(MTimeCTime { mtime: 1_700_000_005_999, ctime: 1_700_000_000_123 })
    );
}

#[test]
fn fingerprint_keeps_creation_and_modification_apart() {
    let got = get_mtime_ctime(at(1, 0), at(2, 0)).unwrap();
    assert_eq!(got.ctime, 1_000);
    assert_eq!(got.mtime, 2_000);
}

#[test]
fn fingerprint_does_not_overflow() {
    let far = at(u64::MAX, u32::MAX);
    let millis = u64::MAX as u128 * 1000 + (u32::MAX as u128) / 1_000_000;
    assert_eq!(get_mtime_ctime(far, far), Some(MTimeCTime { mtime: millis, ctime: millis }));
    assert_eq!(SinceEpoch { secs: 0, subsec_nanos: 999_999 }.as_millis(), 0);
    assert_eq!(SinceEpoch { secs: 0, subsec_nanos: 1_000_000 }.as_millis(), 1);
}

#[test]
fn fingerprint_agrees_with_the_standard_duration() {
    let span = std::time::Duration::new(1_234_567, 891_011_121);
    let ours = SinceEpoch { secs: span.as_secs(), subsec_nanos: span.subsec_nanos() };
    assert_eq!(ours.as_millis(), span.as_millis());
}
