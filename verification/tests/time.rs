//! Positions in a track.
use music_player::time::{format_duration, playback_time, seek_by, PlayTime, SeekError};
use std::time::Duration;

fn at(secs: u64, nanos: u32) -> PlayTime {
    PlayTime { secs, nanos }
}

#[test]
fn positions_are_written_as_minutes_and_seconds() {
    assert_eq!(format_duration(at(0, 999_999_999)), "00:00");
    assert_eq!(format_duration(at(59, 0)), "00:59");
    assert_eq!(format_duration(at(60, 0)), "01:00");
    assert_eq!(format_duration(at(605, 0)), "10:05");
    assert_eq!(format_duration(at(6_000, 0)), "100:00");
    assert_eq!(format_duration(at(u64::MAX, 0)), "307445734561825860:15");
}

#[test]
fn different_seconds_are_written_differently() {
    let mut seen = std::collections::HashSet::new();
    for secs in 0..20_000 {
        assert!(seen.insert(format_duration(at(secs, 0))));
    }
}

#[test]
fn progress_shows_the_length_where_it_is_known() {
    assert_eq!(playback_time(at(65, 0), Some(at(180, 0))), "01:05 / 03:00");
    assert_eq!(playback_time(at(65, 0), None), "01:05 / --:--");
}

#[test]
fn a_span_of_nothing_is_zero() {
    assert!(at(0, 0).is_zero());
    assert!(!at(0, 1).is_zero());
    assert!(!at(1, 0).is_zero());
}

#[test]
fn seeking_needs_a_track() {
    let error = seek_by(at(10, 0), None, false, 5);
    assert_eq!(error, Err(SeekError::NothingPlaying));
    assert_eq!(SeekError::NothingPlaying.message(), "nothing is playing");
}

#[test]
fn seeking_moves_the_position() {
    assert_eq!(seek_by(at(10, 7), None, true, 5), Ok(at(15, 7)));
    assert_eq!(seek_by(at(10, 7), None, true, -5), Ok(at(5, 7)));
    assert_eq!(seek_by(at(10, 7), None, true, 0), Ok(at(10, 7)));
}

#[test]
fn seeking_stops_at_the_start() {
    assert_eq!(seek_by(at(5, 0), None, true, -5), Ok(at(0, 0)));
    assert_eq!(seek_by(at(4, 999), None, true, -5), Ok(at(0, 0)));
    assert_eq!(seek_by(at(4, 0), None, true, i64::MIN), Ok(at(0, 0)));
}

#[test]
fn seeking_stops_at_the_end() {
    let end = Some(at(100, 500));
    assert_eq!(seek_by(at(98, 0), end, true, 5), Ok(at(100, 500)));
    assert_eq!(seek_by(at(95, 500), end, true, 5), Ok(at(100, 500)));
    assert_eq!(seek_by(at(95, 501), end, true, 5), Ok(at(100, 500)));
    assert_eq!(seek_by(at(95, 499), end, true, 5), Ok(at(100, 499)));
    assert_eq!(seek_by(at(300, 0), end, true, -5), Ok(at(100, 500)));
}

#[test]
fn seeking_agrees_with_durations() {
    let longest = Duration::MAX;
    let positions = [
        Duration::ZERO,
        Duration::new(5, 1),
        Duration::new(u64::MAX - 5, 999_999_999),
        longest,
    ];
    for position in positions {
        for step in [0_i64, 1, 5, i64::MAX, -1, -5, i64::MIN] {
            let amount = Duration::from_secs(step.unsigned_abs());
            let there = if step < 0 {
                position.saturating_sub(amount)
            } else {
                position.saturating_add(amount)
            };
            let current = at(position.as_secs(), position.subsec_nanos());
            let goal = seek_by(current, None, true, step);
            assert_eq!(goal, Ok(at(there.as_secs(), there.subsec_nanos())));
        }
    }
}

#[test]
fn a_step_back_undoes_a_step_ahead() {
    let end = Some(at(200, 0));
    let ahead = seek_by(at(30, 5), end, true, 5).unwrap();
    assert_eq!(seek_by(ahead, end, true, -5), Ok(at(30, 5)));
}
