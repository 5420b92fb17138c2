use argo_notes::relative_time::format_relative_time;
use argo_notes::status_bar::{word_count, FocusTimer, TimerState};

#[test]
fn timer_counts_down_only_while_running() {
    let mut t = FocusTimer::new();
    assert_eq!(t.state, TimerState::Stopped);
    assert_eq!(t.remaining_seconds, 25 * 60);
    t.tick();
    assert_eq!(t.remaining_seconds, 25 * 60);
    t.start();
    t.tick();
    t.tick();
    assert_eq!(t.remaining_seconds, 25 * 60 - 2);
    t.pause();
    t.tick();
    assert_eq!(t.remaining_seconds, 25 * 60 - 2);
    assert_eq!(t.state, TimerState::Paused);
}

#[test]
fn timer_stops_at_zero_and_restarts_full() {
    let mut t = FocusTimer::new();
    t.set_preset(2);
    t.start();
    t.tick();
    assert_eq!(t.state, TimerState::Running);
    t.tick();
    assert_eq!(t.remaining_seconds, 0);
    assert_eq!(t.state, TimerState::Stopped);
    t.start();
    assert_eq!(t.remaining_seconds, 2);
    assert_eq!(t.state, TimerState::Running);
}

#[test]
fn preset_resets_the_countdown() {
    let mut t = FocusTimer::new();
    t.start();
    t.tick();
    t.set_preset(45 * 60);
    assert_eq!(t.state, TimerState::Stopped);
    assert_eq!(t.remaining_seconds, 45 * 60);
    assert_eq!(t.initial_seconds, 45 * 60);
}

#[test]
fn words_are_maximal_nonblank_runs() {
    assert_eq!(word_count(""), 0);
    assert_eq!(word_count("   \n\t"), 0);
    assert_eq!(word_count("one"), 1);
    assert_eq!(word_count("  one  two\nthree\tfour "), 4);
    assert_eq!(word_count("a\n\n\nb"), 2);
    assert_eq!(word_count("a\u{00A0}b"), 2);
}

#[test]
fn relative_labels_bucket_by_age() {
    let minute: i64 = 60_000;
    let hour: i64 = 60 * minute;
    let day: i64 = 24 * hour;
    let now: i64 = 100 * day;
    assert_eq!(format_relative_time(now, now), "just now");
    assert_eq!(format_relative_time(now, now + hour), "just now");
    assert_eq!(format_relative_time(now, now - 30_000), "just now");
    assert_eq!(format_relative_time(now, now - 5 * minute), "5m ago");
    assert_eq!(format_relative_time(now, now - 3 * hour), "3h ago");
    assert_eq!(format_relative_time(now, now - day), "yesterday");
    assert_eq!(format_relative_time(now, now - 4 * day), "4d ago");
    assert_eq!(format_relative_time(now, now - 20 * day), "2w ago");
}

#[test]
fn old_stamps_get_a_calendar_label() {
    // 1970-03-15 00:00:00 UTC, seen from far later
    let then: i64 = 73 * 24 * 3_600_000;
    let now: i64 = 2_000 * 24 * 3_600_000;
    assert_eq!(format_relative_time(now, then), "Mar 15");
}
