use minesweeper::duration::TimeSpan;
use minesweeper::session::{add_spans, game_status, GameClock, GameStatus};

#[test]
fn adding_spans() {
    assert_eq!(
        add_spans(TimeSpan { secs: 1, nanos: 600_000_000 }, TimeSpan { secs: 2, nanos: 500_000_000 }),
        Some(TimeSpan { secs: 4, nanos: 100_000_000 })
    );
    assert_eq!(
        add_spans(TimeSpan { secs: 1, nanos: 5 }, TimeSpan { secs: 2, nanos: 6 }),
        Some(TimeSpan { secs: 3, nanos: 11 })
    );
    assert_eq!(add_spans(TimeSpan { secs: u64::MAX, nanos: 0 }, TimeSpan { secs: 1, nanos: 0 }), None);
    assert_eq!(
        add_spans(
            TimeSpan { secs: u64::MAX, nanos: 999_999_999 },
            TimeSpan { secs: 0, nanos: 1 }
        ),
        None
    );
}

#[test]
fn status_of_games() {
    assert_eq!(game_status(true, true), GameStatus::Lost);
    assert_eq!(game_status(true, false), GameStatus::Lost);
    assert_eq!(game_status(false, true), GameStatus::Won);
    assert_eq!(game_status(false, false), GameStatus::InProgress);
}

#[test]
fn fresh_clock() {
    let c = GameClock::new();
    assert_eq!(c.finished_time(), Some(TimeSpan::zero()));
    assert_eq!(c.running_secs(), Some(0));
    assert_eq!(c.time_to_save(), Some(TimeSpan::zero()));
}

#[test]
fn restored_clock() {
    let carried = TimeSpan { secs: 42, nanos: 7 };
    // a game over does not run its clock
    let c = GameClock::restore(Some(carried), true);
    assert_eq!(c.finished_time(), Some(carried));
    assert_eq!(c.running_secs(), Some(42));
    assert_eq!(c.time_to_save(), Some(TimeSpan::zero()));
    // a game in progress runs from now on top of the carried time
    let c = GameClock::restore(Some(carried), false);
    assert!(c.running_secs().unwrap() >= 42);
    let saved = c.time_to_save().unwrap();
    assert!(saved.secs >= 42);
    // nothing carried over: the clock waits for the first move
    let c = GameClock::restore(Some(TimeSpan::zero()), false);
    assert_eq!(c.time_to_save(), Some(TimeSpan::zero()));
    let c = GameClock::restore(None, false);
    assert_eq!(c.running_secs(), Some(0));
}

#[test]
fn moves_start_and_stop_the_clock() {
    let mut c = GameClock::restore(Some(TimeSpan { secs: 10, nanos: 0 }), true);
    c.note_move(false);
    // started, not stopped: the time to save runs
    assert!(c.time_to_save().unwrap().secs >= 10);
    c.note_move(true);
    // stopped: a finished game saves no time and reports its length
    assert_eq!(c.time_to_save(), Some(TimeSpan::zero()));
    let t = c.finished_time().unwrap();
    assert!(t.secs >= 10);
    // later moves change nothing
    c.note_move(true);
    assert_eq!(c.finished_time().unwrap(), t);
    c.reset();
    assert_eq!(c.finished_time(), Some(TimeSpan::zero()));
    assert_eq!(c.running_secs(), Some(0));
}
