use text_row::guess::{judge, pick_number, Verdict, HIGHEST, LOWEST};
use text_row::lock::{starts_with, Action, Lock, State};

#[test]
fn the_number_to_find_is_a_number_of_the_game() {
    for _ in 0..200 {
        let number = pick_number();
        assert!(LOWEST <= number && number <= HIGHEST);
        assert_eq!(judge(number, number), Verdict::Correct);
    }
}

#[test]
fn the_number_to_find_is_not_always_the_same() {
    let first = pick_number();
    let mut differs = false;
    for _ in 0..200 {
        if pick_number() != first {
            differs = true;
        }
    }
    assert!(differs);
}

#[test]
fn guesses_are_judged_against_the_number() {
    assert_eq!(judge(50, 49), Verdict::TooLow);
    assert_eq!(judge(50, 1), Verdict::TooLow);
    assert_eq!(judge(50, 51), Verdict::TooHigh);
    assert_eq!(judge(50, 100), Verdict::TooHigh);
    assert_eq!(judge(50, 50), Verdict::Correct);
    assert_eq!(judge(1, 1), Verdict::Correct);
    assert_eq!(judge(100, 100), Verdict::Correct);
}

#[test]
fn guesses_outside_the_game_are_out_of_range() {
    assert_eq!(judge(50, 0), Verdict::OutOfRange);
    assert_eq!(judge(50, 101), Verdict::OutOfRange);
    assert_eq!(judge(50, -7), Verdict::OutOfRange);
    assert_eq!(judge(50, i64::MAX), Verdict::OutOfRange);
    assert_eq!(judge(50, i64::MIN), Verdict::OutOfRange);
}

#[test]
fn prefixes_are_recognised() {
    assert!(starts_with("1234", ""));
    assert!(starts_with("1234", "12"));
    assert!(starts_with("1234", "1234"));
    assert!(!starts_with("1234", "13"));
    assert!(!starts_with("1234", "12345"));
    assert!(!starts_with("", "1"));
    assert!(starts_with("h\u{e9}llo", "h\u{e9}"));
    assert!(!starts_with("h\u{e9}llo", "he"));
}

#[test]
fn the_lock_opens_on_its_code() {
    let mut lock = Lock::new("1234");
    assert_eq!(lock.state(), State::Locked);
    assert_eq!(lock.action(), Action::ReadLine);
    lock.step(Some("1234"));
    assert_eq!(lock.state(), State::Unlocked);
    assert_eq!(lock.action(), Action::ShowUnlocked);
}

#[test]
fn the_lock_takes_its_code_in_pieces() {
    let mut lock = Lock::new("1234");
    lock.step(Some("12"));
    assert_eq!(lock.state(), State::Locked);
    lock.step(Some(""));
    assert_eq!(lock.state(), State::Locked);
    lock.step(Some("3"));
    assert_eq!(lock.state(), State::Locked);
    lock.step(Some("4"));
    assert_eq!(lock.state(), State::Unlocked);
}

#[test]
fn the_lock_fails_on_a_wrong_piece_and_starts_again() {
    let mut lock = Lock::new("1234");
    lock.step(Some("12"));
    lock.step(Some("4"));
    assert_eq!(lock.state(), State::Failed);
    assert_eq!(lock.action(), Action::ShowFailed);
    lock.step(None);
    assert_eq!(lock.state(), State::Locked);
    assert_eq!(lock.action(), Action::ReadLine);
    lock.step(Some("1234"));
    assert_eq!(lock.state(), State::Unlocked);
}

#[test]
fn the_lock_fails_on_too_long_an_entry() {
    let mut lock = Lock::new("1234");
    lock.step(Some("12345"));
    assert_eq!(lock.state(), State::Failed);
}

#[test]
fn a_line_that_could_not_be_read_changes_nothing() {
    let mut lock = Lock::new("1234");
    lock.step(Some("12"));
    lock.step(None);
    assert_eq!(lock.state(), State::Locked);
    lock.step(Some("34"));
    assert_eq!(lock.state(), State::Unlocked);
}

#[test]
fn an_open_lock_stays_open() {
    let mut lock = Lock::new("1");
    lock.step(Some("1"));
    lock.step(Some("2"));
    assert_eq!(lock.state(), State::Unlocked);
    lock.step(None);
    assert_eq!(lock.state(), State::Unlocked);
}

#[test]
fn a_lock_with_an_empty_code_opens_on_an_empty_line() {
    let mut lock = Lock::new("");
    assert_eq!(lock.state(), State::Locked);
    lock.step(Some(""));
    assert_eq!(lock.state(), State::Unlocked);
}
