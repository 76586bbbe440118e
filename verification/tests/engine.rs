use typre::test::{diff_at, Diff, KeyEvent, KeyOutcome, StepKind, Test, Timer};

fn session(words: &[&str]) -> Test {
    let owned: Vec<String> = words.iter().map(|w| w.to_string()).collect();
    assert!(!owned.is_empty());
    Test::new(&owned, false, false)
}

#[test]
fn diff_positions_against_target() {
    assert_eq!(diff_at("cbt", "cat", 0), Diff::Correct('c'));
    assert_eq!(diff_at("cbt", "cat", 1), Diff::Error('b', 'a'));
    assert_eq!(diff_at("cbt", "cat", 2), Diff::Correct('t'));
}

#[test]
fn diff_beyond_target_is_extra() {
    assert_eq!(diff_at("cats", "cat", 3), Diff::Extra('s'));
}

#[test]
fn completion_on_exact_word_and_space() {
    let mut t = session(&["cat", "dog"]);
    assert_eq!(t.apply_key(KeyEvent::Char('c'), 1, 100), KeyOutcome::Typed(Diff::Correct('c')));
    assert_eq!(t.apply_key(KeyEvent::Char('a'), 2, 100), KeyOutcome::Typed(Diff::Correct('a')));
    assert_eq!(t.apply_key(KeyEvent::Char('t'), 3, 100), KeyOutcome::Typed(Diff::Correct('t')));
    assert_eq!(t.apply_key(KeyEvent::Char(' '), 4, 100), KeyOutcome::WordDone);
    assert_eq!(t.apply_key(KeyEvent::Quit, 5, 100), KeyOutcome::Aborted);
    let raw = t.finish(6).expect("timer ran");
    // Start(0), three inputs, Complete(0), Start(1).
    assert_eq!(raw.steps.len(), 6);
    assert!(matches!(raw.steps[0].kind, StepKind::Start(0)));
    assert!(matches!(raw.steps[4].kind, StepKind::Complete(0)));
    assert!(matches!(raw.steps[5].kind, StepKind::Start(1)));
    assert!(raw.quit);
}

#[test]
fn extra_character_blocks_completion() {
    let mut t = session(&["cat"]);
    for (i, c) in ['c', 'a', 't', 's'].iter().enumerate() {
        t.apply_key(KeyEvent::Char(*c), i as u64, 100);
    }
    // The input is "cats": a space is one more (extra) keystroke, not a
    // completion.
    assert_eq!(t.apply_key(KeyEvent::Char(' '), 9, 100), KeyOutcome::Typed(Diff::Extra(' ')));
}

#[test]
fn backspace_at_zero_is_a_no_op() {
    let mut t = session(&["cat"]);
    assert_eq!(t.apply_key(KeyEvent::Backspace, 1, 100), KeyOutcome::Ignored);
    // Nothing typed, nothing logged: aborting still yields no result.
    assert_eq!(t.apply_key(KeyEvent::Quit, 2, 100), KeyOutcome::Aborted);
    assert!(t.finish(3).is_none());
}

#[test]
fn backspace_removes_the_last_character() {
    let mut t = session(&["cat"]);
    t.apply_key(KeyEvent::Char('c'), 1, 100);
    t.apply_key(KeyEvent::Char('x'), 2, 100);
    assert_eq!(t.apply_key(KeyEvent::Backspace, 3, 100), KeyOutcome::Erased);
    assert_eq!(t.apply_key(KeyEvent::Char('a'), 4, 100), KeyOutcome::Typed(Diff::Correct('a')));
    // No event is logged for the backspace itself.
    t.apply_key(KeyEvent::Quit, 5, 100);
    let raw = t.finish(6).expect("timer ran");
    // Start(0) plus the three character inputs.
    assert_eq!(raw.steps.len(), 4);
}

#[test]
fn abort_before_typing_returns_nothing() {
    let mut t = session(&["cat"]);
    assert_eq!(t.apply_key(KeyEvent::Quit, 1, 100), KeyOutcome::Aborted);
    assert!(t.finish(2).is_none());
}

#[test]
fn completing_the_last_word_finishes() {
    let mut t = session(&["cat"]);
    t.apply_key(KeyEvent::Char('c'), 1, 100);
    t.apply_key(KeyEvent::Char('a'), 2, 100);
    t.apply_key(KeyEvent::Char('t'), 3, 100);
    assert_eq!(t.apply_key(KeyEvent::Char(' '), 4, 100), KeyOutcome::Finished);
    assert!(t.is_over());
    let raw = t.finish(10).expect("timer ran");
    assert!(!raw.quit);
    assert_eq!(raw.word_count, 1);
    assert_eq!(raw.start, 100);
    assert_eq!(raw.duration, 9);
}

#[test]
fn race_car_end_to_end() {
    let mut t = session(&["race", "car"]);
    let mut now: u64 = 0;
    for c in "race car ".chars() {
        now += 1;
        t.apply_key(KeyEvent::Char(c), now, 100);
    }
    assert!(t.is_over());
    let raw = t.finish(now + 1).expect("timer ran");
    assert!(!raw.quit);
    assert_eq!(raw.word_count, 2);
    let mut completes = 0;
    let mut inputs = 0;
    let mut correct = 0;
    for s in &raw.steps {
        match s.kind {
            StepKind::Complete(_) => completes += 1,
            StepKind::Input(d) => {
                inputs += 1;
                if matches!(d, Diff::Correct(_)) {
                    correct += 1;
                }
            }
            StepKind::Start(_) => {}
        }
    }
    assert_eq!(completes, 2);
    assert_eq!(inputs, 7);
    assert_eq!(correct, 7);
}

#[test]
fn ignored_keys_change_nothing() {
    let mut t = session(&["cat"]);
    t.apply_key(KeyEvent::Char('c'), 1, 100);
    // Backspace on the empty buffer after erasing everything.
    assert_eq!(t.apply_key(KeyEvent::Backspace, 2, 100), KeyOutcome::Erased);
    assert_eq!(t.apply_key(KeyEvent::Backspace, 3, 100), KeyOutcome::Ignored);
}

#[test]
fn timer_runs_once() {
    let mut timer = Timer::new();
    assert!(!timer.running());
    timer.start(5, 1000);
    assert!(timer.running());
    assert_eq!(timer.stop(15), Some((1000, 10)));
    assert!(!timer.running());
    assert_eq!(timer.stop(20), None);
}
