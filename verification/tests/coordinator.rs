use bintray_resource::coordinator::{
    report, run_scripted, Action, Coordinator, Event, Outcome, Phase, Reply,
    RETRY_INTERVAL_SECONDS,
};

fn sleep() -> Action {
    Action::Sleep { seconds: RETRY_INTERVAL_SECONDS }
}

fn count(actions: &[Action], wanted: fn(&Action) -> bool) -> usize {
    actions.iter().filter(|a| wanted(a)).count()
}

fn is_publish(action: &Action) -> bool {
    matches!(action, Action::PublishVersion)
}

fn is_sleep(action: &Action) -> bool {
    matches!(action, Action::Sleep { .. })
}

#[test]
fn three_polls_two_sleeps() {
    let replies = vec![Reply::Remaining(3), Reply::Remaining(1), Reply::Remaining(0)];
    let run = run_scripted(true, false, 3, &replies);
    assert_eq!(run.outcome, Outcome::Finished);
    assert_eq!(count(&run.performed, is_publish), 3);
    assert_eq!(count(&run.performed, is_sleep), 2);
    assert_eq!(
        run.performed,
        vec![
            Action::PublishVersion,
            sleep(),
            Action::PublishVersion,
            sleep(),
            Action::PublishVersion,
        ]
    );
}

#[test]
fn server_that_never_reaches_zero_keeps_the_coordinator_polling() {
    for ceiling in [0usize, 1, 5, 50] {
        let replies = vec![Reply::Remaining(7); ceiling];
        let run = run_scripted(true, true, 2, &replies);
        assert_eq!(run.outcome, Outcome::Pending);
        assert_eq!(count(&run.performed, is_publish), ceiling);
        assert_eq!(count(&run.performed, is_sleep), ceiling);
    }
}

#[test]
fn retry_interval_is_ten_seconds() {
    assert_eq!(RETRY_INTERVAL_SECONDS, 10);
    let (state, _) = Coordinator::begin(true, false, 1);
    let (_, action) = state.step(Event::Published { remaining: 2 });
    assert_eq!(action, Action::Sleep { seconds: 10 });
}

#[test]
fn immediate_zero_needs_no_sleep() {
    let run = run_scripted(true, false, 1, &vec![Reply::Remaining(0)]);
    assert_eq!(run.performed, vec![Action::PublishVersion]);
    assert_eq!(run.outcome, Outcome::Finished);
}

#[test]
fn nothing_to_do_without_publish() {
    let (state, action) = Coordinator::begin(false, true, 4);
    assert_eq!(action, Action::Finish);
    assert_eq!(state.phase, Phase::Finished);
    let run = run_scripted(false, true, 4, &vec![Reply::Remaining(0)]);
    assert_eq!(run.performed, Vec::<Action>::new());
    assert_eq!(run.outcome, Outcome::Finished);
}

#[test]
fn publishing_without_uploaded_files() {
    let (state, action) = Coordinator::begin(true, false, 0);
    assert_eq!(action, Action::PublishVersion);
    assert_eq!(state.phase, Phase::AwaitPublish);
    let run = run_scripted(true, false, 0, &vec![Reply::Remaining(0)]);
    assert_eq!(run.performed, vec![Action::PublishVersion]);
    assert_eq!(run.outcome, Outcome::Finished);
    let run = run_scripted(true, true, 0, &vec![Reply::Remaining(0)]);
    assert_eq!(run.performed, vec![Action::PublishVersion, sleep()]);
    assert_eq!(run.outcome, Outcome::Finished);
}

#[test]
fn visibility_phase_sleeps_once_then_marks_each_file() {
    let replies = vec![Reply::Remaining(0), Reply::Visible, Reply::Visible, Reply::Visible];
    let run = run_scripted(true, true, 3, &replies);
    assert_eq!(
        run.performed,
        vec![
            Action::PublishVersion,
            sleep(),
            Action::MarkVisible { index: 0 },
            Action::MarkVisible { index: 1 },
            Action::MarkVisible { index: 2 },
        ]
    );
    assert_eq!(run.outcome, Outcome::Finished);
}

#[test]
fn visibility_phase_is_skipped_when_not_asked_for() {
    let replies = vec![Reply::Remaining(0), Reply::Visible];
    let run = run_scripted(true, false, 1, &replies);
    assert_eq!(run.performed, vec![Action::PublishVersion]);
    assert_eq!(run.outcome, Outcome::Finished);
}

#[test]
fn not_found_is_retried_after_a_sleep() {
    let replies = vec![
        Reply::Remaining(0),
        Reply::NotFound,
        Reply::NotFound,
        Reply::Visible,
        Reply::Visible,
    ];
    let run = run_scripted(true, true, 2, &replies);
    assert_eq!(
        run.performed,
        vec![
            Action::PublishVersion,
            sleep(),
            Action::MarkVisible { index: 0 },
            sleep(),
            Action::MarkVisible { index: 0 },
            sleep(),
            Action::MarkVisible { index: 0 },
            Action::MarkVisible { index: 1 },
        ]
    );
    assert_eq!(run.outcome, Outcome::Finished);
}

#[test]
fn not_found_forever_keeps_the_coordinator_retrying() {
    let mut replies = vec![Reply::Remaining(0)];
    replies.extend(vec![Reply::NotFound; 20]);
    let run = run_scripted(true, true, 1, &replies);
    assert_eq!(run.outcome, Outcome::Pending);
    assert_eq!(count(&run.performed, is_sleep), 21);
}

#[test]
fn other_failure_aborts_and_abandons_the_rest() {
    let replies = vec![Reply::Remaining(0), Reply::Visible, Reply::Failed, Reply::Visible];
    let run = run_scripted(true, true, 3, &replies);
    assert_eq!(
        run.performed,
        vec![
            Action::PublishVersion,
            sleep(),
            Action::MarkVisible { index: 0 },
            Action::MarkVisible { index: 1 },
        ]
    );
    assert_eq!(run.outcome, Outcome::Aborted);
}

#[test]
fn publish_failure_aborts() {
    let run = run_scripted(true, true, 1, &vec![Reply::Remaining(2), Reply::Failed]);
    assert_eq!(run.performed, vec![Action::PublishVersion, sleep(), Action::PublishVersion]);
    assert_eq!(run.outcome, Outcome::Aborted);
    let run = run_scripted(true, true, 1, &vec![Reply::NotFound]);
    assert_eq!(run.outcome, Outcome::Aborted);
}

#[test]
fn steps_of_the_state_machine() {
    let (c, a) = Coordinator::begin(true, true, 2);
    assert_eq!((c.phase, a), (Phase::AwaitPublish, Action::PublishVersion));
    let (c, a) = c.step(Event::Published { remaining: 1 });
    assert_eq!((c.phase, a), (Phase::PublishBackoff, sleep()));
    let (c, a) = c.step(Event::Slept);
    assert_eq!((c.phase, a), (Phase::AwaitPublish, Action::PublishVersion));
    let (c, a) = c.step(Event::Published { remaining: 0 });
    assert_eq!((c.phase, a), (Phase::Settle, sleep()));
    let (c, a) = c.step(Event::Slept);
    assert_eq!((c.phase, a), (Phase::AwaitVisible { index: 0 }, Action::MarkVisible { index: 0 }));
    let (c, a) = c.step(Event::NotFound);
    assert_eq!((c.phase, a), (Phase::VisibleBackoff { index: 0 }, sleep()));
    let (c, a) = c.step(Event::Slept);
    assert_eq!((c.phase, a), (Phase::AwaitVisible { index: 0 }, Action::MarkVisible { index: 0 }));
    let (c, a) = c.step(Event::Visible);
    assert_eq!((c.phase, a), (Phase::AwaitVisible { index: 1 }, Action::MarkVisible { index: 1 }));
    let (c, a) = c.step(Event::Visible);
    assert_eq!((c.phase, a), (Phase::Finished, Action::Finish));
    let (c, a) = c.step(Event::Slept);
    assert_eq!((c.phase, a), (Phase::Finished, Action::Finish));
    assert_eq!(c.files, 2);
    assert!(c.show_in_download_list);
}

#[test]
fn unexpected_event_gives_the_run_up() {
    let (c, _) = Coordinator::begin(true, true, 2);
    let (c, a) = c.step(Event::Visible);
    assert_eq!((c.phase, a), (Phase::Aborted, Action::Abort));
    let (c, a) = c.step(Event::Slept);
    assert_eq!((c.phase, a), (Phase::Aborted, Action::Abort));
    let (c, _) = Coordinator::begin(true, true, 2);
    let (c, _) = c.step(Event::Published { remaining: 1 });
    let (c, a) = c.step(Event::Published { remaining: 0 });
    assert_eq!((c.phase, a), (Phase::Aborted, Action::Abort));
}

#[test]
fn replies_are_reported_as_events() {
    assert_eq!(report(Reply::Remaining(4)), Event::Published { remaining: 4 });
    assert_eq!(report(Reply::Visible), Event::Visible);
    assert_eq!(report(Reply::NotFound), Event::NotFound);
    assert_eq!(report(Reply::Failed), Event::Failed);
}
