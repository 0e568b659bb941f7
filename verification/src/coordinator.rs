//! The publish coordinator: the two-phase protocol that makes uploaded files
//! retrievable. Phase A asks the remote store to publish the version until it
//! reports that no file is left unpublished. Phase B marks each uploaded file
//! as visible in the download list, and tries again while the store answers
//! that it does not know the file yet.
//!
//! The coordinator decides; it performs nothing. The caller carries out the
//! action that it is handed and reports back what happened.

use vstd::prelude::*;

verus! {

/// The pause between two attempts, in seconds.
pub const RETRY_INTERVAL_SECONDS: u64 = 10;

/// What the caller is to do next.
#[derive(Debug, Clone, Copy, PartialEq, Eq, Structural)]
pub enum Action {
    /// Ask the remote store to publish the version.
    PublishVersion,
    /// Wait for the given time.
    Sleep { seconds: u64 },
    /// Mark the uploaded file with this index as visible.
    MarkVisible { index: usize },
    /// Nothing is left to do.
    Finish,
    /// Give the run up.
    Abort,
}

/// What happened when the caller carried an action out.
#[derive(Debug, Clone, Copy, PartialEq, Eq, Structural)]
pub enum Event {
    /// The store published and reports this many files still unpublished.
    Published { remaining: usize },
    /// The wait is over.
    Slept,
    /// The file was marked visible.
    Visible,
    /// The store does not know the file yet.
    NotFound,
    /// The call failed in any other way.
    Failed,
}

/// Where the protocol stands.
#[derive(Debug, Clone, Copy, PartialEq, Eq, Structural)]
pub enum Phase {
    /// A publish call is under way.
    AwaitPublish,
    /// Waiting before the next publish call.
    PublishBackoff,
    /// Waiting once before the first visibility call.
    Settle,
    /// A visibility call for the file with this index is under way.
    AwaitVisible { index: usize },
    /// Waiting before the next visibility call for the file with this index.
    VisibleBackoff { index: usize },
    /// The protocol is complete.
    Finished,
    /// The protocol was given up.
    Aborted,
}

/// The state of one run of the protocol.
#[derive(Debug, Clone, Copy, PartialEq, Eq, Structural)]
pub struct Coordinator {
    /// Where the protocol stands.
    pub phase: Phase,
    /// How many files were uploaded.
    pub files: usize,
    /// Whether the files are to be shown in the download list.
    pub show_in_download_list: bool,
}

/// The wait between attempts.
pub open spec fn pause() -> Action {
    Action::Sleep { seconds: RETRY_INTERVAL_SECONDS }
}

impl Coordinator {
    /// A file index in the state is the index of an uploaded file.
    pub open spec fn well_formed(self) -> bool {
        match self.phase {
            Phase::AwaitVisible { index } => index < self.files,
            Phase::VisibleBackoff { index } => index < self.files,
            _ => true,
        }
    }

    /// This state with another phase.
    pub open spec fn at(self, phase: Phase) -> Coordinator {
        Coordinator { phase, ..self }
    }

    /// What follows phase A.
    pub open spec fn after_publish(self) -> (Coordinator, Action) {
        if self.show_in_download_list {
            (self.at(Phase::Settle), pause())
        } else {
            (self.at(Phase::Finished), Action::Finish)
        }
    }

    /// What follows once the files before `index` are visible.
    pub open spec fn show_from(self, index: int) -> (Coordinator, Action) {
        if 0 <= index < self.files {
            (
                self.at(Phase::AwaitVisible { index: index as usize }),
                Action::MarkVisible { index: index as usize },
            )
        } else {
            (self.at(Phase::Finished), Action::Finish)
        }
    }

    /// How a run begins: with a publish call, or with nothing to do where
    /// publishing is not asked for.
    pub open spec fn begin_spec(publish: bool, show_in_download_list: bool, files: usize) -> (
        Coordinator,
        Action,
    ) {
        let start = Coordinator { phase: Phase::AwaitPublish, files, show_in_download_list };
        if publish {
            (start, Action::PublishVersion)
        } else {
            (start.at(Phase::Finished), Action::Finish)
        }
    }

    /// The transition: the state and the action that follow `event`.
    ///
    /// An event that the state does not wait for gives the run up.
    pub open spec fn step_spec(self, event: Event) -> (Coordinator, Action) {
        match (self.phase, event) {
            (Phase::AwaitPublish, Event::Published { remaining }) => if remaining == 0 {
                self.after_publish()
            } else {
                (self.at(Phase::PublishBackoff), pause())
            },
            (Phase::PublishBackoff, Event::Slept) => (
                self.at(Phase::AwaitPublish),
                Action::PublishVersion,
            ),
            (Phase::Settle, Event::Slept) => self.show_from(0),
            (Phase::AwaitVisible { index }, Event::Visible) => self.show_from(index + 1),
            (Phase::AwaitVisible { index }, Event::NotFound) => (
                self.at(Phase::VisibleBackoff { index }),
                pause(),
            ),
            (Phase::VisibleBackoff { index }, Event::Slept) => (
                self.at(Phase::AwaitVisible { index }),
                Action::MarkVisible { index },
            ),
            (Phase::Finished, _) => (self, Action::Finish),
            _ => (self.at(Phase::Aborted), Action::Abort),
        }
    }

    /// Begins a run for `files` uploaded files.
    pub fn begin(publish: bool, show_in_download_list: bool, files: usize) -> (r: (
        Coordinator,
        Action,
    ))
        ensures
            r == Coordinator::begin_spec(publish, show_in_download_list, files),
            r.0.well_formed(),
    {
        if publish {
            (
                Coordinator { phase: Phase::AwaitPublish, files, show_in_download_list },
                Action::PublishVersion,
            )
        } else {
            (Coordinator { phase: Phase::Finished, files, show_in_download_list }, Action::Finish)
        }
    }

    fn leave_publish(self) -> (r: (Coordinator, Action))
        ensures
            r == self.after_publish(),
            r.0.well_formed(),
    {
        if self.show_in_download_list {
            (
                Coordinator {
                    phase: Phase::Settle,
                    files: self.files,
                    show_in_download_list: self.show_in_download_list,
                },
                Action::Sleep { seconds: RETRY_INTERVAL_SECONDS },
            )
        } else {
            (
                Coordinator {
                    phase: Phase::Finished,
                    files: self.files,
                    show_in_download_list: self.show_in_download_list,
                },
                Action::Finish,
            )
        }
    }

    fn show(self, index: usize) -> (r: (Coordinator, Action))
        ensures
            r == self.show_from(index as int),
            r.0.well_formed(),
    {
        if index < self.files {
            (
                Coordinator {
                    phase: Phase::AwaitVisible { index },
                    files: self.files,
                    show_in_download_list: self.show_in_download_list,
                },
                Action::MarkVisible { index },
            )
        } else {
            (
                Coordinator {
                    phase: Phase::Finished,
                    files: self.files,
                    show_in_download_list: self.show_in_download_list,
                },
                Action::Finish,
            )
        }
    }

    fn move_to(self, phase: Phase, action: Action) -> (r: (Coordinator, Action))
        ensures
            r == (self.at(phase), action),
    {
        (
            Coordinator {
                phase,
                files: self.files,
                show_in_download_list: self.show_in_download_list,
            },
            action,
        )
    }

    /// The state and the action that follow `event`.
    pub fn step(self, event: Event) -> (r: (Coordinator, Action))
        ensures
            r == self.step_spec(event),
            self.well_formed() ==> r.0.well_formed(),
    {
        match self.phase {
            Phase::AwaitPublish => match event {
                Event::Published { remaining } => if remaining == 0 {
                    self.leave_publish()
                } else {
                    self.move_to(
                        Phase::PublishBackoff,
                        Action::Sleep { seconds: RETRY_INTERVAL_SECONDS },
                    )
                },
                _ => self.move_to(Phase::Aborted, Action::Abort),
            },
            Phase::PublishBackoff => match event {
                Event::Slept => self.move_to(Phase::AwaitPublish, Action::PublishVersion),
                _ => self.move_to(Phase::Aborted, Action::Abort),
            },
            Phase::Settle => match event {
                Event::Slept => self.show(0),
                _ => self.move_to(Phase::Aborted, Action::Abort),
            },
            Phase::AwaitVisible { index } => match event {
                Event::Visible => if index < usize::MAX {
                    self.show(index + 1)
                } else {
                    self.move_to(Phase::Finished, Action::Finish)
                },
                Event::NotFound => self.move_to(
                    Phase::VisibleBackoff { index },
                    Action::Sleep { seconds: RETRY_INTERVAL_SECONDS },
                ),
                _ => self.move_to(Phase::Aborted, Action::Abort),
            },
            Phase::VisibleBackoff { index } => match event {
                Event::Slept => self.move_to(
                    Phase::AwaitVisible { index },
                    Action::MarkVisible { index },
                ),
                _ => self.move_to(Phase::Aborted, Action::Abort),
            },
            Phase::Finished => (self, Action::Finish),
            Phase::Aborted => self.move_to(Phase::Aborted, Action::Abort),
        }
    }
}

/// What a scripted remote store answers to one call.
#[derive(Debug, Clone, Copy, PartialEq, Eq, Structural)]
pub enum Reply {
    /// To a publish call: this many files are still unpublished.
    Remaining(usize),
    /// To a visibility call: done.
    Visible,
    /// To a visibility call: the file is not known yet.
    NotFound,
    /// To any call: it failed.
    Failed,
}

/// How a scripted run ended.
#[derive(Debug, Clone, Copy, PartialEq, Eq, Structural)]
pub enum Outcome {
    /// The protocol completed.
    Finished,
    /// The run was given up.
    Aborted,
    /// The script ran out while the coordinator still had a call to make.
    Pending,
}

/// A scripted run: what was done, and how it ended.
#[derive(Debug, Clone, PartialEq, Eq)]
pub struct Run {
    /// The calls and waits that were carried out, in order.
    pub performed: Vec<Action>,
    /// How the run ended.
    pub outcome: Outcome,
}

/// The event that a reply is reported as. A reply that does not fit the call
/// is reported as it is, and the coordinator gives the run up on it.
pub open spec fn event_of(reply: Reply) -> Event {
    match reply {
        Reply::Remaining(remaining) => Event::Published { remaining },
        Reply::Visible => Event::Visible,
        Reply::NotFound => Event::NotFound,
        Reply::Failed => Event::Failed,
    }
}

/// The run from the state `c` with `action` to carry out, against a store
/// that answers the calls with `replies` in turn. A wait takes no reply.
pub open spec fn drive(c: Coordinator, action: Action, replies: Seq<Reply>) -> (
    Seq<Action>,
    Outcome,
)
    decreases replies.len(), (if action is Sleep {
        1int
    } else {
        0int
    }),
{
    match action {
        Action::Finish => (Seq::empty(), Outcome::Finished),
        Action::Abort => (Seq::empty(), Outcome::Aborted),
        Action::Sleep { seconds } => {
            let next = c.step_spec(Event::Slept);
            let rest = drive(next.0, next.1, replies);
            (seq![action] + rest.0, rest.1)
        },
        _ => if replies.len() == 0 {
            (Seq::empty(), Outcome::Pending)
        } else {
            let next = c.step_spec(event_of(replies[0]));
            let rest = drive(next.0, next.1, replies.drop_first());
            (seq![action] + rest.0, rest.1)
        },
    }
}

/// The whole scripted run.
pub open spec fn scripted(
    publish: bool,
    show_in_download_list: bool,
    files: usize,
    replies: Seq<Reply>,
) -> (Seq<Action>, Outcome) {
    let start = Coordinator::begin_spec(publish, show_in_download_list, files);
    drive(start.0, start.1, replies)
}

/// Number of publish calls among `actions`.
pub open spec fn publish_calls(actions: Seq<Action>) -> nat
    decreases actions.len(),
{
    if actions.len() == 0 {
        0
    } else {
        publish_calls(actions.drop_first()) + if actions[0] is PublishVersion {
            1nat
        } else {
            0nat
        }
    }
}

/// Number of waits among `actions`.
pub open spec fn sleeps(actions: Seq<Action>) -> nat
    decreases actions.len(),
{
    if actions.len() == 0 {
        0
    } else {
        sleeps(actions.drop_first()) + if actions[0] is Sleep {
            1nat
        } else {
            0nat
        }
    }
}

/// A wait is never followed by another wait.
pub proof fn lemma_no_double_wait(c: Coordinator)
    ensures
        !(c.step_spec(Event::Slept).1 is Sleep),
{
}

/// A file counts as visible only once the call for it has succeeded: while
/// the coordinator waits for the answer to a visibility call, no event but
/// success takes it on to the next file or to the end. It tries the same file
/// again after "not found", and gives the run up on anything else.
pub proof fn lemma_visible_only_after_success(c: Coordinator, index: usize, event: Event)
    requires
        c.phase == (Phase::AwaitVisible { index }),
        event != Event::Visible,
    ensures
        c.step_spec(event) == if event == Event::NotFound {
            (c.at(Phase::VisibleBackoff { index }), pause())
        } else {
            (c.at(Phase::Aborted), Action::Abort)
        },
        c.at(Phase::VisibleBackoff { index }).step_spec(Event::Slept) == (
            c,
            Action::MarkVisible { index },
        ),
{
}

/// The replies of a store that reports `polls` to successive publish calls.
pub open spec fn poll_replies(polls: Seq<usize>) -> Seq<Reply> {
    polls.map_values(|remaining: usize| Reply::Remaining(remaining))
}

/// Phase A against a store that reports a positive count to the first `k`
/// publish calls and zero to the next: the coordinator calls `k + 1` times
/// and waits `k` times, once between two calls, and then completes.
pub proof fn lemma_publish_until_zero(files: usize, polls: Seq<usize>, k: int)
    requires
        0 <= k < polls.len(),
        polls[k] == 0,
        forall|j: int| 0 <= j < k ==> polls[j] > 0,
    ensures
        scripted(true, false, files, poll_replies(polls)).1 == Outcome::Finished,
        publish_calls(scripted(true, false, files, poll_replies(polls)).0) == k + 1,
        sleeps(scripted(true, false, files, poll_replies(polls)).0) == k,
        scripted(true, false, files, poll_replies(polls)).0.len() == 2 * k + 1,
{
    let c = Coordinator { phase: Phase::AwaitPublish, files, show_in_download_list: false };
    lemma_polling(c, polls, k);
}

proof fn lemma_polling(c: Coordinator, polls: Seq<usize>, k: int)
    requires
        c.phase == Phase::AwaitPublish,
        !c.show_in_download_list,
        0 <= k < polls.len(),
        polls[k] == 0,
        forall|j: int| 0 <= j < k ==> polls[j] > 0,
    ensures
        drive(c, Action::PublishVersion, poll_replies(polls)).1 == Outcome::Finished,
        publish_calls(drive(c, Action::PublishVersion, poll_replies(polls)).0) == k + 1,
        sleeps(drive(c, Action::PublishVersion, poll_replies(polls)).0) == k,
        drive(c, Action::PublishVersion, poll_replies(polls)).0.len() == 2 * k + 1,
    decreases k,
{
    let replies = poll_replies(polls);
    let whole = drive(c, Action::PublishVersion, replies);
    assert(replies[0] == Reply::Remaining(polls[0]));
    let next = c.step_spec(event_of(replies[0]));
    let rest = drive(next.0, next.1, replies.drop_first());
    assert(whole.0 == seq![Action::PublishVersion] + rest.0);
    assert(whole.0.drop_first() =~= rest.0);
    assert(whole.0[0] == Action::PublishVersion);
    assert(publish_calls(whole.0) == publish_calls(rest.0) + 1);
    assert(sleeps(whole.0) == sleeps(rest.0));
    if k == 0 {
        assert(next.1 == Action::Finish);
        assert(rest.0 =~= Seq::<Action>::empty());
    } else {
        assert(next.1 == pause());
        let woken = next.0.step_spec(Event::Slept);
        assert(woken.0 == c);
        assert(woken.1 == Action::PublishVersion);
        let later = polls.drop_first();
        assert(replies.drop_first() =~= poll_replies(later));
        assert forall|j: int| 0 <= j < k - 1 implies later[j] > 0 by {
            assert(later[j] == polls[j + 1]);
        }
        lemma_polling(c, later, k - 1);
        let tail = drive(c, Action::PublishVersion, poll_replies(later));
        assert(rest.0 == seq![pause()] + tail.0);
        assert(rest.0.drop_first() =~= tail.0);
        assert(rest.0[0] == pause());
        assert(publish_calls(rest.0) == publish_calls(tail.0));
        assert(sleeps(rest.0) == sleeps(tail.0) + 1);
    }
}

/// Phase A against a store that never reports zero: however many replies the
/// script holds, the coordinator has made a call for each, has waited after
/// each, and still has a call to make.
pub proof fn lemma_publish_never_zero(files: usize, show_in_download_list: bool, polls: Seq<usize>)
    requires
        forall|j: int| 0 <= j < polls.len() ==> polls[j] > 0,
    ensures
        scripted(true, show_in_download_list, files, poll_replies(polls)).1 == Outcome::Pending,
        publish_calls(scripted(true, show_in_download_list, files, poll_replies(polls)).0)
            == polls.len(),
        sleeps(scripted(true, show_in_download_list, files, poll_replies(polls)).0) == polls.len(),
{
    let c = Coordinator { phase: Phase::AwaitPublish, files, show_in_download_list };
    lemma_polling_forever(c, polls);
}

proof fn lemma_polling_forever(c: Coordinator, polls: Seq<usize>)
    requires
        c.phase == Phase::AwaitPublish,
        forall|j: int| 0 <= j < polls.len() ==> polls[j] > 0,
    ensures
        drive(c, Action::PublishVersion, poll_replies(polls)).1 == Outcome::Pending,
        publish_calls(drive(c, Action::PublishVersion, poll_replies(polls)).0) == polls.len(),
        sleeps(drive(c, Action::PublishVersion, poll_replies(polls)).0) == polls.len(),
    decreases polls.len(),
{
    let replies = poll_replies(polls);
    let whole = drive(c, Action::PublishVersion, replies);
    if polls.len() == 0 {
        assert(whole.0 =~= Seq::<Action>::empty());
    } else {
        assert(replies[0] == Reply::Remaining(polls[0]));
        let next = c.step_spec(event_of(replies[0]));
        let rest = drive(next.0, next.1, replies.drop_first());
        assert(whole.0 == seq![Action::PublishVersion] + rest.0);
        assert(whole.0.drop_first() =~= rest.0);
        assert(whole.0[0] == Action::PublishVersion);
        assert(publish_calls(whole.0) == publish_calls(rest.0) + 1);
        assert(sleeps(whole.0) == sleeps(rest.0));
        assert(next.1 == pause());
        let woken = next.0.step_spec(Event::Slept);
        assert(woken.0 == c);
        let later = polls.drop_first();
        assert(replies.drop_first() =~= poll_replies(later));
        assert forall|j: int| 0 <= j < later.len() implies later[j] > 0 by {
            assert(later[j] == polls[j + 1]);
        }
        lemma_polling_forever(c, later);
        let tail = drive(c, Action::PublishVersion, poll_replies(later));
        assert(rest.0 == seq![pause()] + tail.0);
        assert(rest.0.drop_first() =~= tail.0);
        assert(rest.0[0] == pause());
        assert(publish_calls(rest.0) == publish_calls(tail.0));
        assert(sleeps(rest.0) == sleeps(tail.0) + 1);
    }
}

/// The event that `reply` is reported as.
pub fn report(reply: Reply) -> (r: Event)
    ensures
        r == event_of(reply),
{
    match reply {
        Reply::Remaining(remaining) => Event::Published { remaining },
        Reply::Visible => Event::Visible,
        Reply::NotFound => Event::NotFound,
        Reply::Failed => Event::Failed,
    }
}

/// Runs the protocol against a scripted store, which answers the calls with
/// `replies` in turn, and without waiting for real. The run ends when the
/// protocol does, or when the script has no reply for the next call.
pub fn run_scripted(
    publish: bool,
    show_in_download_list: bool,
    files: usize,
    replies: &Vec<Reply>,
) -> (run: Run)
    ensures
        run.performed@ == scripted(publish, show_in_download_list, files, replies@).0,
        run.outcome == scripted(publish, show_in_download_list, files, replies@).1,
{
    let start = Coordinator::begin(publish, show_in_download_list, files);
    let mut state = start.0;
    let mut action = start.1;
    let mut performed: Vec<Action> = Vec::new();
    let mut used: usize = 0;
    let ghost whole = scripted(publish, show_in_download_list, files, replies@);
    proof {
        assert(replies@.skip(0) =~= replies@);
        assert(performed@ + whole.0 =~= whole.0);
    }
    loop
        invariant
            used <= replies.len(),
            whole == scripted(publish, show_in_download_list, files, replies@),
            whole.0 == performed@ + drive(state, action, replies@.skip(used as int)).0,
            whole.1 == drive(state, action, replies@.skip(used as int)).1,
        decreases replies.len() - used, (if action is Sleep {
            1int
        } else {
            0int
        }),
    {
        let ghost left = replies@.skip(used as int);
        let ghost before = performed@;
        match action {
            Action::Finish => {
                proof {
                    assert(performed@ + Seq::<Action>::empty() =~= performed@);
                }
                return Run { performed, outcome: Outcome::Finished };
            },
            Action::Abort => {
                proof {
                    assert(performed@ + Seq::<Action>::empty() =~= performed@);
                }
                return Run { performed, outcome: Outcome::Aborted };
            },
            Action::Sleep { seconds } => {
                let next = state.step(Event::Slept);
                proof {
                    let rest = drive(next.0, next.1, left);
                    assert(before.push(action) + rest.0 =~= before + (seq![action] + rest.0));
                }
                performed.push(action);
                state = next.0;
                action = next.1;
            },
            _ => {
                if used >= replies.len() {
                    proof {
                        assert(performed@ + Seq::<Action>::empty() =~= performed@);
                    }
                    return Run { performed, outcome: Outcome::Pending };
                }
                let next = state.step(report(replies[used]));
                proof {
                    assert(left[0] == replies@[used as int]);
                    assert(left.drop_first() =~= replies@.skip(used + 1));
                    let rest = drive(next.0, next.1, left.drop_first());
                    assert(before.push(action) + rest.0 =~= before + (seq![action] + rest.0));
                }
                performed.push(action);
                used = used + 1;
                state = next.0;
                action = next.1;
            },
        }
    }
}

} // verus!
