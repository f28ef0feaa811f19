use vstd::prelude::*;

use crate::args::Args;
use crate::commit::{CommitRef, distinct};
use crate::window::{partition, views, windows_of, lemma_windows_partition};

verus! {

/// Attempts made at pushing one window before its failure is final.
pub const MAX_ATTEMPTS: u32 = 4;

/// Delay before the first retry of a window; each later retry waits twice
/// as long as the one before.
pub const BASE_DELAY_MS: u64 = 500;

/// Why a push run stopped short.
#[derive(Clone, Copy, Debug, PartialEq, Eq, Structural)]
pub enum PushError {
    /// The remote holds commits the local tip does not reach, and overwrite
    /// is off.
    HistoryDiverged,
    /// Window `window` kept failing transiently until the attempts ran out.
    TransientExhausted { window: usize },
    /// The push of window `window` was rejected for good.
    Permanent { window: usize },
    /// The checkpoint after window `window` could not be stored.
    CheckpointStore { window: usize },
}

/// What the caller reports back after carrying out an action.
#[derive(Clone, Copy, Debug, PartialEq, Eq, Structural)]
pub enum Event {
    /// The push succeeded.
    Pushed,
    /// The push failed in a way worth retrying (network, timeout, interrupt).
    TransientFailure,
    /// The push was rejected (authentication, protocol, non-fast-forward).
    PermanentFailure,
    /// The checkpoint was stored.
    Saved,
    /// The checkpoint could not be stored.
    SaveFailed,
}

/// What the caller is to do next.
#[derive(Clone, Copy, Debug, PartialEq, Eq, Structural)]
pub enum Action {
    /// Wait `delay_ms` milliseconds, then move the remote branch to `tip`,
    /// forcing the update when `force` is set.
    Push { tip: CommitRef, force: bool, delay_ms: u64 },
    /// Store `commit` as the last pushed commit.
    SaveCheckpoint { commit: CommitRef },
    /// Every window is pushed: remove the checkpoint and stop with success.
    ClearCheckpoint,
    /// Stop with `error`; the checkpoint stays as it is.
    Fail { error: PushError },
}

/// Where a run stands.
#[derive(Clone, Copy, Debug, PartialEq, Eq, Structural)]
pub enum Phase {
    Pushing,
    Saving,
    Done,
    Failed,
}

/// `c` first occurs in `s` at index `i`.
pub open spec fn first_at(s: Seq<CommitRef>, c: CommitRef, i: int) -> bool {
    &&& 0 <= i < s.len()
    &&& s[i] == c
    &&& forall|j: int| 0 <= j < i ==> s[j] != c
}

/// Index of the first commit after the checkpoint: just past the
/// checkpointed commit when `s` holds it, else the start of `s`.
pub open spec fn resume_start(s: Seq<CommitRef>, checkpoint: Option<CommitRef>) -> int {
    if checkpoint is Some && exists|i: int| first_at(s, checkpoint->Some_0, i) {
        (choose|i: int| first_at(s, checkpoint->Some_0, i)) + 1
    } else {
        0
    }
}

/// The missing commits (oldest first) that are still to be pushed.
pub open spec fn pending(
    missing: Seq<CommitRef>,
    checkpoint: Option<CommitRef>,
    resume: bool,
) -> Seq<CommitRef> {
    if resume {
        missing.skip(resume_start(missing, checkpoint))
    } else {
        missing
    }
}

/// The windows a run pushes, in order. When nothing is left to send but the
/// histories have diverged (so overwrite is on), the one push resets the
/// remote branch to the local tip.
pub open spec fn plan_of(
    missing: Seq<CommitRef>,
    local_tip: CommitRef,
    checkpoint: Option<CommitRef>,
    resume: bool,
    window_size: nat,
    diverged: bool,
) -> Seq<Seq<CommitRef>> {
    let ws = windows_of(pending(missing, checkpoint, resume), window_size);
    if ws.len() == 0 && diverged {
        seq![seq![local_tip]]
    } else {
        ws
    }
}

/// Wait before attempt number `attempt` (0 for the first) of a window.
pub open spec fn backoff(attempt: nat) -> nat
    decreases attempt,
{
    if attempt == 0 {
        0
    } else if attempt == 1 {
        BASE_DELAY_MS as nat
    } else {
        2 * backoff((attempt - 1) as nat)
    }
}

/// Resuming from a commit that first occurs at `i` starts just past it.
proof fn lemma_resume_start_at(s: Seq<CommitRef>, c: CommitRef, i: int)
    requires
        first_at(s, c, i),
    ensures
        resume_start(s, Some(c)) == i + 1,
{
    let k = choose|k: int| first_at(s, c, k);
    assert(first_at(s, c, k));
    if k < i {
        assert(s[k] == c);
    } else if i < k {
        assert(s[i] == c);
    }
    assert(k == i);
    assert(Some(c) is Some);
    assert(Some(c)->Some_0 == c);
    assert(exists|j: int| first_at(s, Some(c)->Some_0, j));
}

/// The layer a failed push reports its error from.
#[derive(Clone, Copy, Debug, PartialEq, Eq, Structural)]
pub enum ErrorOrigin {
    /// The network transport.
    Net,
    /// The operating system (sockets, timeouts).
    Os,
    /// The smart HTTP transport.
    Http,
    /// The SSH transport.
    Ssh,
    /// Anything else.
    Other,
}

/// What a failed push reports as the cause.
#[derive(Clone, Copy, Debug, PartialEq, Eq, Structural)]
pub enum ErrorReason {
    /// Authentication was refused.
    Auth,
    /// The server's certificate was refused.
    Certificate,
    /// The remote refused an update that is not a fast-forward.
    NotFastForward,
    /// No more specific cause.
    Other,
}

/// A failure is worth retrying when it comes from the network, the system or
/// a transport and is not a refusal of credentials, certificate or update.
pub open spec fn is_transient(origin: ErrorOrigin, reason: ErrorReason) -> bool {
    &&& reason == ErrorReason::Other
    &&& origin != ErrorOrigin::Other
}

/// The event that a push failing with `origin` and `reason` reports.
pub fn failure_event(origin: ErrorOrigin, reason: ErrorReason) -> (r: Event)
    ensures
        r == (if is_transient(origin, reason) {
            Event::TransientFailure
        } else {
            Event::PermanentFailure
        }),
{
    match (origin, reason) {
        (ErrorOrigin::Other, _) => Event::PermanentFailure,
        (_, ErrorReason::Other) => Event::TransientFailure,
        _ => Event::PermanentFailure,
    }
}

/// First index of `c` in `s`, if any.
fn find_first(s: &Vec<CommitRef>, c: CommitRef) -> (r: Option<usize>)
    ensures
        r matches Some(i) ==> first_at(s@, c, i as int),
        r is None ==> forall|j: int| 0 <= j < s@.len() ==> s@[j] != c,
{
    let mut i: usize = 0;
    while i < s.len()
        invariant
            i <= s@.len(),
            forall|j: int| 0 <= j < i ==> s@[j] != c,
        decreases s@.len() - i,
    {
        if s[i] == c {
            return Some(i);
        }
        i = i + 1;
    }
    None
}

/// The missing commits still to push after resuming from `checkpoint`.
pub fn pending_commits(
    missing: &Vec<CommitRef>,
    checkpoint: Option<CommitRef>,
    resume: bool,
) -> (r: Vec<CommitRef>)
    ensures
        r@ == pending(missing@, checkpoint, resume),
{
    let mut start: usize = 0;
    if resume {
        if let Some(c) = checkpoint {
            match find_first(missing, c) {
                Some(i) => {
                    proof {
                        lemma_resume_start_at(missing@, c, i as int);
                    }
                    assert(i < missing.len());
                    start = i + 1;
                },
                None => {},
            }
        }
    }
    let mut out: Vec<CommitRef> = Vec::new();
    let mut k: usize = start;
    while k < missing.len()
        invariant
            start <= k <= missing@.len(),
            out@ == missing@.subrange(start as int, k as int),
        decreases missing@.len() - k,
    {
        out.push(missing[k]);
        k = k + 1;
        assert(out@ =~= missing@.subrange(start as int, k as int));
    }
    assert(out@ =~= pending(missing@, checkpoint, resume));
    out
}

/// The windowed push run: a state machine that decides, from what the caller
/// reports, which push, checkpoint or stop comes next.
pub struct PushEngine {
    windows: Vec<Vec<CommitRef>>,
    force: bool,
    next: usize,
    attempts: u32,
    phase: Phase,
}

impl PushEngine {
    /// The windows of the run, in push order.
    pub closed spec fn plan(&self) -> Seq<Seq<CommitRef>> {
        views(self.windows@)
    }

    /// Whether every push forces the remote update.
    pub closed spec fn forced(&self) -> bool {
        self.force
    }

    /// Index of the window being pushed (or of the first not yet pushed).
    pub closed spec fn current(&self) -> nat {
        self.next as nat
    }

    /// Failed attempts so far at the current window.
    pub closed spec fn failed_attempts(&self) -> nat {
        self.attempts as nat
    }

    pub closed spec fn state(&self) -> Phase {
        self.phase
    }

    pub closed spec fn wf(&self) -> bool {
        &&& self.next <= self.windows@.len()
        &&& self.attempts < MAX_ATTEMPTS
        &&& (self.phase == Phase::Pushing || self.phase == Phase::Saving) ==> self.next
            < self.windows@.len()
        &&& self.phase == Phase::Done ==> self.next == self.windows@.len()
        &&& forall|i: int| 0 <= i < self.windows@.len() ==> #[trigger] self.windows@[i]@.len() >= 1
    }

    /// The commit that window `i` moves the remote branch to: its newest.
    pub open spec fn tip_of(&self, i: int) -> CommitRef {
        self.plan()[i].last()
    }

    /// The push of the current window, after `attempt` failed attempts.
    fn push_action(&self) -> (r: Action)
        requires
            self.wf(),
            self.next < self.windows@.len(),
        ensures
            r == (Action::Push {
                tip: self.tip_of(self.current() as int),
                force: self.forced(),
                delay_ms: backoff(self.failed_attempts()) as u64,
            }),
    {
        let w = &self.windows[self.next];
        assert(w@.len() >= 1);
        let tip = w[w.len() - 1];
        let mut delay: u64 = 0;
        let mut k: u32 = 0;
        while k < self.attempts
            invariant
                k <= self.attempts < MAX_ATTEMPTS,
                delay as nat == backoff(k as nat),
                k == 0 ==> delay == 0,
                k == 1 ==> delay == BASE_DELAY_MS,
                k == 2 ==> delay == 2 * BASE_DELAY_MS,
                k == 3 ==> delay == 4 * BASE_DELAY_MS,
            decreases self.attempts - k,
        {
            delay = if k == 0 { BASE_DELAY_MS } else { 2 * delay };
            k = k + 1;
        }
        Action::Push { tip, force: self.force, delay_ms: delay }
    }

    /// Starts a run. `missing` lists the commits the local tip reaches and the
    /// remote tip does not, oldest first; `diverged` says whether the remote
    /// tip is not an ancestor of `local_tip`.
    pub fn start(
        missing: &Vec<CommitRef>,
        local_tip: CommitRef,
        checkpoint: Option<CommitRef>,
        args: &Args,
        diverged: bool,
    ) -> (r: (PushEngine, Action))
        requires
            args.window_size >= 1,
        ensures
            r.0.wf(),
            diverged && !args.overwrite ==> {
                &&& r.1 == (Action::Fail { error: PushError::HistoryDiverged })
                &&& r.0.state() == Phase::Failed
            },
            !(diverged && !args.overwrite) ==> {
                &&& r.0.plan() == plan_of(
                    missing@,
                    local_tip,
                    checkpoint,
                    args.resume,
                    args.window_size as nat,
                    diverged,
                )
                &&& r.0.forced() == args.overwrite
                &&& r.0.current() == 0
                &&& r.0.failed_attempts() == 0
                &&& r.0.plan().len() == 0 ==> r.0.state() == Phase::Done && r.1
                    == Action::ClearCheckpoint
                &&& r.0.plan().len() > 0 ==> r.0.state() == Phase::Pushing && r.1 == (
                Action::Push { tip: r.0.tip_of(0), force: args.overwrite, delay_ms: 0 })
            },
    {
        if diverged && !args.overwrite {
            let e = PushEngine {
                windows: Vec::new(),
                force: false,
                next: 0,
                attempts: 0,
                phase: Phase::Failed,
            };
            return (e, Action::Fail { error: PushError::HistoryDiverged });
        }
        let todo = pending_commits(missing, checkpoint, args.resume);
        let mut windows = partition(&todo, args.window_size);
        proof {
            lemma_windows_partition(todo@, args.window_size as nat);
        }
        if windows.len() == 0 && diverged {
            let only = vec![local_tip];
            assert(only@ =~= seq![local_tip]);
            windows.push(only);
            assert(views(windows@) =~= seq![seq![local_tip]]);
        }
        let ghost ws = views(windows@);
        assert(forall|i: int| 0 <= i < windows@.len() ==> ws[i] == #[trigger] windows@[i]@);
        if windows.len() == 0 {
            let e = PushEngine { windows, force: args.overwrite, next: 0, attempts: 0, phase: Phase::Done };
            (e, Action::ClearCheckpoint)
        } else {
            let e = PushEngine {
                windows,
                force: args.overwrite,
                next: 0,
                attempts: 0,
                phase: Phase::Pushing,
            };
            let a = e.push_action();
            (e, a)
        }
    }

    /// Whether `event` answers the action last handed out.
    pub open spec fn accepts(&self, event: Event) -> bool {
        match self.state() {
            Phase::Pushing => event == Event::Pushed || event == Event::TransientFailure || event
                == Event::PermanentFailure,
            Phase::Saving => event == Event::Saved || event == Event::SaveFailed,
            _ => false,
        }
    }

    pub fn is_accepted(&self, event: Event) -> (r: bool)
        ensures
            r == self.accepts(event),
    {
        match self.phase {
            Phase::Pushing => match event {
                Event::Pushed | Event::TransientFailure | Event::PermanentFailure => true,
                _ => false,
            },
            Phase::Saving => match event {
                Event::Saved | Event::SaveFailed => true,
                _ => false,
            },
            _ => false,
        }
    }

    /// Takes the outcome of the last action and returns the next one.
    pub fn step(&mut self, event: Event) -> (r: Action)
        requires
            old(self).wf(),
            old(self).accepts(event),
        ensures
            final(self).wf(),
            final(self).plan() == old(self).plan(),
            final(self).forced() == old(self).forced(),
            ({
                let i = old(self).current() as int;
                let n = old(self).plan().len();
                match event {
                    Event::Pushed => {
                        &&& r == (Action::SaveCheckpoint { commit: old(self).tip_of(i) })
                        &&& final(self).state() == Phase::Saving
                        &&& final(self).current() == i
                    },
                    Event::TransientFailure => if old(self).failed_attempts() + 1 < MAX_ATTEMPTS {
                        &&& final(self).state() == Phase::Pushing
                        &&& final(self).current() == i
                        &&& final(self).failed_attempts() == old(self).failed_attempts() + 1
                        &&& r == (Action::Push {
                            tip: old(self).tip_of(i),
                            force: old(self).forced(),
                            delay_ms: backoff(final(self).failed_attempts()) as u64,
                        })
                    } else {
                        &&& final(self).state() == Phase::Failed
                        &&& final(self).current() == i
                        &&& r == (Action::Fail {
                            error: PushError::TransientExhausted { window: i as usize },
                        })
                    },
                    Event::PermanentFailure => {
                        &&& final(self).state() == Phase::Failed
                        &&& final(self).current() == i
                        &&& r == (Action::Fail { error: PushError::Permanent { window: i as usize } })
                    },
                    Event::Saved => {
                        &&& final(self).current() == i + 1
                        &&& final(self).failed_attempts() == 0
                        &&& i + 1 == n ==> final(self).state() == Phase::Done && r
                            == Action::ClearCheckpoint
                        &&& i + 1 < n ==> final(self).state() == Phase::Pushing && r == (
                        Action::Push { tip: old(self).tip_of(i + 1), force: old(self).forced(), delay_ms: 0 })
                    },
                    Event::SaveFailed => {
                        &&& final(self).state() == Phase::Failed
                        &&& final(self).current() == i
                        &&& r == (Action::Fail {
                            error: PushError::CheckpointStore { window: i as usize },
                        })
                    },
                }
            }),
    {
        match event {
            Event::Pushed => {
                self.phase = Phase::Saving;
                let w = &self.windows[self.next];
                assert(w@.len() >= 1);
                Action::SaveCheckpoint { commit: w[w.len() - 1] }
            },
            Event::TransientFailure => {
                if self.attempts + 1 < MAX_ATTEMPTS {
                    self.attempts = self.attempts + 1;
                    self.push_action()
                } else {
                    self.phase = Phase::Failed;
                    Action::Fail { error: PushError::TransientExhausted { window: self.next } }
                }
            },
            Event::PermanentFailure => {
                self.phase = Phase::Failed;
                Action::Fail { error: PushError::Permanent { window: self.next } }
            },
            Event::Saved => {
                assert(self.phase == Phase::Saving);
                assert(self.next < self.windows.len());
                self.next = self.next + 1;
                self.attempts = 0;
                if self.next == self.windows.len() {
                    self.phase = Phase::Done;
                    Action::ClearCheckpoint
                } else {
                    self.phase = Phase::Pushing;
                    self.push_action()
                }
            },
            Event::SaveFailed => {
                self.phase = Phase::Failed;
                Action::Fail { error: PushError::CheckpointStore { window: self.next } }
            },
        }
    }

    /// The phase the run is in.
    pub fn phase(&self) -> (r: Phase)
        ensures
            r == self.state(),
    {
        self.phase
    }

    /// Process exit status for the run: 0 once every window is pushed,
    /// 1 otherwise.
    pub fn exit_code(&self) -> (r: i32)
        ensures
            r == (if self.state() == Phase::Done { 0i32 } else { 1i32 }),
    {
        if self.phase == Phase::Done {
            0
        } else {
            1
        }
    }
}

/// Resuming after a crash that struck any time after window `j` was
/// checkpointed sends exactly the commits that come after that window: none
/// of the confirmed ones again, and none of the later ones left out.
pub proof fn lemma_resume_after_crash(missing: Seq<CommitRef>, local_tip: CommitRef, w: nat, j: int)
    requires
        distinct(missing),
        w >= 1,
        0 <= j < windows_of(missing, w).len(),
    ensures
        ({
            let n = missing.len() as int;
            let end = if n <= (j + 1) * w { n } else { (j + 1) * w };
            let saved = windows_of(missing, w)[j].last();
            &&& pending(missing, Some(saved), true) == missing.skip(end)
            &&& plan_of(missing, local_tip, Some(saved), true, w, false).flatten() == missing.skip(
                end,
            )
        }),
{
    lemma_windows_partition(missing, w);
    let n = missing.len() as int;
    let end = if n <= (j + 1) * w { n } else { (j + 1) * w };
    let win = windows_of(missing, w)[j];
    let saved = win.last();
    assert(win == missing.subrange(j * w, end));
    assert(0 <= j * w < n);
    assert((j + 1) * w == j * w + w) by (nonlinear_arith);
    assert(0 <= j * w < end);
    assert(win.len() == end - j * w);
    assert(saved == win[win.len() - 1]);
    assert(saved == missing[end - 1]);
    assert(first_at(missing, saved, end - 1));
    lemma_resume_start_at(missing, saved, end - 1);
    assert(resume_start(missing, Some(saved)) == end);
    lemma_windows_partition(missing.skip(end), w);
}

/// Whenever a run pushes at all, diverged or not, its last push moves the
/// remote branch to the local tip. The walk, when not empty, ends at the
/// local tip, as a walk from that tip does.
pub proof fn lemma_last_push_reaches_local_tip(
    missing: Seq<CommitRef>,
    local_tip: CommitRef,
    checkpoint: Option<CommitRef>,
    resume: bool,
    w: nat,
    diverged: bool,
)
    requires
        w >= 1,
        missing.len() > 0 ==> missing.last() == local_tip,
    ensures
        plan_of(missing, local_tip, checkpoint, resume, w, diverged).len() > 0 ==> plan_of(
            missing,
            local_tip,
            checkpoint,
            resume,
            w,
            diverged,
        ).last().last() == local_tip,
{
    let p = pending(missing, checkpoint, resume);
    lemma_windows_partition(p, w);
    if p.len() > 0 {
        if resume {
            let s = resume_start(missing, checkpoint);
            assert(0 <= s <= missing.len()) by {
                if checkpoint is Some && exists|i: int| first_at(missing, checkpoint->Some_0, i) {
                    let k = choose|i: int| first_at(missing, checkpoint->Some_0, i);
                    assert(first_at(missing, checkpoint->Some_0, k));
                }
            }
            assert(p.last() == missing.last());
        }
    }
}

/// With overwrite on and diverged histories, a run always pushes at least
/// once, and its last push moves the remote branch to the local tip.
pub proof fn lemma_overwrite_reaches_local_tip(
    missing: Seq<CommitRef>,
    local_tip: CommitRef,
    checkpoint: Option<CommitRef>,
    resume: bool,
    w: nat,
)
    requires
        w >= 1,
        missing.len() > 0 ==> missing.last() == local_tip,
    ensures
        plan_of(missing, local_tip, checkpoint, resume, w, true).len() > 0,
        plan_of(missing, local_tip, checkpoint, resume, w, true).last().last() == local_tip,
{
    lemma_last_push_reaches_local_tip(missing, local_tip, checkpoint, resume, w, true);
}

/// A run that refused diverged histories, or that failed in any other way,
/// takes no further event, so it hands out no push: with overwrite off, a
/// diverged remote is left exactly as it was.
pub proof fn lemma_failed_run_is_final(e: PushEngine, event: Event)
    requires
        e.state() == Phase::Failed,
    ensures
        !e.accepts(event),
{
}

} // verus!
