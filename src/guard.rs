//! The decision engine: from the recorded versions and the cache to a plan,
//! from a plan to the commands it runs, and the run of a plan step by step.
use vstd::prelude::*;
use crate::config::opt_view;
use crate::cache::{Timestamp, Cache, is_recent, elapsed_secs};

verus! {

/// What one run observes before it decides.
#[derive(Clone, Copy, Debug, PartialEq, Eq, Structural)]
pub struct Status {
    /// A current version is recorded.
    pub applied: bool,
    /// Current and target versions are both recorded and equal.
    pub versions_match: bool,
    /// The last success lies within the freshness window.
    pub recently_ok: bool,
}

/// What a run does.
#[derive(Clone, Copy, Debug, PartialEq, Eq, Structural)]
pub enum Plan {
    /// The patcher is not installed: nothing is done, the cache is kept.
    SkipNotInstalled,
    /// Already applied, matching and recently confirmed: nothing is done.
    SkipFresh,
    /// Applied and matching: only the cache is brought up to date.
    Refresh,
    /// Never applied: stop the application, back up, apply, restart.
    InitialApply,
    /// Applied against another version: stop the application, restore the
    /// backup, back up, apply, restart.
    Upgrade,
    /// No commands are needed; the cache is brought up to date.
    SkipNoCommands,
}

/// The decision table, first matching row first.
pub open spec fn decide_spec(installed: bool, s: Status) -> Plan {
    if !installed {
        Plan::SkipNotInstalled
    } else if s.applied && s.versions_match && s.recently_ok {
        Plan::SkipFresh
    } else if s.applied && s.versions_match {
        Plan::Refresh
    } else if !s.applied {
        Plan::InitialApply
    } else if !s.versions_match {
        Plan::Upgrade
    } else {
        Plan::SkipNoCommands
    }
}

/// The status of a run at `now` that found `current` and `target` in the
/// configuration and `last_ok` in the cache.
pub open spec fn status_spec(
    current: Option<Seq<char>>,
    target: Option<Seq<char>>,
    last_ok: Option<Timestamp>,
    now: Timestamp,
    window_secs: u64,
) -> Status {
    Status {
        applied: current is Some,
        versions_match: current is Some && current == target,
        recently_ok: is_recent(last_ok, now, window_secs),
    }
}

/// Whether a run that ends without a failure records itself in the cache.
pub open spec fn updates_cache(p: Plan) -> bool {
    match p {
        Plan::SkipNotInstalled | Plan::SkipFresh => false,
        _ => true,
    }
}

/// Picks the plan for a run.
pub fn decide(installed: bool, status: Status) -> (r: Plan)
    ensures
        r == decide_spec(installed, status),
{
    if !installed {
        Plan::SkipNotInstalled
    } else if status.applied && status.versions_match && status.recently_ok {
        Plan::SkipFresh
    } else if status.applied && status.versions_match {
        Plan::Refresh
    } else if !status.applied {
        Plan::InitialApply
    } else if !status.versions_match {
        Plan::Upgrade
    } else {
        Plan::SkipNoCommands
    }
}

/// Whether both versions are recorded and equal, character for character.
pub fn versions_match(current: &Option<String>, target: &Option<String>) -> (r: bool)
    ensures
        r == (opt_view(*current) is Some && opt_view(*current) == opt_view(*target)),
{
    match (current, target) {
        (Some(c), Some(t)) => c.eq(t),
        _ => false,
    }
}

/// The status of a run at `now`, from the versions in the configuration and
/// the cache.
pub fn status_of(
    current: &Option<String>,
    target: &Option<String>,
    cache: &Cache,
    now: Timestamp,
    window_secs: u64,
) -> (r: Status)
    requires
        cache.wf(),
        now.wf(),
    ensures
        r == status_spec(opt_view(*current), opt_view(*target), cache.last_ok, now, window_secs),
{
    Status {
        applied: current.is_some(),
        versions_match: versions_match(current, target),
        recently_ok: cache.is_recently_ok(now, window_secs),
    }
}

/// Whether `updates_cache(p)`.
pub fn plan_updates_cache(p: Plan) -> (r: bool)
    ensures
        r == updates_cache(p),
{
    match p {
        Plan::SkipNotInstalled | Plan::SkipFresh => false,
        _ => true,
    }
}

/// One external command of a plan.
#[derive(Clone, Copy, Debug, PartialEq, Eq, Structural)]
pub enum Step {
    /// Force-stop the target application.
    StopApp,
    /// Restore the patcher's backup of the pristine application.
    RestoreBackup,
    /// Back up the pristine application.
    Backup,
    /// Apply the patcher's modifications.
    Apply,
    /// Restart the application.
    Restart,
}

/// The program that runs a step.
#[derive(Clone, Copy, Debug, PartialEq, Eq, Structural)]
pub enum Program {
    /// The patcher's own executable.
    Patcher,
    /// The operating system's force-terminate command.
    TaskKill,
}

/// The commands of each plan, in order.
pub open spec fn plan_steps(p: Plan) -> Seq<Step> {
    match p {
        Plan::InitialApply => seq![Step::StopApp, Step::Backup, Step::Apply, Step::Restart],
        Plan::Upgrade => seq![
            Step::StopApp,
            Step::RestoreBackup,
            Step::Backup,
            Step::Apply,
            Step::Restart,
        ],
        _ => Seq::empty(),
    }
}

/// A step whose failure is logged and passed over; any other failure ends
/// the run.
pub open spec fn is_soft(s: Step) -> bool {
    s == Step::StopApp
}

/// The program of each step.
pub open spec fn step_program(s: Step) -> Program {
    match s {
        Step::StopApp => Program::TaskKill,
        _ => Program::Patcher,
    }
}

/// The argument tokens of each step, exactly as the programs expect them.
pub open spec fn step_args(s: Step) -> Seq<Seq<char>> {
    match s {
        Step::StopApp => seq!["/F"@, "/IM"@, "Spotify.exe"@],
        Step::RestoreBackup => seq!["-n"@, "restore"@, "backup"@, "--bypass-admin"@],
        Step::Backup => seq!["-n"@, "backup"@, "--bypass-admin"@],
        Step::Apply => seq!["-n"@, "apply"@, "--bypass-admin"@],
        Step::Restart => seq!["restart"@, "--bypass-admin"@],
    }
}

/// The commands of a plan, in order.
pub fn steps_of(p: Plan) -> (r: Vec<Step>)
    ensures
        r@ == plan_steps(p),
{
    let r = match p {
        Plan::InitialApply => vec![Step::StopApp, Step::Backup, Step::Apply, Step::Restart],
        Plan::Upgrade => vec![
            Step::StopApp,
            Step::RestoreBackup,
            Step::Backup,
            Step::Apply,
            Step::Restart,
        ],
        _ => Vec::new(),
    };
    assert(r@ =~= plan_steps(p));
    r
}

impl Step {
    /// Whether a failure of this step is passed over.
    pub fn soft(self) -> (r: bool)
        ensures
            r == is_soft(self),
    {
        match self {
            Step::StopApp => true,
            _ => false,
        }
    }

    /// The program that runs this step.
    pub fn program(self) -> (r: Program)
        ensures
            r == step_program(self),
    {
        match self {
            Step::StopApp => Program::TaskKill,
            _ => Program::Patcher,
        }
    }

    /// The argument tokens of this step.
    pub fn args(self) -> (r: Vec<String>)
        ensures
            r@.len() == step_args(self).len(),
            forall|i: int| 0 <= i < r@.len() ==> #[trigger] r@[i]@ == step_args(self)[i],
    {
        let words: Vec<&str> = match self {
            Step::StopApp => vec!["/F", "/IM", "Spotify.exe"],
            Step::RestoreBackup => vec!["-n", "restore", "backup", "--bypass-admin"],
            Step::Backup => vec!["-n", "backup", "--bypass-admin"],
            Step::Apply => vec!["-n", "apply", "--bypass-admin"],
            Step::Restart => vec!["restart", "--bypass-admin"],
        };
        let mut r: Vec<String> = Vec::new();
        let mut i: usize = 0;
        while i < words.len()
            invariant
                i <= words.len(),
                words@.len() == step_args(self).len(),
                forall|j: int| 0 <= j < words@.len() ==> #[trigger] words@[j]@ == step_args(self)[j],
                r@.len() == i,
                forall|j: int| 0 <= j < i ==> #[trigger] r@[j]@ == step_args(self)[j],
            decreases words.len() - i,
        {
            r.push(words[i].to_owned());
            i = i + 1;
        }
        r
    }
}

/// The plan for a run at `now`, from the installation check, the versions
/// in the configuration and the cache.
pub fn plan_for(
    installed: bool,
    current: &Option<String>,
    target: &Option<String>,
    cache: &Cache,
    now: Timestamp,
    window_secs: u64,
) -> (r: Plan)
    requires
        cache.wf(),
        now.wf(),
    ensures
        r == decide_spec(
            installed,
            status_spec(opt_view(*current), opt_view(*target), cache.last_ok, now, window_secs),
        ),
{
    let status = status_of(current, target, cache, now, window_secs);
    decide(installed, status)
}

/// The condition of each row of the decision table, as the table writes it.
pub open spec fn row_condition(row: int, installed: bool, s: Status) -> bool {
    if row == 0 {
        !installed
    } else if row == 1 {
        s.applied && s.versions_match && s.recently_ok
    } else if row == 2 {
        s.applied && s.versions_match && !s.recently_ok
    } else if row == 3 {
        !s.applied
    } else if row == 4 {
        s.applied && !s.versions_match
    } else {
        s.applied && s.versions_match
    }
}

/// A row applies when its condition holds and no earlier row's does.
pub open spec fn row_applies(row: int, installed: bool, s: Status) -> bool {
    0 <= row < 6 && row_condition(row, installed, s) && forall|j: int|
        0 <= j < row ==> !#[trigger] row_condition(j, installed, s)
}

/// The plan of each row.
pub open spec fn row_plan(row: int) -> Plan {
    if row == 0 {
        Plan::SkipNotInstalled
    } else if row == 1 {
        Plan::SkipFresh
    } else if row == 2 {
        Plan::Refresh
    } else if row == 3 {
        Plan::InitialApply
    } else if row == 4 {
        Plan::Upgrade
    } else {
        Plan::SkipNoCommands
    }
}

/// For every input exactly one row of the decision table applies, the plan
/// picked is that row's, and its commands are the row's: none for the skips
/// and the refresh; for the two corrective plans a single stop of the
/// application first and a single restart last.
pub proof fn lemma_decision_table_total(installed: bool, s: Status)
    ensures
        exists|row: int| #[trigger] row_applies(row, installed, s),
        forall|r1: int, r2: int|
            #[trigger] row_applies(r1, installed, s) && #[trigger] row_applies(r2, installed, s)
                ==> r1 == r2,
        forall|row: int|
            #[trigger] row_applies(row, installed, s) ==> decide_spec(installed, s) == row_plan(
                row,
            ),
        plan_steps(Plan::SkipNotInstalled).len() == 0,
        plan_steps(Plan::SkipFresh).len() == 0,
        plan_steps(Plan::Refresh).len() == 0,
        plan_steps(Plan::SkipNoCommands).len() == 0,
        plan_steps(Plan::InitialApply) == seq![
            Step::StopApp,
            Step::Backup,
            Step::Apply,
            Step::Restart,
        ],
        plan_steps(Plan::Upgrade) == seq![
            Step::StopApp,
            Step::RestoreBackup,
            Step::Backup,
            Step::Apply,
            Step::Restart,
        ],
        forall|p: Plan, i: int|
            0 <= i < plan_steps(p).len() ==> ((#[trigger] plan_steps(p)[i] == Step::StopApp) == (i
                == 0) && (plan_steps(p)[i] == Step::Restart) == (i == plan_steps(p).len() - 1)),
{
    let first = if !installed {
        0int
    } else if s.applied && s.versions_match && s.recently_ok {
        1int
    } else if s.applied && s.versions_match {
        2int
    } else if !s.applied {
        3int
    } else {
        4int
    };
    assert(row_applies(first, installed, s));
    assert forall|r1: int, r2: int|
        #[trigger] row_applies(r1, installed, s) && #[trigger] row_applies(r2, installed, s)
            implies r1 == r2 by {
        if r1 < r2 {
            assert(!row_condition(r1, installed, s));
        } else if r2 < r1 {
            assert(!row_condition(r2, installed, s));
        }
    }
    assert forall|row: int| #[trigger] row_applies(row, installed, s) implies decide_spec(
        installed,
        s,
    ) == row_plan(row) by {
        if row < first {
            assert(!row_condition(row, installed, s));
        } else if first < row {
            assert(!row_condition(first, installed, s));
        }
    }
}

/// Two runs in immediate succession on an applied, matching configuration:
/// neither runs a command, and the second finds the guard fresh, whatever
/// the first found in the cache.
pub proof fn lemma_second_run_is_fresh(
    current: Option<Seq<char>>,
    target: Option<Seq<char>>,
    last_ok: Option<Timestamp>,
    now: Timestamp,
    window_secs: u64,
)
    requires
        current is Some,
        current == target,
        window_secs > 0,
    ensures
        ({
            let first = decide_spec(true, status_spec(current, target, last_ok, now, window_secs));
            let recorded = if updates_cache(first) {
                Some(now)
            } else {
                last_ok
            };
            let second = decide_spec(
                true,
                status_spec(current, target, recorded, now, window_secs),
            );
            &&& plan_steps(first).len() == 0
            &&& second == Plan::SkipFresh
            &&& plan_steps(second).len() == 0
        }),
{
    assert(elapsed_secs(now, now) == 0);
}

/// Where a run stands.
#[derive(Clone, Copy, Debug, PartialEq, Eq, Structural)]
pub enum Phase {
    /// A step of the plan is to run next.
    Running,
    /// The steps are done; the cache is to be saved.
    Saving,
    /// The run is over and ends with status 0.
    Succeeded,
    /// A hard step or the save failed; the run ends with status 1.
    Failed,
}

/// What the caller is to do next.
#[derive(Clone, Copy, Debug, PartialEq, Eq, Structural)]
pub enum Action {
    /// Run this step and report whether it succeeded.
    Run(Step),
    /// Record the run in the cache, save it and report whether that succeeded.
    SaveCache,
    /// End the process with this status.
    Exit(i32),
}

/// The phase in which a run of `p` starts.
pub open spec fn start_phase(p: Plan) -> Phase {
    if plan_steps(p).len() > 0 {
        Phase::Running
    } else if updates_cache(p) {
        Phase::Saving
    } else {
        Phase::Succeeded
    }
}

/// The position and phase after a report of `ok` on the current action.
pub open spec fn advance(steps: Seq<Step>, pos: int, save: bool, phase: Phase, ok: bool) -> (
    int,
    Phase,
) {
    match phase {
        Phase::Running => if ok || is_soft(steps[pos]) {
            if pos + 1 < steps.len() {
                (pos + 1, Phase::Running)
            } else if save {
                (pos + 1, Phase::Saving)
            } else {
                (pos + 1, Phase::Succeeded)
            }
        } else {
            (pos, Phase::Failed)
        },
        Phase::Saving => if ok {
            (pos, Phase::Succeeded)
        } else {
            (pos, Phase::Failed)
        },
        _ => (pos, phase),
    }
}

/// The run of one plan: its steps in order, then the cache save if the plan
/// records itself, then the exit.
pub struct Session {
    pub steps: Vec<Step>,
    pub pos: usize,
    pub save: bool,
    pub phase: Phase,
}

impl Session {
    /// While running, the position names a step.
    pub open spec fn wf(&self) -> bool {
        self.pos <= self.steps@.len() && (self.phase == Phase::Running ==> self.pos
            < self.steps@.len())
    }

    /// The action that the current phase asks for.
    pub open spec fn action_spec(&self) -> Action {
        match self.phase {
            Phase::Running => Action::Run(self.steps@[self.pos as int]),
            Phase::Saving => Action::SaveCache,
            Phase::Succeeded => Action::Exit(0),
            Phase::Failed => Action::Exit(1),
        }
    }

    /// A run of `plan` that has not begun.
    pub fn new(plan: Plan) -> (r: Session)
        ensures
            r.wf(),
            r.steps@ == plan_steps(plan),
            r.pos == 0,
            r.save == updates_cache(plan),
            r.phase == start_phase(plan),
    {
        let steps = steps_of(plan);
        let save = plan_updates_cache(plan);
        let phase = if steps.len() > 0 {
            Phase::Running
        } else if save {
            Phase::Saving
        } else {
            Phase::Succeeded
        };
        Session { steps, pos: 0, save, phase }
    }

    /// What the caller is to do next.
    pub fn next_action(&self) -> (r: Action)
        requires
            self.wf(),
        ensures
            r == self.action_spec(),
    {
        match self.phase {
            Phase::Running => Action::Run(self.steps[self.pos]),
            Phase::Saving => Action::SaveCache,
            Phase::Succeeded => Action::Exit(0),
            Phase::Failed => Action::Exit(1),
        }
    }

    /// Takes the outcome of the current action: a failed soft step is passed
    /// over, a failed hard step or save fails the run, a finished run stays
    /// as it is.
    pub fn report(&mut self, ok: bool)
        requires
            old(self).wf(),
        ensures
            final(self).wf(),
            final(self).steps@ == old(self).steps@,
            final(self).save == old(self).save,
            (final(self).pos as int, final(self).phase) == advance(
                old(self).steps@,
                old(self).pos as int,
                old(self).save,
                old(self).phase,
                ok,
            ),
    {
        match self.phase {
            Phase::Running => {
                let n = self.steps.len();
                if ok || self.steps[self.pos].soft() {
                    self.pos = self.pos + 1;
                    if self.pos < n {
                    } else if self.save {
                        self.phase = Phase::Saving;
                    } else {
                        self.phase = Phase::Succeeded;
                    }
                } else {
                    self.phase = Phase::Failed;
                }
            },
            Phase::Saving => {
                if ok {
                    self.phase = Phase::Succeeded;
                } else {
                    self.phase = Phase::Failed;
                }
            },
            _ => {},
        }
    }
}

} // verus!
