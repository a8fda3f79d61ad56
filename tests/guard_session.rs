use spicetify_guard::guard::{Action, Phase, Plan, Program, Session, Step};

/// Drives a session, answering each action from `outcomes` in turn (success
/// once they run out), and returns the actions it asked for.
fn drive(plan: Plan, outcomes: &[bool]) -> Vec<Action> {
    let mut session = Session::new(plan);
    let mut actions = Vec::new();
    let mut k = 0;
    loop {
        let a = session.next_action();
        actions.push(a);
        if let Action::Exit(_) = a {
            return actions;
        }
        let ok = if k < outcomes.len() { outcomes[k] } else { true };
        k += 1;
        session.report(ok);
    }
}

#[test]
fn scenario_not_installed() {
    assert_eq!(drive(Plan::SkipNotInstalled, &[]), vec![Action::Exit(0)]);
}

#[test]
fn scenario_fresh_runs_nothing() {
    assert_eq!(drive(Plan::SkipFresh, &[]), vec![Action::Exit(0)]);
}

#[test]
fn scenario_refresh_saves_only() {
    assert_eq!(drive(Plan::Refresh, &[]), vec![Action::SaveCache, Action::Exit(0)]);
    assert_eq!(drive(Plan::SkipNoCommands, &[]), vec![Action::SaveCache, Action::Exit(0)]);
}

#[test]
fn scenario_mismatch_upgrade_sequence() {
    let actions = drive(Plan::Upgrade, &[]);
    assert_eq!(
        actions,
        vec![
            Action::Run(Step::StopApp),
            Action::Run(Step::RestoreBackup),
            Action::Run(Step::Backup),
            Action::Run(Step::Apply),
            Action::Run(Step::Restart),
            Action::SaveCache,
            Action::Exit(0),
        ]
    );
    let restarts = actions.iter().filter(|a| **a == Action::Run(Step::Restart)).count();
    assert_eq!(restarts, 1);
}

#[test]
fn scenario_initial_apply_sequence() {
    assert_eq!(
        drive(Plan::InitialApply, &[]),
        vec![
            Action::Run(Step::StopApp),
            Action::Run(Step::Backup),
            Action::Run(Step::Apply),
            Action::Run(Step::Restart),
            Action::SaveCache,
            Action::Exit(0),
        ]
    );
}

#[test]
fn failed_stop_is_passed_over() {
    assert_eq!(
        drive(Plan::InitialApply, &[false]),
        vec![
            Action::Run(Step::StopApp),
            Action::Run(Step::Backup),
            Action::Run(Step::Apply),
            Action::Run(Step::Restart),
            Action::SaveCache,
            Action::Exit(0),
        ]
    );
}

#[test]
fn failed_hard_step_aborts_without_save() {
    assert_eq!(
        drive(Plan::Upgrade, &[true, false]),
        vec![Action::Run(Step::StopApp), Action::Run(Step::RestoreBackup), Action::Exit(1)]
    );
    assert_eq!(
        drive(Plan::InitialApply, &[true, true, true, false]),
        vec![
            Action::Run(Step::StopApp),
            Action::Run(Step::Backup),
            Action::Run(Step::Apply),
            Action::Run(Step::Restart),
            Action::Exit(1),
        ]
    );
}

#[test]
fn failed_save_fails_the_run() {
    assert_eq!(drive(Plan::Refresh, &[false]), vec![Action::SaveCache, Action::Exit(1)]);
}

#[test]
fn finished_session_stays_finished() {
    let mut s = Session::new(Plan::SkipFresh);
    assert_eq!(s.phase, Phase::Succeeded);
    s.report(false);
    assert_eq!(s.next_action(), Action::Exit(0));
}

#[test]
fn step_programs_and_tokens() {
    assert_eq!(Step::StopApp.program(), Program::TaskKill);
    assert_eq!(Step::StopApp.args(), vec!["/F", "/IM", "Spotify.exe"]);
    assert!(Step::StopApp.soft());
    assert_eq!(Step::RestoreBackup.program(), Program::Patcher);
    assert_eq!(Step::RestoreBackup.args(), vec!["-n", "restore", "backup", "--bypass-admin"]);
    assert_eq!(Step::Backup.args(), vec!["-n", "backup", "--bypass-admin"]);
    assert_eq!(Step::Apply.args(), vec!["-n", "apply", "--bypass-admin"]);
    assert_eq!(Step::Restart.args(), vec!["restart", "--bypass-admin"]);
    assert!(!Step::Restart.soft());
    assert!(!Step::Backup.soft());
}
