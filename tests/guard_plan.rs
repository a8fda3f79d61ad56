use spicetify_guard::cache::{Cache, Timestamp, DEFAULT_WINDOW_SECS};
use spicetify_guard::guard::{decide, plan_for, status_of, steps_of, versions_match, Plan, Status, Step};

fn some(s: &str) -> Option<String> {
    Some(s.to_string())
}

fn at(secs: u64) -> Timestamp {
    Timestamp { secs, nanos: 0 }
}

#[test]
fn decision_table_all_sixteen_cases() {
    for bits in 0u8..16 {
        let installed = bits & 1 != 0;
        let status = Status {
            applied: bits & 2 != 0,
            versions_match: bits & 4 != 0,
            recently_ok: bits & 8 != 0,
        };
        let expected = if !installed {
            Plan::SkipNotInstalled
        } else if status.applied && status.versions_match && status.recently_ok {
            Plan::SkipFresh
        } else if status.applied && status.versions_match {
            Plan::Refresh
        } else if !status.applied {
            Plan::InitialApply
        } else {
            Plan::Upgrade
        };
        assert_eq!(decide(installed, status), expected);
    }
}

#[test]
fn plans_and_their_commands() {
    assert!(steps_of(Plan::SkipNotInstalled).is_empty());
    assert!(steps_of(Plan::SkipFresh).is_empty());
    assert!(steps_of(Plan::Refresh).is_empty());
    assert!(steps_of(Plan::SkipNoCommands).is_empty());
    assert_eq!(
        steps_of(Plan::InitialApply),
        vec![Step::StopApp, Step::Backup, Step::Apply, Step::Restart]
    );
    assert_eq!(
        steps_of(Plan::Upgrade),
        vec![Step::StopApp, Step::RestoreBackup, Step::Backup, Step::Apply, Step::Restart]
    );
}

#[test]
fn versions_match_needs_both() {
    assert!(versions_match(&some("1.2.3"), &some("1.2.3")));
    assert!(!versions_match(&some("1.2.3"), &some("1.2.30")));
    assert!(!versions_match(&None, &None));
    assert!(!versions_match(&some("1"), &None));
    assert!(!versions_match(&None, &some("1")));
}

#[test]
fn status_from_versions_and_cache() {
    let cache = Cache { last_ok: Some(at(1000)), spotify_ver: None, backup_ver: None };
    let s = status_of(&some("1.2.3"), &some("1.2.3"), &cache, at(1000 + 43199), DEFAULT_WINDOW_SECS);
    assert_eq!(s, Status { applied: true, versions_match: true, recently_ok: true });
    let s = status_of(&some("1.2.3"), &some("4.5.6"), &cache, at(1000 + 43200), DEFAULT_WINDOW_SECS);
    assert_eq!(s, Status { applied: true, versions_match: false, recently_ok: false });
    let empty = Cache::default();
    let s = status_of(&None, &some("4.5.6"), &empty, at(5), DEFAULT_WINDOW_SECS);
    assert_eq!(s, Status { applied: false, versions_match: false, recently_ok: false });
}

#[test]
fn second_run_in_succession_is_fresh() {
    let mut cache = Cache::default();
    let now = Timestamp { secs: 1_700_000_000, nanos: 5 };
    let cur = some("1.2.3");
    let tgt = some("1.2.3");
    let first = plan_for(true, &cur, &tgt, &cache, now, DEFAULT_WINDOW_SECS);
    assert_eq!(first, Plan::Refresh);
    assert!(steps_of(first).is_empty());
    cache.record_success(now, cur.clone(), tgt.clone());
    let second = plan_for(true, &cur, &tgt, &cache, now, DEFAULT_WINDOW_SECS);
    assert_eq!(second, Plan::SkipFresh);
    assert!(steps_of(second).is_empty());
}

#[test]
fn plan_for_each_situation() {
    let fresh = Cache { last_ok: Some(at(100)), spotify_ver: some("1.2.3"), backup_ver: some("1.2.3") };
    assert_eq!(plan_for(false, &some("1"), &some("1"), &fresh, at(100), DEFAULT_WINDOW_SECS), Plan::SkipNotInstalled);
    assert_eq!(plan_for(true, &some("1.2.3"), &some("1.2.3"), &fresh, at(200), DEFAULT_WINDOW_SECS), Plan::SkipFresh);
    assert_eq!(plan_for(true, &some("1.2.3"), &some("4.5.6"), &fresh, at(200), DEFAULT_WINDOW_SECS), Plan::Upgrade);
    assert_eq!(plan_for(true, &None, &some("4.5.6"), &fresh, at(200), DEFAULT_WINDOW_SECS), Plan::InitialApply);
    assert_eq!(plan_for(true, &some("1.2.3"), &None, &fresh, at(200), DEFAULT_WINDOW_SECS), Plan::Upgrade);
}
