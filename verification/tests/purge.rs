use binthere::models::{InstallerFile, ScanSummary};
use binthere::purge::{Preview, PurgeAction, PurgeEvent, PurgePhase, PurgeReport, PurgeSession};
use binthere::selection::SelectionError;

fn installer(path: &str, size_bytes: u64) -> InstallerFile {
    InstallerFile {
        path: path.to_string(),
        extension: "exe".to_string(),
        size_bytes,
        modified_unix_secs: Some(1_700_000_000),
        installed_program_match: None,
    }
}

fn scan_of(files: Vec<InstallerFile>) -> ScanSummary {
    ScanSummary {
        root: "/downloads".to_string(),
        scanned_at_unix_secs: 1_700_000_100,
        include_archives: false,
        files,
        warnings: Vec::new(),
    }
}

fn three_files() -> ScanSummary {
    scan_of(vec![installer("/d/a.exe", 100), installer("/d/b.msi", 20), installer("/d/c.pkg", 3)])
}

fn entered(input: &str) -> PurgeEvent {
    PurgeEvent::SelectionEntered { input: input.to_string() }
}

/// What came of one target, as the caller sees it.
enum Fate {
    Deleted,
    Missing,
    Failed(&'static str),
}

/// Reports the fate of the target at `index`, which the session must be
/// asking about, and returns what the session asks for next.
fn attempt(session: PurgeSession, index: usize, fate: Fate) -> (PurgeSession, PurgeAction) {
    let exists = !matches!(fate, Fate::Missing);
    let (session, action) = session.step(PurgeEvent::ExistenceChecked { exists });
    let error = match fate {
        Fate::Missing => return (session, action),
        Fate::Deleted => None,
        Fate::Failed(cause) => Some(cause.to_string()),
    };
    assert_eq!(action, PurgeAction::Delete { index });
    assert_eq!(session.phase(), PurgePhase::Execute);
    session.step(PurgeEvent::DeleteAttempted { error })
}

/// Takes a confirmed purge of `scan` up to the first deletion of `selection`.
fn confirmed_up_to_first_delete(scan: ScanSummary, selection: &str) -> (PurgeSession, PurgeAction) {
    let session = PurgeSession::new(scan).unwrap();
    let (session, action) = session.step(PurgeEvent::Start { confirmed: true });
    assert_eq!(action, PurgeAction::AskSelection);
    let (session, action) = session.step(entered(selection));
    assert!(matches!(action, PurgeAction::AskConfirmation { .. }));
    session.step(PurgeEvent::Answered { yes: true })
}

#[test]
fn one_missing_file_among_three_leaves_the_other_two_deleted() {
    let (session, action) = confirmed_up_to_first_delete(three_files(), "all");
    assert_eq!(action, PurgeAction::CheckExists { index: 0 });
    let (session, action) = attempt(session, 0, Fate::Deleted);
    assert_eq!(action, PurgeAction::CheckExists { index: 1 });
    let (session, action) = attempt(session, 1, Fate::Missing);
    assert_eq!(action, PurgeAction::CheckExists { index: 2 });
    let (session, action) = attempt(session, 2, Fate::Deleted);
    assert_eq!(
        action,
        PurgeAction::Finished {
            report: PurgeReport {
                deleted_count: 2,
                deleted_bytes: 103,
                failures: vec!["Missing: /d/b.msi".to_string()],
            }
        }
    );
    assert_eq!(session.phase(), PurgePhase::Done);
}

#[test]
fn a_failed_deletion_is_reported_with_its_cause_and_the_batch_goes_on() {
    let (session, action) = confirmed_up_to_first_delete(three_files(), "3,1");
    assert_eq!(action, PurgeAction::CheckExists { index: 0 });
    let (session, action) = attempt(session, 0, Fate::Failed("Permission denied (os error 13)"));
    assert_eq!(action, PurgeAction::CheckExists { index: 2 });
    let (_, action) = attempt(session, 2, Fate::Deleted);
    assert_eq!(
        action,
        PurgeAction::Finished {
            report: PurgeReport {
                deleted_count: 1,
                deleted_bytes: 3,
                failures: vec!["/d/a.exe (Permission denied (os error 13))".to_string()],
            }
        }
    );
}

#[test]
fn every_failure_keeps_its_place_in_the_report() {
    let (session, _) = confirmed_up_to_first_delete(three_files(), "1-3");
    let (session, _) = attempt(session, 0, Fate::Missing);
    let (session, _) = attempt(session, 1, Fate::Failed("busy"));
    let (_, action) = attempt(session, 2, Fate::Missing);
    assert_eq!(
        action,
        PurgeAction::Finished {
            report: PurgeReport {
                deleted_count: 0,
                deleted_bytes: 0,
                failures: vec![
                    "Missing: /d/a.exe".to_string(),
                    "/d/b.msi (busy)".to_string(),
                    "Missing: /d/c.pkg".to_string(),
                ],
            }
        }
    );
}

#[test]
fn a_dry_run_previews_every_file_and_deletes_nothing() {
    let session = PurgeSession::new(three_files()).unwrap();
    assert_eq!(session.phase(), PurgePhase::Preview);
    let (session, action) = session.step(PurgeEvent::Start { confirmed: false });
    assert_eq!(
        action,
        PurgeAction::ShowDryRun { preview: Preview { targets: vec![0, 1, 2], total_bytes: 123 } }
    );
    assert_eq!(session.phase(), PurgePhase::Done);
    let (_, action) = session.step(PurgeEvent::Answered { yes: true });
    assert_eq!(action, PurgeAction::Unexpected);
}

#[test]
fn a_dry_run_of_an_empty_scan_previews_nothing() {
    let session = PurgeSession::new(scan_of(Vec::new())).unwrap();
    let (_, action) = session.step(PurgeEvent::Start { confirmed: false });
    assert_eq!(
        action,
        PurgeAction::ShowDryRun { preview: Preview { targets: vec![], total_bytes: 0 } }
    );
}

#[test]
fn a_confirmed_purge_of_an_empty_scan_stops_at_once() {
    let session = PurgeSession::new(scan_of(Vec::new())).unwrap();
    let (session, action) = session.step(PurgeEvent::Start { confirmed: true });
    assert_eq!(action, PurgeAction::NothingToDelete);
    assert_eq!(session.phase(), PurgePhase::Done);
}

#[test]
fn an_empty_selection_stops_before_confirmation() {
    let session = PurgeSession::new(three_files()).unwrap();
    let (session, _) = session.step(PurgeEvent::Start { confirmed: true });
    assert_eq!(session.phase(), PurgePhase::Selection);
    let (session, action) = session.step(entered("none"));
    assert_eq!(action, PurgeAction::NothingSelected);
    assert_eq!(session.phase(), PurgePhase::Done);
}

#[test]
fn a_selection_that_does_not_parse_is_asked_for_again() {
    let session = PurgeSession::new(three_files()).unwrap();
    let (session, _) = session.step(PurgeEvent::Start { confirmed: true });
    let (session, action) = session.step(entered("4"));
    assert_eq!(
        action,
        PurgeAction::RejectSelection { error: SelectionError::OutOfRange { value: 4, max: 3 } }
    );
    assert_eq!(session.phase(), PurgePhase::Selection);
    let (session, action) = session.step(entered(""));
    assert_eq!(action, PurgeAction::RejectSelection { error: SelectionError::EmptyInput });
    let (session, action) = session.step(entered("3,2"));
    assert_eq!(
        action,
        PurgeAction::AskConfirmation { preview: Preview { targets: vec![1, 2], total_bytes: 23 } }
    );
    assert_eq!(session.phase(), PurgePhase::Confirm);
}

#[test]
fn declining_deletes_nothing() {
    let session = PurgeSession::new(three_files()).unwrap();
    let (session, _) = session.step(PurgeEvent::Start { confirmed: true });
    let (session, _) = session.step(entered("all"));
    let (session, action) = session.step(PurgeEvent::Answered { yes: false });
    assert_eq!(action, PurgeAction::Declined);
    assert_eq!(session.phase(), PurgePhase::Done);
    let (session, action) = session.step(PurgeEvent::ExistenceChecked { exists: true });
    assert_eq!(action, PurgeAction::Unexpected);
    let (_, action) = session.step(PurgeEvent::DeleteAttempted { error: None });
    assert_eq!(action, PurgeAction::Unexpected);
}

#[test]
fn targets_are_deleted_in_scan_order_whatever_the_order_entered() {
    let (session, action) = confirmed_up_to_first_delete(three_files(), "3,2,3");
    assert_eq!(session.phase(), PurgePhase::Execute);
    assert_eq!(action, PurgeAction::CheckExists { index: 1 });
    let (session, action) = attempt(session, 1, Fate::Deleted);
    assert_eq!(action, PurgeAction::CheckExists { index: 2 });
    let (_, action) = attempt(session, 2, Fate::Deleted);
    assert_eq!(
        action,
        PurgeAction::Finished {
            report: PurgeReport { deleted_count: 2, deleted_bytes: 23, failures: vec![] }
        }
    );
}

#[test]
fn events_out_of_turn_change_nothing() {
    let session = PurgeSession::new(three_files()).unwrap();
    let (session, action) = session.step(entered("1"));
    assert_eq!(action, PurgeAction::Unexpected);
    assert_eq!(session.phase(), PurgePhase::Preview);
    let (session, action) = session.step(PurgeEvent::DeleteAttempted { error: None });
    assert_eq!(action, PurgeAction::Unexpected);
    let (session, action) = session.step(PurgeEvent::ExistenceChecked { exists: false });
    assert_eq!(action, PurgeAction::Unexpected);
    let (session, _) = session.step(PurgeEvent::Start { confirmed: true });
    let (session, action) = session.step(PurgeEvent::Start { confirmed: true });
    assert_eq!(action, PurgeAction::Unexpected);
    assert_eq!(session.phase(), PurgePhase::Selection);
    let (session, action) = session.step(PurgeEvent::Answered { yes: true });
    assert_eq!(action, PurgeAction::Unexpected);
    let (session, _) = session.step(entered("2"));
    let (session, action) = session.step(entered("1"));
    assert_eq!(action, PurgeAction::Unexpected);
    let (session, action) = session.step(PurgeEvent::Answered { yes: true });
    assert_eq!(action, PurgeAction::CheckExists { index: 1 });
    let (session, action) = session.step(PurgeEvent::DeleteAttempted { error: None });
    assert_eq!(action, PurgeAction::Unexpected);
    assert_eq!(session.phase(), PurgePhase::Execute);
    let (session, action) = session.step(PurgeEvent::ExistenceChecked { exists: true });
    assert_eq!(action, PurgeAction::Delete { index: 1 });
    let (session, action) = session.step(PurgeEvent::ExistenceChecked { exists: false });
    assert_eq!(action, PurgeAction::Unexpected);
    let (_, action) = session.step(PurgeEvent::DeleteAttempted { error: None });
    assert_eq!(
        action,
        PurgeAction::Finished {
            report: PurgeReport { deleted_count: 1, deleted_bytes: 20, failures: vec![] }
        }
    );
}

#[test]
fn a_file_that_is_gone_is_not_deleted_again() {
    let (session, action) = confirmed_up_to_first_delete(three_files(), "2");
    assert_eq!(action, PurgeAction::CheckExists { index: 1 });
    let (session, action) = session.step(PurgeEvent::ExistenceChecked { exists: false });
    assert_eq!(
        action,
        PurgeAction::Finished {
            report: PurgeReport {
                deleted_count: 0,
                deleted_bytes: 0,
                failures: vec!["Missing: /d/b.msi".to_string()],
            }
        }
    );
    assert_eq!(session.phase(), PurgePhase::Done);
}

#[test]
fn a_scan_whose_sizes_do_not_add_up_has_no_purge() {
    let scan = scan_of(vec![installer("/d/a.exe", u64::MAX), installer("/d/b.exe", 1)]);
    assert!(PurgeSession::new(scan).is_none());
    let scan = scan_of(vec![installer("/d/a.exe", u64::MAX), installer("/d/b.exe", 0)]);
    let session = PurgeSession::new(scan).unwrap();
    let (_, action) = session.step(PurgeEvent::Start { confirmed: false });
    assert_eq!(
        action,
        PurgeAction::ShowDryRun { preview: Preview { targets: vec![0, 1], total_bytes: u64::MAX } }
    );
}

#[test]
fn the_session_keeps_the_scan_it_was_given() {
    let session = PurgeSession::new(three_files()).unwrap();
    assert_eq!(session.summary(), &three_files());
    let (session, _) = session.step(PurgeEvent::Start { confirmed: true });
    let (session, _) = session.step(entered("1"));
    assert_eq!(session.summary(), &three_files());
}
