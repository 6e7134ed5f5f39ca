use frzr::check::default_ignores;
use frzr::check::scan_root;
use frzr::check::store_ops;
use frzr::check::CheckAction;
use frzr::check::Orchestrator;
use frzr::check::RunPhase;
use frzr::store::StoreError;
use frzr::store::StoreOp;
use frzr::store::Value;

fn paths(list: &[&str]) -> Vec<Vec<u8>> {
    list.iter().map(|p| p.as_bytes().to_vec()).collect()
}

/// Runs a scan to its end, answering every action, and returns the actions.
fn run(files: &[&str], run_id: i64, digests: &[&str]) -> (Vec<CheckAction>, RunPhase) {
    let mut scan = Orchestrator::new(paths(files));
    let mut actions: Vec<CheckAction> = Vec::new();
    let mut hashed: usize = 0;
    loop {
        let action = scan.next_action();
        actions.push(action.clone());
        match action {
            CheckAction::Done => break,
            CheckAction::CreateRun => scan.run_created(run_id),
            CheckAction::HashFile { .. } => {
                scan.digest_ready(digests[hashed].to_string());
                hashed += 1;
            }
            CheckAction::AppendEntry { .. } => scan.entry_appended(),
            CheckAction::FinalizeRun { .. } => scan.run_finalized(),
        }
        assert!(actions.len() < 100);
    }
    (actions, scan.phase())
}

#[test]
fn scan_without_files_creates_no_run() {
    let (actions, phase) = run(&[], 1, &[]);
    assert_eq!(actions, vec![CheckAction::Done]);
    assert_eq!(phase, RunPhase::NotStarted);
}

#[test]
fn scan_of_one_file_creates_appends_and_finalizes() {
    let (actions, phase) = run(&["./a"], 7, &["d0"]);
    assert_eq!(
        actions,
        vec![
            CheckAction::CreateRun,
            CheckAction::HashFile { path: b"./a".to_vec() },
            CheckAction::AppendEntry {
                run_id: 7,
                path: b"./a".to_vec(),
                digest: "d0".to_string()
            },
            CheckAction::FinalizeRun { run_id: 7 },
            CheckAction::Done,
        ]
    );
    assert_eq!(phase, RunPhase::Finalized);
}

#[test]
fn scan_appends_entries_in_the_order_of_discovery() {
    let (actions, phase) = run(&["./b/c", "./a", "./z"], 3, &["d0", "d1", "d2"]);
    assert_eq!(
        actions,
        vec![
            CheckAction::CreateRun,
            CheckAction::HashFile { path: b"./b/c".to_vec() },
            CheckAction::AppendEntry {
                run_id: 3,
                path: b"./b/c".to_vec(),
                digest: "d0".to_string()
            },
            CheckAction::HashFile { path: b"./a".to_vec() },
            CheckAction::AppendEntry { run_id: 3, path: b"./a".to_vec(), digest: "d1".to_string() },
            CheckAction::HashFile { path: b"./z".to_vec() },
            CheckAction::AppendEntry { run_id: 3, path: b"./z".to_vec(), digest: "d2".to_string() },
            CheckAction::FinalizeRun { run_id: 3 },
            CheckAction::Done,
        ]
    );
    assert_eq!(phase, RunPhase::Finalized);
}

#[test]
fn phase_goes_from_not_started_over_in_progress_to_finalized() {
    let mut scan = Orchestrator::new(paths(&["./a"]));
    assert_eq!(scan.phase(), RunPhase::NotStarted);
    scan.run_created(42);
    assert_eq!(scan.phase(), RunPhase::InProgress { run_id: 42 });
    scan.digest_ready("d".to_string());
    assert_eq!(scan.phase(), RunPhase::InProgress { run_id: 42 });
    scan.entry_appended();
    assert_eq!(scan.phase(), RunPhase::InProgress { run_id: 42 });
    scan.run_finalized();
    assert_eq!(scan.phase(), RunPhase::Finalized);
    assert_eq!(scan.next_action(), CheckAction::Done);
}

#[test]
fn reports_that_were_not_asked_for_change_nothing() {
    let mut scan = Orchestrator::new(paths(&["./a", "./b"]));
    scan.digest_ready("early".to_string());
    scan.entry_appended();
    scan.run_finalized();
    assert_eq!(scan.phase(), RunPhase::NotStarted);
    assert_eq!(scan.next_action(), CheckAction::CreateRun);

    scan.run_created(1);
    scan.run_created(2);
    assert_eq!(scan.phase(), RunPhase::InProgress { run_id: 1 });
    scan.entry_appended();
    scan.run_finalized();
    assert_eq!(scan.next_action(), CheckAction::HashFile { path: b"./a".to_vec() });

    scan.digest_ready("d0".to_string());
    scan.digest_ready("other".to_string());
    scan.run_finalized();
    assert_eq!(
        scan.next_action(),
        CheckAction::AppendEntry { run_id: 1, path: b"./a".to_vec(), digest: "d0".to_string() }
    );
}

#[test]
fn run_is_never_created_for_an_empty_walk() {
    let mut scan = Orchestrator::new(Vec::new());
    scan.run_created(5);
    assert_eq!(scan.phase(), RunPhase::NotStarted);
    scan.run_finalized();
    assert_eq!(scan.phase(), RunPhase::NotStarted);
    assert_eq!(scan.next_action(), CheckAction::Done);
}

#[test]
fn store_ops_of_each_action() {
    assert_eq!(store_ops(&CheckAction::CreateRun), vec![StoreOp::InsertRun, StoreOp::LatestRun]);
    assert_eq!(
        store_ops(&CheckAction::AppendEntry {
            run_id: 9,
            path: vec![b'a', 0xff],
            digest: "0a1b".to_string()
        }),
        vec![StoreOp::InsertEntry { run_id: 9, path: vec![b'a', 0xff], digest: b"0a1b".to_vec() }]
    );
    assert_eq!(
        store_ops(&CheckAction::FinalizeRun { run_id: 9 }),
        vec![StoreOp::FinalizeRun { run_id: 9 }]
    );
    assert_eq!(store_ops(&CheckAction::HashFile { path: b"x".to_vec() }), Vec::<StoreOp>::new());
    assert_eq!(store_ops(&CheckAction::Done), Vec::<StoreOp>::new());
}

#[test]
fn store_reply_to_the_creation_names_the_run() {
    let mut scan = Orchestrator::new(paths(&["./a"]));
    assert_eq!(scan.store_replied(&vec![vec![Value::Integer(12)]]), Ok(()));
    assert_eq!(scan.phase(), RunPhase::InProgress { run_id: 12 });
    scan.digest_ready("d".to_string());
    assert_eq!(scan.store_replied(&Vec::new()), Ok(()));
    assert_eq!(scan.next_action(), CheckAction::FinalizeRun { run_id: 12 });
    assert_eq!(scan.store_replied(&Vec::new()), Ok(()));
    assert_eq!(scan.phase(), RunPhase::Finalized);
    assert_eq!(scan.store_replied(&Vec::new()), Ok(()));
    assert_eq!(scan.phase(), RunPhase::Finalized);
}

#[test]
fn store_reply_without_a_run_is_an_error() {
    let mut scan = Orchestrator::new(paths(&["./a"]));
    assert_eq!(scan.store_replied(&Vec::new()), Err(StoreError::MissingRun));
    assert_eq!(scan.phase(), RunPhase::NotStarted);
    assert_eq!(
        scan.store_replied(&vec![vec![Value::Text("12".to_string())]]),
        Err(StoreError::MalformedReply)
    );
    assert_eq!(scan.phase(), RunPhase::NotStarted);
    assert_eq!(scan.next_action(), CheckAction::CreateRun);
}

#[test]
fn store_reply_while_a_digest_is_awaited_changes_nothing() {
    let mut scan = Orchestrator::new(paths(&["./a"]));
    scan.run_created(1);
    assert_eq!(scan.store_replied(&vec![vec![Value::Integer(5)]]), Ok(()));
    assert_eq!(scan.next_action(), CheckAction::HashFile { path: b"./a".to_vec() });
    assert_eq!(scan.phase(), RunPhase::InProgress { run_id: 1 });
}

#[test]
fn scan_starts_in_the_current_directory_and_skips_the_usual_directories() {
    assert_eq!(scan_root(), b".".to_vec());
    assert_eq!(default_ignores(), paths(&["./.git", "./target", "./.frzr"]));
}
