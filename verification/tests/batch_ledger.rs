use tater::batch::{
    get_progress, get_status_linewriter, ledger_line, progress_text, Batch, Decision, LedgerMode,
    Observation, FAIL_FILE, PASS_FILE, PROGRESS_FILE, PROJECTS_DIR, RESULTS_DIR,
};

fn seen(passed: bool, interrupted: bool) -> Observation {
    Observation { passed, interrupted }
}

#[test]
fn progress_is_the_number_on_the_first_line() {
    assert_eq!(get_progress(None), 0);
    assert_eq!(get_progress(Some("")), 0);
    assert_eq!(get_progress(Some("7")), 7);
    assert_eq!(get_progress(Some("  12 \r\nrest")), 12);
    assert_eq!(get_progress(Some("+3\n")), 3);
    assert_eq!(get_progress(Some("\n5")), 0);
    assert_eq!(get_progress(Some("five")), 0);
    assert_eq!(get_progress(Some("-1")), 0);
    assert_eq!(get_progress(Some("1 2")), 0);
    assert_eq!(get_progress(Some("007")), 7);
    assert_eq!(get_progress(Some("99999999999999999999999999")), 0);
    assert_eq!(
        get_progress(Some(&usize::MAX.to_string())),
        usize::MAX
    );
}

#[test]
fn ledgers_are_fresh_only_at_index_zero() {
    assert_eq!(get_status_linewriter(0), LedgerMode::Fresh);
    assert_eq!(get_status_linewriter(1), LedgerMode::Append);
    assert_eq!(get_status_linewriter(usize::MAX), LedgerMode::Append);
}

#[test]
fn resumed_batch_runs_from_the_index_onward() {
    let mut batch = Batch::start(5, 3);
    let mut run = Vec::new();
    while let Some(index) = batch.current() {
        run.push(index);
        batch.record(seen(true, false));
    }
    assert_eq!(run, vec![3, 4]);
    assert_eq!(batch.resume_index(), 5);
    assert_eq!(batch.failures(), 0);
    assert_eq!(Batch::start(5, 9).current(), None);
    assert_eq!(Batch::start(0, 0).current(), None);
}

#[test]
fn pass_moves_the_resume_index_and_failure_keeps_it() {
    let mut batch = Batch::start(4, 0);
    assert_eq!(
        batch.record(seen(true, false)),
        Some(Decision {
            pass_entry: true,
            fail_entry: false,
            persist: Some(1),
            remove_clone: true,
            stop: false
        })
    );
    assert_eq!(batch.resume_index(), 1);
    assert_eq!(
        batch.record(seen(false, false)),
        Some(Decision {
            pass_entry: false,
            fail_entry: true,
            persist: None,
            remove_clone: false,
            stop: false
        })
    );
    assert_eq!(batch.resume_index(), 1);
    assert_eq!(batch.failures(), 1);
    assert_eq!(batch.current(), Some(2));
    assert_eq!(
        batch.record(seen(false, false)),
        Some(Decision {
            pass_entry: false,
            fail_entry: true,
            persist: Some(2),
            remove_clone: false,
            stop: false
        })
    );
    assert_eq!(batch.resume_index(), 2);
    assert_eq!(
        batch.record(seen(true, false)),
        Some(Decision {
            pass_entry: true,
            fail_entry: false,
            persist: Some(4),
            remove_clone: true,
            stop: false
        })
    );
    assert_eq!(batch.resume_index(), 4);
    assert_eq!(batch.failures(), 2);
}

#[test]
fn interruption_persists_the_index_and_stops() {
    let mut batch = Batch::start(4, 1);
    assert_eq!(
        batch.record(seen(true, true)),
        Some(Decision {
            pass_entry: true,
            fail_entry: true,
            persist: Some(2),
            remove_clone: true,
            stop: true
        })
    );
    assert_eq!(batch.current(), None);
    assert_eq!(batch.record(seen(true, false)), None);
    assert_eq!(batch.resume_index(), 2);

    let mut failed = Batch::start(4, 1);
    assert_eq!(
        failed.record(seen(false, true)),
        Some(Decision {
            pass_entry: false,
            fail_entry: true,
            persist: Some(1),
            remove_clone: false,
            stop: true
        })
    );
    assert_eq!(failed.failures(), 1);
    assert_eq!(failed.resume_index(), 1);
}

#[test]
fn persisted_index_is_read_back() {
    for index in [0usize, 1, 9, 10, 42, 1000, usize::MAX] {
        assert_eq!(progress_text(index), index.to_string());
        assert_eq!(get_progress(Some(&progress_text(index))), index);
    }
    assert_eq!(ledger_line("demo"), "demo\n");
    assert_eq!(ledger_line(""), "\n");
}

#[test]
fn output_layout_is_fixed() {
    assert_eq!(
        [PROJECTS_DIR, RESULTS_DIR, PROGRESS_FILE, PASS_FILE, FAIL_FILE],
        ["projects", "results", "progress", "pass", "fail"]
    );
}

#[test]
fn progress_file_follows_the_resume_index() {
    let outcomes = [true, true, false, false, true, false, true];
    let mut batch = Batch::start(outcomes.len(), 0);
    let mut written = 0usize;
    for passed in outcomes {
        let before = batch.resume_index();
        let decision = batch.record(seen(passed, false)).unwrap();
        if let Some(index) = decision.persist {
            written = index;
        }
        assert_eq!(decision.persist.is_some(), batch.resume_index() != before);
        assert!(batch.resume_index() >= before);
        assert_eq!(written, batch.resume_index());
    }
    assert_eq!(written, 7);
}
