use optimize_assets::args::{default_threads, raster_preset, threads_for, validate, CliArgs, ConfigError, Targets};
use optimize_assets::display::{average, summarize, HumanBytes, Summary, Tone};
use optimize_assets::select::{classify, get_target_files_from_args, lex_less, Category, TargetedData};
use optimize_assets::stats::{aggregate, SizeStats, TaskError, TaskOutcome};
use optimize_assets::transaction::{step, TxAction, TxEvent, TxState};

fn both() -> Targets {
    Targets { dmi: true, ogg: true }
}

fn args_for(targets: Targets) -> CliArgs {
    CliArgs { targets, threads: 1, fast: false, files: vec![b"dir".to_vec()] }
}

fn p(s: &str) -> Vec<u8> {
    s.as_bytes().to_vec()
}

fn drive(events: &[TxEvent]) -> (TxState, Vec<TxAction>) {
    let mut state = TxState::Idle;
    let mut actions = Vec::new();
    for e in events {
        let (s, a) = step(state, *e);
        state = s;
        actions.push(a);
    }
    (state, actions)
}

fn outcome(state: TxState) -> TaskOutcome {
    match state {
        TxState::Done { outcome } => outcome,
        other => panic!("transaction not finished: {:?}", other),
    }
}

fn success_events(original: u64, optimized: u64) -> Vec<TxEvent> {
    vec![
        TxEvent::Begin,
        TxEvent::Read { size: original },
        TxEvent::Transformed { size: optimized },
        TxEvent::Committed,
        TxEvent::PermissionsRestored,
    ]
}

fn failed_transform_events(original: u64) -> Vec<TxEvent> {
    vec![TxEvent::Begin, TxEvent::Read { size: original }, TxEvent::TransformFailed, TxEvent::Discarded]
}

#[test]
fn uppercase_png_is_raster_when_enabled() {
    assert_eq!(classify(&p("x.PNG"), &both()), Some(Category::Raster));
    assert_eq!(classify(&p("x.PNG"), &Targets { dmi: true, ogg: false }), Some(Category::Raster));
    assert_eq!(classify(&p("x.PNG"), &Targets { dmi: false, ogg: true }), None);
    assert_eq!(classify(&p("dir/icons.DmI"), &both()), Some(Category::Raster));
    assert_eq!(classify(&p("music/b.Ogg"), &both()), Some(Category::Audio));
    assert_eq!(classify(&p("music/b.ogg"), &Targets { dmi: true, ogg: false }), None);
}

#[test]
fn unmatched_extensions_are_dropped() {
    assert_eq!(classify(&p("c.txt"), &both()), None);
    assert_eq!(classify(&p("noext"), &both()), None);
    assert_eq!(classify(&p(".png"), &both()), None);
    assert_eq!(classify(&p("dir/.png"), &both()), None);
    assert_eq!(classify(&p("a.png/readme"), &both()), None);
    assert_eq!(classify(&p("a.pngx"), &both()), None);
    assert_eq!(classify(&p("a."), &both()), None);
    assert_eq!(classify(&p("archive.tar.ogg"), &both()), Some(Category::Audio));
    assert_eq!(classify(&p(".hidden.png"), &both()), Some(Category::Raster));
}

#[test]
fn overlapping_roots_are_deduplicated_and_sorted() {
    let candidates = vec![p("dir/b.png"), p("dir/a.png"), p("dir/sub/c.ogg"), p("dir/a.png"), p("dir/sub/c.ogg"), p("dir/b.png"), p("dir/x.txt")];
    let r: TargetedData<Vec<Vec<u8>>> = get_target_files_from_args(&args_for(both()), &candidates);
    assert_eq!(r.dmis, vec![p("dir/a.png"), p("dir/b.png")]);
    assert_eq!(r.oggs, vec![p("dir/sub/c.ogg")]);
}

#[test]
fn disabled_category_contributes_no_tasks() {
    let candidates = vec![p("a.png"), p("b.ogg")];
    let r = get_target_files_from_args(&args_for(Targets { dmi: false, ogg: true }), &candidates);
    assert!(r.dmis.is_empty());
    assert_eq!(r.oggs, vec![p("b.ogg")]);
    let empty = get_target_files_from_args(&args_for(both()), &Vec::new());
    assert!(empty.dmis.is_empty() && empty.oggs.is_empty());
}

#[test]
fn byte_order_is_lexicographic() {
    assert!(lex_less(&p("a"), &p("b")));
    assert!(lex_less(&p("a"), &p("ab")));
    assert!(!lex_less(&p("ab"), &p("ab")));
    assert!(!lex_less(&p("b"), &p("abc")));
    assert!(lex_less(&p(""), &p("a")));
}

#[test]
fn successful_transaction_commits_then_restores() {
    let (state, actions) = drive(&success_events(1000, 900));
    assert_eq!(
        actions,
        vec![TxAction::ReadOriginal, TxAction::Transform, TxAction::Commit, TxAction::RestorePermissions, TxAction::Finish]
    );
    assert_eq!(outcome(state), Ok(100));
}

#[test]
fn larger_output_is_still_committed_with_negative_delta() {
    let (state, actions) = drive(&success_events(10, 25));
    assert!(actions.contains(&TxAction::Commit));
    assert_eq!(outcome(state), Ok(-15));
}

#[test]
fn failed_transform_discards_and_never_commits() {
    let (state, actions) = drive(&failed_transform_events(1000));
    assert_eq!(actions, vec![TxAction::ReadOriginal, TxAction::Transform, TxAction::Discard, TxAction::Finish]);
    assert_eq!(outcome(state), Err(TaskError::Transform));
}

#[test]
fn read_and_commit_failures() {
    let (state, actions) = drive(&[TxEvent::Begin, TxEvent::ReadFailed]);
    assert_eq!(outcome(state), Err(TaskError::Io));
    assert!(!actions.contains(&TxAction::Commit));
    let (state, _) = drive(&[TxEvent::Begin, TxEvent::Read { size: 5 }, TxEvent::Transformed { size: 4 }, TxEvent::CommitFailed]);
    assert_eq!(outcome(state), Err(TaskError::Commit));
    let (state, _) = drive(&[
        TxEvent::Begin,
        TxEvent::Read { size: 5 },
        TxEvent::Transformed { size: 4 },
        TxEvent::Committed,
        TxEvent::PermissionsFailed,
    ]);
    assert_eq!(outcome(state), Err(TaskError::Commit));
}

#[test]
fn out_of_place_events_are_ignored() {
    let (s, a) = step(TxState::Idle, TxEvent::Committed);
    assert_eq!(a, TxAction::Ignore);
    assert!(matches!(s, TxState::Idle));
    let (s, a) = step(TxState::Transforming { original_size: 7 }, TxEvent::PermissionsRestored);
    assert_eq!(a, TxAction::Ignore);
    assert!(matches!(s, TxState::Transforming { original_size: 7 }));
}

#[test]
fn aggregation_counts_and_sums() {
    let outcomes: Vec<TaskOutcome> = vec![Ok(100), Err(TaskError::Io), Ok(-30), Err(TaskError::Transform), Ok(5)];
    assert_eq!(aggregate(&outcomes), Some(SizeStats { success: 3, failed: 2, diff: 75 }));
    assert_eq!(aggregate(&Vec::new()), Some(SizeStats::const_new()));
    assert_eq!(aggregate(&vec![Ok(i64::MAX), Ok(1)]), None);
}

#[test]
fn record_updates_one_counter() {
    let mut s = SizeStats::const_new();
    assert_eq!(s, SizeStats { success: 0, failed: 0, diff: 0 });
    s.record(&Ok(-12));
    s.record(&Err(TaskError::Commit));
    assert_eq!(s, SizeStats { success: 1, failed: 1, diff: -12 });
    assert!(s.fits(&Ok(5)));
    let full = SizeStats { success: 0, failed: 0, diff: i64::MIN };
    assert!(!full.fits(&Ok(-1)));
    assert!(full.fits(&Err(TaskError::Io)));
}

#[test]
fn failure_in_one_task_leaves_others_alone() {
    let good: Vec<TaskOutcome> = vec![Ok(10), Ok(20), Ok(30)];
    let mut injected = good.clone();
    injected[1] = outcome(drive(&failed_transform_events(50)).0);
    assert_eq!(injected[0], good[0]);
    assert_eq!(injected[2], good[2]);
    assert_eq!(aggregate(&good), Some(SizeStats { success: 3, failed: 0, diff: 60 }));
    assert_eq!(aggregate(&injected), Some(SizeStats { success: 2, failed: 1, diff: 40 }));
}

#[test]
fn scenario_both_categories_succeed() {
    let candidates = vec![p("dir/c.txt"), p("dir/b.ogg"), p("dir/a.png")];
    let files = get_target_files_from_args(&args_for(both()), &candidates);
    assert_eq!(files.dmis, vec![p("dir/a.png")]);
    assert_eq!(files.oggs, vec![p("dir/b.ogg")]);
    let raster = vec![outcome(drive(&success_events(500, 400)).0)];
    let audio = vec![outcome(drive(&success_events(300, 250)).0)];
    assert_eq!(aggregate(&raster), Some(SizeStats { success: 1, failed: 0, diff: 100 }));
    assert_eq!(aggregate(&audio), Some(SizeStats { success: 1, failed: 0, diff: 50 }));
}

#[test]
fn scenario_raster_transform_fails() {
    let candidates = vec![p("dir/c.txt"), p("dir/b.ogg"), p("dir/a.png")];
    let files = get_target_files_from_args(&args_for(both()), &candidates);
    assert_eq!(files.dmis, vec![p("dir/a.png")]);
    let (state, actions) = drive(&failed_transform_events(500));
    assert!(!actions.contains(&TxAction::Commit));
    assert!(!actions.contains(&TxAction::RestorePermissions));
    let raster = vec![outcome(state)];
    let audio = vec![outcome(drive(&success_events(300, 250)).0)];
    assert_eq!(aggregate(&raster), Some(SizeStats { success: 0, failed: 1, diff: 0 }));
    assert_eq!(aggregate(&audio), Some(SizeStats { success: 1, failed: 0, diff: 50 }));
}

#[test]
fn pool_width_and_configuration() {
    assert_eq!(threads_for(0), 1);
    assert_eq!(threads_for(1), 1);
    assert_eq!(threads_for(2), 1);
    assert_eq!(threads_for(8), 7);
    assert!(default_threads() >= 1);
    assert_eq!(validate(&args_for(Targets { dmi: false, ogg: false })), Err(ConfigError::NoTarget));
    assert_eq!(validate(&args_for(Targets { dmi: false, ogg: true })), Ok(()));
    assert_eq!(raster_preset(true), 1);
    assert_eq!(raster_preset(false), 4);
}

#[test]
fn message_figures() {
    assert_eq!(HumanBytes(1025).tone(), Tone::Good);
    assert_eq!(HumanBytes(1024).tone(), Tone::Dim);
    assert_eq!(HumanBytes(-1024).tone(), Tone::Dim);
    assert_eq!(HumanBytes(-1025).tone(), Tone::Bad);
    assert_eq!(average(100, 0), 0);
    assert_eq!(average(100, 3), 33);
    assert_eq!(average(-100, 3), -33);
    assert_eq!(average(i64::MIN, 1), i64::MIN);
    assert_eq!(summarize(None), Summary { success: 0, failed: 0, diff: 0, average: 0 });
    let s = SizeStats { success: 4, failed: 1, diff: 10 };
    assert_eq!(summarize(Some(&s)), Summary { success: 4, failed: 1, diff: 10, average: 2 });
}

#[test]
fn completion_order_does_not_matter() {
    let first: Vec<TaskOutcome> = vec![Ok(7), Err(TaskError::Io), Ok(-2), Ok(40)];
    let second: Vec<TaskOutcome> = vec![Ok(40), Ok(-2), Err(TaskError::Io), Ok(7)];
    assert_eq!(aggregate(&first), aggregate(&second));
    assert_eq!(aggregate(&first), Some(SizeStats { success: 3, failed: 1, diff: 45 }));
}
