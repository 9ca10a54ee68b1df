use tstick::batch::{existing_outputs, is_confirmation, trim, overwrite_prompt, BatchAction, BatchScheduler, Gate};
use tstick::cmd::{default_concurrency, PackKindArgs, Video};
use tstick::display::bold_human_size;
use tstick::kind::PackEntryKind;
use tstick::multi_gen::{ConfigError, MultiVideoGenContext, OutFileError, PlanError};
use tstick::path::Utf8StemmedPathBuf;
use tstick::single_gen::SingleVideoGenOptions;

fn options() -> SingleVideoGenOptions {
    SingleVideoGenOptions { begin: None, end: None, filter: None, ffmpeg_args: vec![], publisher: None }
}

fn stemmed(paths: &[&str]) -> Vec<Utf8StemmedPathBuf> {
    paths.iter().map(|p| Utf8StemmedPathBuf::try_from(p.to_string()).unwrap()).collect()
}

#[test]
fn at_most_limit_jobs_run_at_once() {
    let mut s = BatchScheduler::new(5, 2, false, false);
    let mut running = Vec::new();
    let mut max_running = 0;
    let mut finished = 0;
    loop {
        match s.next_action() {
            BatchAction::Start(i) => {
                running.push(i);
                max_running = max_running.max(running.len());
            }
            BatchAction::Wait => {
                running.remove(0);
                finished += 1;
                s.job_finished(true);
            }
            BatchAction::Succeeded => break,
            other => panic!("unexpected {other:?}"),
        }
        assert!(s.running <= 2);
    }
    assert_eq!(max_running, 2);
    assert_eq!(finished, 5);
    assert_eq!(s.started, 5);
}

#[test]
fn first_failure_stops_new_jobs() {
    let mut s = BatchScheduler::new(4, 2, false, false);
    assert_eq!(s.next_action(), BatchAction::Start(0));
    assert_eq!(s.next_action(), BatchAction::Start(1));
    assert_eq!(s.next_action(), BatchAction::Wait);
    s.job_finished(false);
    assert_eq!(s.next_action(), BatchAction::Wait);
    s.job_finished(true);
    assert_eq!(s.next_action(), BatchAction::Failed);
    assert_eq!(s.started, 2);
}

#[test]
fn declined_overwrite_runs_nothing() {
    let mut s = BatchScheduler::new(3, 1, true, false);
    assert_eq!(s.gate, Gate::Pending);
    assert_eq!(s.next_action(), BatchAction::AskConfirmation);
    s.answer(false);
    assert_eq!(s.next_action(), BatchAction::Declined);
    assert_eq!(s.started, 0);
}

#[test]
fn confirmed_overwrite_runs_the_jobs() {
    let mut s = BatchScheduler::new(1, 1, true, false);
    assert_eq!(s.next_action(), BatchAction::AskConfirmation);
    s.answer(true);
    assert_eq!(s.next_action(), BatchAction::Start(0));
    s.job_finished(true);
    assert_eq!(s.next_action(), BatchAction::Succeeded);
}

#[test]
fn overwrite_flag_skips_the_question() {
    let mut s = BatchScheduler::new(1, 1, true, true);
    assert_eq!(s.gate, Gate::Open);
    assert_eq!(s.next_action(), BatchAction::Start(0));
    let mut empty = BatchScheduler::new(0, 3, false, false);
    assert_eq!(empty.next_action(), BatchAction::Succeeded);
}

#[test]
fn only_yes_confirms() {
    assert!(is_confirmation("yes"));
    assert!(is_confirmation("  yes\n"));
    assert!(!is_confirmation("Yes"));
    assert!(!is_confirmation("y"));
    assert!(!is_confirmation(""));
    assert!(!is_confirmation("yes please"));
}

#[test]
fn existing_outputs_are_listed_in_bold() {
    let paths = vec!["a.webm".to_string(), "b.webm".to_string(), "c.webm".to_string()];
    let existing = existing_outputs(&paths, &vec![true, false, true]);
    assert_eq!(existing, vec!["a.webm".to_string(), "c.webm".to_string()]);
    assert_eq!(
        overwrite_prompt(&existing).unwrap(),
        "The following output files already exist.\n- \u{1b}[1ma.webm\u{1b}[0m\n- \u{1b}[1mc.webm\u{1b}[0m\nOverwrite them?"
    );
    assert!(overwrite_prompt(&Vec::new()).is_none());
}

#[test]
fn sizes_are_bold_and_binary() {
    assert_eq!(bold_human_size(64 * 1024), "\u{1b}[1m64 KiB\u{1b}[0m");
}

#[test]
fn pack_kinds_must_be_given_once() {
    match MultiVideoGenContext::new(vec![], vec![], None, options(), 1, false) {
        Err(ConfigError::NoPackKinds) => {}
        _ => panic!("expected no pack kinds"),
    }
    match MultiVideoGenContext::new(vec![PackEntryKind::Emoji, PackEntryKind::Emoji], vec![], None, options(), 1, false) {
        Err(ConfigError::DuplicatePackKinds { pack_kinds }) => assert_eq!(pack_kinds.len(), 2),
        _ => panic!("expected duplicate pack kinds"),
    }
    let ctx = MultiVideoGenContext::new(vec![PackEntryKind::Sticker, PackEntryKind::Emoji], vec![], None, options(), 3, true)
        .ok()
        .unwrap();
    assert_eq!(ctx.concurrency, 3);
    assert!(ctx.overwrite);
}

#[test]
fn outputs_go_beside_inputs_or_into_the_output_dir() {
    let ctx = MultiVideoGenContext::new(vec![PackEntryKind::Emoji], vec![], None, options(), 1, false).ok().unwrap();
    let input = Utf8StemmedPathBuf::try_from("videos/cat.mp4".to_string()).unwrap();
    assert_eq!(ctx.out_file(PackEntryKind::Emoji, &input).ok().unwrap(), "videos/cat-emoji.webm");
    let bare = Utf8StemmedPathBuf::try_from("cat.mp4".to_string()).unwrap();
    assert_eq!(ctx.out_file(PackEntryKind::Sticker, &bare).ok().unwrap(), "cat-sticker.webm");
    let ctx = MultiVideoGenContext::new(vec![PackEntryKind::Emoji], vec![], Some("out".to_string()), options(), 1, false)
        .ok()
        .unwrap();
    assert_eq!(ctx.out_file(PackEntryKind::Emoji, &input).ok().unwrap(), "out/cat-emoji.webm");
}

#[test]
fn jobs_are_planned_per_kind_then_input() {
    let ctx = MultiVideoGenContext::new(
        vec![PackEntryKind::Sticker, PackEntryKind::Emoji],
        vec![],
        Some("out".to_string()),
        options(),
        1,
        false,
    )
    .ok()
    .unwrap();
    let jobs = ctx.prepare(&stemmed(&["a/x.mp4", "b/y.mp4"])).ok().unwrap();
    let outputs: Vec<&str> = jobs.iter().map(|j| j.output.as_str()).collect();
    assert_eq!(outputs, vec!["out/x-sticker.webm", "out/y-sticker.webm", "out/x-emoji.webm", "out/y-emoji.webm"]);
    assert_eq!(jobs[2].pack_entry_kind, PackEntryKind::Emoji);
    assert_eq!(jobs[3].input.as_path(), "b/y.mp4");
}

#[test]
fn planning_rejects_duplicate_stems() {
    let ctx = MultiVideoGenContext::new(vec![PackEntryKind::Emoji], vec![], None, options(), 1, false).ok().unwrap();
    match ctx.prepare(&stemmed(&["a/b/c", "d/c"])) {
        Err(PlanError::DuplicateInputNames(d)) => assert_eq!(d.groups[0].stem, "c"),
        _ => panic!("expected duplicate input names"),
    }
}

#[test]
fn bare_file_names_are_planned_beside_themselves() {
    let ctx = MultiVideoGenContext::new(vec![PackEntryKind::Emoji], vec![], None, options(), 1, false).ok().unwrap();
    let jobs = ctx.prepare(&stemmed(&["x.mov"])).ok().unwrap();
    assert_eq!(jobs.len(), 1);
    assert_eq!(jobs[0].output, "x-emoji.webm");
}

#[test]
fn video_command_selects_kinds() {
    let video = Video {
        pack_kinds: PackKindArgs { emoji: true, sticker: true },
        input: vec!["in".to_string()],
        output: None,
        overwrite: false,
        publisher: None,
        begin: None,
        end: None,
        filter: None,
        concurrency: 2,
        ffmpeg_args: vec![],
    };
    assert_eq!(video.pack_kinds(), vec![PackEntryKind::Emoji, PackEntryKind::Sticker]);
    let ctx = video.into_context().ok().unwrap();
    assert_eq!(ctx.pack_kinds, vec![PackEntryKind::Emoji, PackEntryKind::Sticker]);
    assert_eq!(ctx.inputs, vec!["in".to_string()]);
    let none = Video {
        pack_kinds: PackKindArgs { emoji: false, sticker: false },
        input: vec![],
        output: None,
        overwrite: false,
        publisher: None,
        begin: None,
        end: None,
        filter: None,
        concurrency: 1,
        ffmpeg_args: vec![],
    };
    assert!(matches!(none.into_context(), Err(ConfigError::NoPackKinds)));
}

#[test]
fn default_concurrency_falls_back_to_one() {
    assert_eq!(default_concurrency(Some(8)), 8);
    assert_eq!(default_concurrency(None), 1);
    assert_eq!(default_concurrency(Some(0)), 1);
}

#[test]
fn trim_removes_unicode_white_space() {
    assert_eq!(trim("\u{2003} a b \t\n"), "a b");
    assert_eq!(trim("\u{3000}\u{a0}"), "");
    assert_eq!(trim("x"), "x");
    assert!(is_confirmation("\u{3000}yes\u{a0}"));
}
