use std::cell::RefCell;
use tstick::encoder::{EncodeError, Encoder};
use tstick::kind::{PackEntryKind, MAX_CRF};
use tstick::path::Utf8StemmedPathBuf;
use tstick::single_gen::{GenerateError, ScratchPaths, SingleVideoGenContext, SingleVideoGenOptions};

/// Returns `len(crf)` zero bytes, and logs every CRF it is run with.
struct MockEncoder {
    lens: Vec<usize>,
    crfs_log: RefCell<Vec<usize>>,
    args_log: RefCell<Vec<Vec<String>>>,
    fail_at: Option<usize>,
}

impl MockEncoder {
    fn with_best_crf(best_crf: usize, kind: PackEntryKind) -> Self {
        let lens = (0..=MAX_CRF).map(|crf| kind.max_bytes() + best_crf - crf).collect();
        MockEncoder { lens, crfs_log: RefCell::new(vec![]), args_log: RefCell::new(vec![]), fail_at: None }
    }

    fn with_lens(lens: Vec<usize>) -> Self {
        MockEncoder { lens, crfs_log: RefCell::new(vec![]), args_log: RefCell::new(vec![]), fail_at: None }
    }
}

impl Encoder for MockEncoder {
    fn run(&self, args: Vec<String>) -> Result<Vec<u8>, EncodeError> {
        let crf_pos = args.iter().position(|arg| arg == "-crf").unwrap();
        let crf: usize = args[crf_pos + 1].parse().unwrap();
        self.crfs_log.borrow_mut().push(crf);
        self.args_log.borrow_mut().push(args.clone());
        if self.fail_at == Some(crf) {
            return Err(EncodeError { message: "Process `ffmpeg` failed".to_string() });
        }
        Ok(vec![0; self.lens[crf]])
    }

    fn run_with_output_file(&self, args: Vec<String>, _output_file: &str) -> Result<Vec<u8>, EncodeError> {
        self.run(args)
    }
}

fn job(kind: PackEntryKind) -> SingleVideoGenContext {
    SingleVideoGenContext {
        pack_entry_kind: kind,
        input: Utf8StemmedPathBuf::try_from("input".to_string()).unwrap(),
        output: "output".to_string(),
    }
}

fn no_options() -> SingleVideoGenOptions {
    SingleVideoGenOptions { begin: None, end: None, filter: None, ffmpeg_args: vec![], publisher: None }
}

fn scratch() -> ScratchPaths {
    ScratchPaths {
        pass_log_file: "tmp/ffmpeg2pass".to_string(),
        output_file: "tmp/output.webm".to_string(),
        null_output: "/dev/null".to_string(),
    }
}

fn generate(kind: PackEntryKind, mock: &MockEncoder) -> Result<Vec<u8>, GenerateError> {
    let j = job(kind);
    let mut two_pass = j.two_pass_context(&no_options(), &scratch());
    j.generate_bytes(&mut two_pass, mock)
}

fn crf_search(best_crf: usize) -> Vec<usize> {
    let kind = PackEntryKind::Sticker;
    let mock = MockEncoder::with_best_crf(best_crf, kind);
    let output = generate(kind, &mock).unwrap();
    assert_eq!(output.len(), kind.max_bytes());
    let log = mock.crfs_log.into_inner();
    // two passes per trial
    assert_eq!(log.len() % 2, 0);
    log.chunks(2)
        .map(|pair| {
            assert_eq!(pair[0], pair[1]);
            pair[0]
        })
        .collect()
}

#[test]
fn smoke_test_binary_crf_search() {
    assert_eq!(format!("{:?}", crf_search(0)), "[31, 15, 7, 3, 1, 0]");
    assert_eq!(format!("{:?}", crf_search(1)), "[31, 15, 7, 3, 1, 0]");
    assert_eq!(format!("{:?}", crf_search(31)), "[31, 15, 23, 27, 29, 30]");
    assert_eq!(format!("{:?}", crf_search(62)), "[31, 47, 55, 59, 61, 62]");
    assert_eq!(format!("{:?}", crf_search(63)), "[31, 47, 55, 59, 61, 62, 63]");
}

#[test]
fn search_finds_least_fitting_crf_for_every_best() {
    for best in 0..=MAX_CRF {
        let kind = PackEntryKind::Emoji;
        // sizes fall by 10 bytes per CRF; exactly the CRFs from `best` on fit
        let budget = kind.max_bytes();
        let lens: Vec<usize> = (0..=MAX_CRF)
            .map(|crf| if crf >= best { budget - 10 * (crf - best) } else { budget + 10 * (best - crf) })
            .collect();
        let mock = MockEncoder::with_lens(lens.clone());
        let out = generate(kind, &mock).unwrap();
        assert_eq!(out.len(), lens[best]);
        let log = mock.crfs_log.into_inner();
        let trials: Vec<usize> = log.chunks(2).map(|p| p[0]).collect();
        assert!(trials.len() <= 7);
        let mut distinct = trials.clone();
        distinct.sort();
        distinct.dedup();
        assert_eq!(distinct.len(), trials.len(), "a CRF was encoded twice");
    }
}

#[test]
fn search_fails_when_even_max_crf_overflows() {
    let kind = PackEntryKind::Emoji;
    let lens: Vec<usize> = (0..=MAX_CRF).map(|crf| kind.max_bytes() + 100 - crf).collect();
    let mock = MockEncoder::with_lens(lens);
    match generate(kind, &mock) {
        Err(GenerateError::Infeasible { crf, len, max_bytes }) => {
            assert_eq!(crf, 63);
            assert_eq!(len, kind.max_bytes() + 37);
            assert_eq!(max_bytes, 64 * 1024);
        }
        other => panic!("unexpected {other:?}"),
    }
    let trials: Vec<usize> = mock.crfs_log.into_inner().chunks(2).map(|p| p[0]).collect();
    assert_eq!(trials, vec![31, 47, 55, 59, 61, 62, 63]);
}

#[test]
fn encoder_failure_ends_the_search() {
    let kind = PackEntryKind::Sticker;
    let mut mock = MockEncoder::with_best_crf(10, kind);
    mock.fail_at = Some(15);
    match generate(kind, &mock) {
        Err(GenerateError::Encode(e)) => assert_eq!(e.message, "Process `ffmpeg` failed"),
        other => panic!("unexpected {other:?}"),
    }
    // the first pass at 15 failed: no second pass, no further trial
    assert_eq!(mock.crfs_log.into_inner(), vec![31, 31, 15]);
}

#[test]
fn passes_get_their_own_arguments() {
    let kind = PackEntryKind::Sticker;
    let mock = MockEncoder::with_best_crf(63, kind);
    generate(kind, &mock).unwrap();
    let args = mock.args_log.into_inner();
    let first = &args[0];
    let second = &args[1];
    let n = first.len();
    assert_eq!(&first[n - 7..], &["-crf", "31", "-pass", "1", "-f", "null", "/dev/null"]);
    assert_eq!(&second[second.len() - 4..], &["-crf", "31", "-pass", "2"]);
    assert_eq!(first[..n - 7], second[..second.len() - 4]);
}
