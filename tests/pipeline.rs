use tstick::command_line::render_cli;
use tstick::duration::TimeSpan;
use tstick::encoder::with_output_file;
use tstick::kind::PackEntryKind;
use tstick::path::Utf8StemmedPathBuf;
use tstick::single_gen::{
    optional_named_arg, optional_named_duration_arg, pad_filter, prefix_args, scale_filter,
    search_outcome, video_filter, GenerateError, SingleVideoGenOptions,
};
use tstick::text::{decimal_string, strs};

#[test]
fn all_options_make_the_full_prefix() {
    let options = SingleVideoGenOptions {
        begin: Some(TimeSpan::new(1, 500_000_000)),
        end: Some(TimeSpan::new(2, 500_000_000)),
        filter: Some("custom_filter".to_string()),
        ffmpeg_args: vec!["custom_ffmpeg_arg".to_string()],
        publisher: Some("custom publisher".to_string()),
    };
    let input = Utf8StemmedPathBuf::try_from("in/clip.mp4".to_string()).unwrap();
    let args = prefix_args(&input, PackEntryKind::Emoji, &options, "tmp/ffmpeg2pass");
    let expected = vec![
        "-y",
        "-i",
        "in/clip.mp4",
        "-ss",
        "1.5",
        "-to",
        "2.5",
        "-metadata",
        "publisher=custom publisher",
        "-metadata",
        "encoded_by=https://github.com/Veetaha/tstick",
        "-fps_mode",
        "passthrough",
        "-vcodec",
        "libvpx-vp9",
        "-b:v",
        "0",
        "-an",
        "-filter:v",
        "custom_filter,scale=iw * min(100 / iw\\, 100 / ih):ih * min(100 / iw\\, 100 / ih):flags=lanczos,pad=100:100:-1:-1:color=0x00000000",
        "-passlogfile",
        "tmp/ffmpeg2pass",
        "custom_ffmpeg_arg",
    ];
    assert_eq!(args, expected);
}

#[test]
fn no_options_make_the_short_prefix() {
    let options = SingleVideoGenOptions { begin: None, end: None, filter: None, ffmpeg_args: vec![], publisher: None };
    let input = Utf8StemmedPathBuf::try_from("clip.mp4".to_string()).unwrap();
    let args = prefix_args(&input, PackEntryKind::Sticker, &options, "p");
    assert_eq!(
        args,
        vec![
            "-y", "-i", "clip.mp4", "-metadata", "encoded_by=https://github.com/Veetaha/tstick", "-fps_mode",
            "passthrough", "-vcodec", "libvpx-vp9", "-b:v", "0", "-an", "-filter:v",
            "scale=iw * min(512 / iw\\, 512 / ih):ih * min(512 / iw\\, 512 / ih):flags=lanczos",
            "-passlogfile", "p",
        ]
    );
}

#[test]
fn filters_follow_the_kind() {
    assert_eq!(pad_filter(100), "pad=100:100:-1:-1:color=0x00000000");
    assert_eq!(scale_filter(7), "scale=iw * min(7 / iw\\, 7 / ih):ih * min(7 / iw\\, 7 / ih):flags=lanczos");
    assert_eq!(
        video_filter(&None, PackEntryKind::Emoji),
        "scale=iw * min(100 / iw\\, 100 / ih):ih * min(100 / iw\\, 100 / ih):flags=lanczos,pad=100:100:-1:-1:color=0x00000000"
    );
    assert_eq!(
        video_filter(&Some("hflip".to_string()), PackEntryKind::Sticker),
        "hflip,scale=iw * min(512 / iw\\, 512 / ih):ih * min(512 / iw\\, 512 / ih):flags=lanczos"
    );
}

#[test]
fn optional_args_appear_only_with_a_value() {
    assert_eq!(optional_named_arg("-x", Some("v".to_string())), vec!["-x", "v"]);
    assert!(optional_named_arg("-x", None).is_empty());
    assert_eq!(optional_named_duration_arg("-ss", Some(TimeSpan::new(90, 500_000_000))), vec!["-ss", "90.5"]);
    assert!(optional_named_duration_arg("-ss", None).is_empty());
}

#[test]
fn time_spans_are_written_in_seconds() {
    assert_eq!(TimeSpan::new(2, 0).seconds_string(), "2");
    assert_eq!(TimeSpan::new(0, 0).seconds_string(), "0");
    assert_eq!(TimeSpan::new(1, 234_000_000).seconds_string(), "1.234");
    assert_eq!(TimeSpan::new(765, 400_000_000).seconds_string(), "765.4");
    assert_eq!(TimeSpan::new(0, 1).seconds_string(), "0.000000001");
    assert_eq!(TimeSpan::new(1210, 500_000_000).seconds_string(), "1210.5");
}

#[test]
fn decimals_and_literal_lists() {
    assert_eq!(decimal_string(0), "0");
    assert_eq!(decimal_string(63), "63");
    assert_eq!(decimal_string(u64::MAX), "18446744073709551615");
    assert_eq!(strs(&["a", "bc"]), vec!["a".to_string(), "bc".to_string()]);
}

#[test]
fn output_file_is_appended() {
    let args = vec!["-crf".to_string(), "3".to_string()];
    assert_eq!(with_output_file(&args, "out.webm"), vec!["-crf", "3", "out.webm"]);
}

#[test]
fn search_outcome_maps_results() {
    match search_outcome(Ok((5, vec![0; 10])), 10) {
        Ok(out) => assert_eq!(out.len(), 10),
        Err(e) => panic!("unexpected {e:?}"),
    }
    match search_outcome(Ok((63, vec![0; 11])), 10) {
        Err(GenerateError::Infeasible { crf: 63, len: 11, max_bytes: 10 }) => {}
        other => panic!("unexpected {other:?}"),
    }
}

#[test]
fn kinds_have_their_limits() {
    assert_eq!(PackEntryKind::Emoji.max_bytes(), 64 * 1024);
    assert_eq!(PackEntryKind::Sticker.max_bytes(), 256 * 1024);
    assert!(PackEntryKind::Emoji.must_be_square());
    assert!(!PackEntryKind::Sticker.must_be_square());
    assert_eq!(PackEntryKind::Emoji.bounding_box(), 100);
    assert_eq!(PackEntryKind::Sticker.bounding_box(), 512);
    assert_eq!(PackEntryKind::Emoji.name(), "emoji");
    assert_eq!(PackEntryKind::Sticker.name(), "sticker");
}

#[test]
fn short_commands_are_shown_in_one_line() {
    let args = vec!["-y".to_string(), "a b".to_string(), "x".to_string()];
    assert_eq!(
        render_cli("ffmpeg", &args),
        "\u{1b}[34mffmpeg\u{1b}[0m \u{1b}[34m-y\u{1b}[0m 'a b' x"
    );
}

#[test]
fn long_commands_are_shown_one_argument_per_line() {
    let long = "v".repeat(120);
    let args = vec!["-i".to_string(), long.clone()];
    assert_eq!(
        render_cli("ffmpeg", &args),
        format!("(\n  \u{1b}[34mffmpeg\u{1b}[0m \n    \u{1b}[34m-i\u{1b}[0m \n    {long}\n)")
    );
}
