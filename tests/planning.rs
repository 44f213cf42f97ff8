use lecture_sync::artifacts::{ArtifactStore, Stage};
use lecture_sync::error::PipelineError;
use lecture_sync::pipeline::{
    check_encoder_exit, check_login, check_series_access, next_action, stage_completed_by,
    transcription_workers, Action,
};
use lecture_sync::rendition::{select_rendition, Rendition};
use lecture_sync::silence::{parse_clock, parse_silence_report, SilenceInterval};
use lecture_sync::split::{plan_split, plan_split_from_report, SplitPlan};
use lecture_sync::sync::{episodes_after, is_before, pending_episodes, Episode};
use lecture_sync::text::{find, parse_micros, split_lines};

fn rendition(width: u64, height: u64, url: &str, mime: &str) -> Rendition {
    Rendition { width, height, url: url.to_string(), mime_type: mime.to_string() }
}

fn episode(id: &str, created_at: &str) -> Episode {
    Episode { id: id.to_string(), created_at: created_at.to_string() }
}

fn silence(end: u64, duration: u64) -> SilenceInterval {
    SilenceInterval { end_micros: end, duration_micros: duration }
}

const SECOND: u64 = 1_000_000;

fn report_stream(duration: &str, silences: &[(&str, &str)]) -> Vec<u8> {
    let mut s = String::new();
    s.push_str("Input #0, mov,mp4,m4a,3gp,3g2,mj2, from 'videos/2023-09-01.mp4':\n");
    s.push_str(&format!("  Duration: {}, start: 0.000000, bitrate: 312 kb/s\n", duration));
    s.push_str("  Stream #0:0(und): Audio: aac (LC)\n");
    for (end, dur) in silences {
        s.push_str("[silencedetect @ 0x55d0c8a0] silence_start: 1.5\n");
        s.push_str(&format!(
            "[silencedetect @ 0x55d0c8a0] silence_end: {} | silence_duration: {}\n",
            end, dur
        ));
    }
    s.push_str("size=N/A time=00:02:00.00 bitrate=N/A speed= 450x\r\n");
    s.into_bytes()
}

#[test]
fn duration_parse_of_clock_reading() {
    assert_eq!(parse_clock(b"01:02:03.50"), Some(3_723_500_000));
    assert_eq!(parse_clock(b"00:00:00.00"), Some(0));
    assert_eq!(parse_clock(b"1:2"), None);
    assert_eq!(parse_clock(b"01:0x:03.50"), None);
    assert_eq!(parse_clock(b"01:02:03:04"), None);
}

#[test]
fn duration_parse_through_report() {
    let stream = report_stream("01:02:03.50", &[("40", "2")]);
    let report = parse_silence_report(&stream).unwrap();
    assert_eq!(report.total_micros, 3_723_500_000);
    assert_eq!(report.silences, vec![silence(40 * SECOND, 2 * SECOND)]);
}

#[test]
fn decimal_numerals() {
    assert_eq!(parse_micros(b"12"), Some(12 * SECOND));
    assert_eq!(parse_micros(b"1.5"), Some(1_500_000));
    assert_eq!(parse_micros(b"61.234567"), Some(61_234_567));
    assert_eq!(parse_micros(b"0.000001"), Some(1));
    assert_eq!(parse_micros(b"1.1234567"), None);
    assert_eq!(parse_micros(b"1."), None);
    assert_eq!(parse_micros(b".5"), None);
    assert_eq!(parse_micros(b""), None);
    assert_eq!(parse_micros(b"-3"), None);
    assert_eq!(parse_micros(b"999999999999"), Some(999_999_999_999 * SECOND));
    assert_eq!(parse_micros(b"1000000000000"), None);
}

#[test]
fn lines_and_search() {
    let ls = split_lines(b"a\nb\r\nc");
    assert_eq!(ls, vec![b"a".to_vec(), b"b".to_vec(), b"".to_vec(), b"c".to_vec()]);
    assert_eq!(split_lines(b""), vec![Vec::<u8>::new()]);
    assert_eq!(find(b"abcabc", b"ca"), Some(2));
    assert_eq!(find(b"abc", b"abcd"), None);
    assert_eq!(find(b"abc", b""), Some(0));
}

#[test]
fn split_at_first_silence_after_middle() {
    let silences = vec![
        silence(40 * SECOND, 2 * SECOND),
        silence(61 * SECOND, 4 * SECOND),
        silence(100 * SECOND, SECOND),
    ];
    let plan = plan_split(120 * SECOND, &silences).unwrap();
    assert_eq!(plan, SplitPlan { total_micros: 120 * SECOND, cut_micros: 59 * SECOND });
}

#[test]
fn split_from_report_stream() {
    let stream = report_stream("00:02:00.00", &[("40.0", "2.0"), ("61.0", "4.0"), ("100.0", "1.0")]);
    let plan = plan_split_from_report(&stream).unwrap();
    assert_eq!(plan.cut_micros, 59 * SECOND);
    assert_eq!(plan.total_micros, 120 * SECOND);
}

#[test]
fn split_uses_full_precision_distance() {
    // 60.9 is closer to the midpoint than 61.2, though both truncate to 60/61.
    let silences = vec![silence(61_200_000, 2 * SECOND), silence(60_900_000, 2 * SECOND)];
    let plan = plan_split(120 * SECOND, &silences).unwrap();
    assert_eq!(plan.cut_micros, 59_900_000);
}

#[test]
fn split_ties_go_to_first() {
    let silences = vec![silence(70 * SECOND, 2 * SECOND), silence(70 * SECOND, 4 * SECOND)];
    let plan = plan_split(120 * SECOND, &silences).unwrap();
    assert_eq!(plan.cut_micros, 69 * SECOND);
}

#[test]
fn split_silence_at_exact_middle() {
    let silences = vec![silence(59 * SECOND, 2 * SECOND), silence(60 * SECOND, 2 * SECOND)];
    let plan = plan_split(120 * SECOND, &silences).unwrap();
    assert_eq!(plan.cut_micros, 59 * SECOND);
}

#[test]
fn split_without_later_silence_takes_latest() {
    let silences = vec![silence(20 * SECOND, 2 * SECOND), silence(50 * SECOND, 2 * SECOND)];
    let plan = plan_split(120 * SECOND, &silences).unwrap();
    assert_eq!(plan.cut_micros, 49 * SECOND);
}

#[test]
fn split_odd_duration_rounds_half_micro() {
    let silences = vec![silence(61 * SECOND, 3)];
    let plan = plan_split(120 * SECOND, &silences).unwrap();
    assert_eq!(plan.cut_micros, 61 * SECOND - 1);
}

#[test]
fn split_cut_always_inside() {
    let totals = [SECOND, 7 * SECOND, 120 * SECOND, 3_723_500_000];
    for total in totals {
        for end in [0, SECOND / 2, SECOND, 3 * SECOND, 60 * SECOND, 200 * SECOND] {
            for dur in [1, SECOND, 2 * SECOND, 10 * SECOND] {
                let silences = vec![silence(end, dur), silence(end / 2, dur)];
                match plan_split(total, &silences) {
                    Ok(plan) => {
                        assert!(0 < plan.cut_micros && plan.cut_micros < total);
                        assert_eq!(plan.total_micros, total);
                    }
                    Err(e) => assert_eq!(e, PipelineError::SplitPointOutOfRange),
                }
            }
        }
    }
}

#[test]
fn split_point_out_of_range() {
    let silences = vec![silence(SECOND / 2, 2 * SECOND)];
    assert_eq!(plan_split(SECOND, &silences), Err(PipelineError::SplitPointOutOfRange));
    let late = vec![silence(300 * SECOND, 2 * SECOND)];
    assert_eq!(plan_split(120 * SECOND, &late), Err(PipelineError::SplitPointOutOfRange));
    let zero = vec![silence(0, 2 * SECOND)];
    assert_eq!(plan_split(0, &zero), Err(PipelineError::SplitPointOutOfRange));
}

#[test]
fn report_without_silence_is_empty() {
    let stream = report_stream("00:02:00.00", &[]);
    assert_eq!(parse_silence_report(&stream).unwrap_err(), PipelineError::SilenceDetectionEmpty);
    assert_eq!(plan_split_from_report(&stream), Err(PipelineError::SilenceDetectionEmpty));
}

#[test]
fn report_without_duration() {
    let stream = b"[silencedetect @ 0x1] silence_end: 40 | silence_duration: 2\n".to_vec();
    assert_eq!(parse_silence_report(&stream).unwrap_err(), PipelineError::DurationParseFailure);
    let no_bitrate = b"  Duration: 00:02:00.00, start: 0.000000\n".to_vec();
    assert_eq!(parse_silence_report(&no_bitrate).unwrap_err(), PipelineError::DurationParseFailure);
    let bad_clock = report_stream("00:0a:00.00", &[("40", "2")]);
    assert_eq!(parse_silence_report(&bad_clock).unwrap_err(), PipelineError::DurationParseFailure);
}

#[test]
fn report_with_malformed_silence() {
    let stream = report_stream("00:02:00.00", &[("40", "2"), ("x", "2")]);
    assert_eq!(parse_silence_report(&stream).unwrap_err(), PipelineError::MalformedSilenceEvent);
    let zero = report_stream("00:02:00.00", &[("40", "0")]);
    assert_eq!(parse_silence_report(&zero).unwrap_err(), PipelineError::MalformedSilenceEvent);
    let mut cut = b"  Duration: 00:02:00.00, start: 0.0, bitrate: 1 kb/s\n".to_vec();
    cut.extend_from_slice(b"silence_end: 40\n");
    assert_eq!(parse_silence_report(&cut).unwrap_err(), PipelineError::MalformedSilenceEvent);
}

#[test]
fn report_keeps_stream_order() {
    let stream = report_stream("00:02:00.00", &[("100", "1"), ("40.5", "2.25")]);
    let report = parse_silence_report(&stream).unwrap();
    assert_eq!(
        report.silences,
        vec![silence(100 * SECOND, SECOND), silence(40_500_000, 2_250_000)]
    );
}

#[test]
fn rendition_smallest_matching() {
    let rs = vec![
        rendition(320, 240, "small.mp4", "video/mp4"),
        rendition(1920, 1080, "large.mp4", "video/mp4"),
        rendition(640, 480, "audio.mp4", "audio/mp4"),
    ];
    let sel = select_rendition(&rs, &"video/mp4".to_string()).unwrap();
    assert_eq!((sel.width, sel.height), (320, 240));
    assert_eq!(sel.url, "small.mp4");
    assert_eq!(sel.mime_type, "video/mp4");
}

#[test]
fn rendition_minimum_not_first() {
    let rs = vec![
        rendition(1920, 1080, "large.mp4", "video/mp4"),
        rendition(100, 100, "tiny.webm", "video/webm"),
        rendition(640, 360, "mid.mp4", "video/mp4"),
    ];
    let sel = select_rendition(&rs, &"video/mp4".to_string()).unwrap();
    assert_eq!(sel.url, "mid.mp4");
}

#[test]
fn rendition_tie_goes_to_first() {
    let rs = vec![
        rendition(1280, 720, "hd.mp4", "video/mp4"),
        rendition(480, 270, "a.mp4", "video/mp4"),
        rendition(270, 480, "b.mp4", "video/mp4"),
    ];
    let sel = select_rendition(&rs, &"video/mp4".to_string()).unwrap();
    assert_eq!(sel.url, "a.mp4");
}

#[test]
fn rendition_none_matching() {
    let rs = vec![rendition(640, 480, "audio.mp4", "audio/mp4")];
    assert_eq!(
        select_rendition(&rs, &"video/mp4".to_string()).unwrap_err(),
        PipelineError::NoMatchingRendition
    );
    assert_eq!(
        select_rendition(&Vec::new(), &"video/mp4".to_string()).unwrap_err(),
        PipelineError::NoMatchingRendition
    );
}

#[test]
fn store_marks_are_idempotent() {
    let mut store = ArtifactStore::new();
    let key = "2023-09-01".to_string();
    assert!(!store.has_stage(&key, Stage::Downloaded));
    store.mark_stage(&key, Stage::Downloaded);
    store.mark_stage(&key, Stage::Downloaded);
    assert!(store.has_stage(&key, Stage::Downloaded));
    assert!(!store.has_stage(&key, Stage::Split));
    assert!(!store.has_stage(&"2023-09-08".to_string(), Stage::Downloaded));
}

#[test]
fn stage_names_round_trip() {
    for st in [Stage::Downloaded, Stage::Split, Stage::Transcribed] {
        assert_eq!(Stage::from_name(&st.name()), Some(st));
    }
    assert_eq!(Stage::Split.name(), b"split".to_vec());
    assert_eq!(Stage::from_name(b"transcribed"), Some(Stage::Transcribed));
    assert_eq!(Stage::from_name(b"done"), None);
}

#[test]
fn partially_processed_episode_only_transcribes() {
    let mut store = ArtifactStore::new();
    let key = "2023-09-01".to_string();
    store.mark_stage(&key, Stage::Downloaded);
    store.mark_stage(&key, Stage::Split);
    let eps = vec![episode("e1", "2023-09-01")];
    let pending = pending_episodes(&eps, &store, Stage::Transcribed);
    assert_eq!(pending.len(), 1);
    assert_eq!(pending[0].id, "e1");
    assert_eq!(next_action(&store, &key), Action::Transcribe);
    store.mark_stage(&key, stage_completed_by(Action::Transcribe).unwrap());
    assert_eq!(next_action(&store, &key), Action::Done);
    assert!(pending_episodes(&eps, &store, Stage::Transcribed).is_empty());
}

#[test]
fn fresh_episode_goes_through_every_stage() {
    let mut store = ArtifactStore::new();
    let key = "2023-09-08".to_string();
    let mut seen = Vec::new();
    loop {
        let a = next_action(&store, &key);
        seen.push(a);
        match stage_completed_by(a) {
            Some(st) => store.mark_stage(&key, st),
            None => break,
        }
    }
    assert_eq!(seen, vec![Action::Download, Action::Split, Action::Transcribe, Action::Done]);
    assert_eq!(stage_completed_by(Action::Done), None);
}

#[test]
fn sync_plan_is_repeatable_and_excludes_completed() {
    let mut store = ArtifactStore::new();
    store.mark_stage(&"2023-09-01".to_string(), Stage::Transcribed);
    let eps = vec![
        episode("a", "2023-09-01"),
        episode("b", "2023-09-08"),
        episode("c", "2023-09-15"),
    ];
    let first = pending_episodes(&eps, &store, Stage::Transcribed);
    let second = pending_episodes(&eps, &store, Stage::Transcribed);
    let ids = |v: &Vec<Episode>| v.iter().map(|e| e.id.clone()).collect::<Vec<_>>();
    assert_eq!(ids(&first), vec!["b", "c"]);
    assert_eq!(ids(&first), ids(&second));
    store.mark_stage(&"2023-09-08".to_string(), Stage::Transcribed);
    let third = pending_episodes(&eps, &store, Stage::Transcribed);
    assert_eq!(ids(&third), vec!["c"]);
    assert_eq!(eps.len(), 3);
}

#[test]
fn sync_other_stage_markers_do_not_exclude() {
    let mut store = ArtifactStore::new();
    store.mark_stage(&"2023-09-01".to_string(), Stage::Downloaded);
    let eps = vec![episode("a", "2023-09-01")];
    assert_eq!(pending_episodes(&eps, &store, Stage::Transcribed).len(), 1);
    assert!(pending_episodes(&eps, &store, Stage::Downloaded).is_empty());
    assert!(pending_episodes(&Vec::new(), &store, Stage::Transcribed).is_empty());
}

#[test]
fn session_and_process_checks() {
    assert_eq!(check_login(200), Ok(()));
    assert_eq!(check_login(299), Ok(()));
    assert_eq!(check_login(302), Err(PipelineError::AuthFailure));
    assert_eq!(check_login(401), Err(PipelineError::AuthFailure));
    assert_eq!(check_series_access(true), Ok(()));
    assert_eq!(check_series_access(false), Err(PipelineError::UnauthorizedSeries));
    assert_eq!(check_encoder_exit(Some(0)), Ok(()));
    assert_eq!(check_encoder_exit(Some(2)), Err(PipelineError::EncodeProcessFailure(2)));
    assert_eq!(check_encoder_exit(None), Err(PipelineError::EncodeProcessFailure(1)));
}

#[test]
fn worker_count_is_capped() {
    assert_eq!(transcription_workers(1), 1);
    assert_eq!(transcription_workers(4), 4);
    assert_eq!(transcription_workers(8), 8);
    assert_eq!(transcription_workers(64), 8);
}

#[test]
fn cutoff_keeps_strictly_later_episodes() {
    let eps = vec![
        episode("a", "2023-09-01T10:00:00Z"),
        episode("b", "2023-09-08T10:00:00Z"),
        episode("c", "2023-09-15T10:00:00Z"),
    ];
    let later = episodes_after(&eps, &"2023-09-08T10:00:00Z".to_string());
    assert_eq!(later.len(), 1);
    assert_eq!(later[0].id, "c");
    assert_eq!(episodes_after(&eps, &"2023-01-01".to_string()).len(), 3);
    assert!(episodes_after(&eps, &"2024".to_string()).is_empty());
}

#[test]
fn byte_order_comparison() {
    assert!(is_before(b"2023-09-01", b"2023-09-08"));
    assert!(!is_before(b"2023-09-08", b"2023-09-01"));
    assert!(!is_before(b"2023-09-08", b"2023-09-08"));
    assert!(is_before(b"2023", b"2023-01"));
    assert!(!is_before(b"2023-01", b"2023"));
    assert!(is_before(b"", b"a"));
    assert!(!is_before(b"", b""));
}
