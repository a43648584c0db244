//! Exports, probe reports, detections and the segmenter's harness.
use voloph::analysis::analysis_file_name;
use voloph::detect::{anchor_cell, nms, parse_dimensions, to_planes, track_totals};
use voloph::eval::{Interval, Rate};
use voloph::export::{
    build_filter, hw_encoders, parse_progress, plan_export, plan_trial, seconds_of, software,
    total_duration, video_encoder, Cut,
};
use voloph::harness::{
    missed_rallies, score_config, scored_duration, select_corpus, skip_line, sort_sweep, standing,
    sweep_grid, trace_miss, verdict_text, CorpusRecording, FiringSample, LostAt, Rerun, Standing,
    SweepRow, Tally,
};
use voloph::media::{motion_sums, parse_capture_date, CaptureDate, MOTION_FRAME};
use voloph::options::{app_data_root, default_db_path, DumpOptions, Options};
use voloph::player::{end_event, frame_step_command, surface_size, switch_word, EndEvent};

fn texts(words: &[&str]) -> Vec<String> {
    words.iter().map(|w| w.to_string()).collect()
}

#[test]
fn rejects_empty_selection() {
    let cuts: Vec<Cut> = Vec::new();
    assert!(cuts.is_empty());
    let refused = plan_export(&texts(&["/a.mp4"]), "/out.mp4", &cuts, &software());
    assert_eq!(refused.unwrap_err(), "no rallies selected to export");
}

#[test]
fn total_duration_sums_cuts() {
    let cuts = vec![
        Cut {
            src: 0,
            start_ms: 0,
            end_ms: 1000,
        },
        Cut {
            src: 1,
            start_ms: 5000,
            end_ms: 5500,
        },
    ];
    let total: i64 = total_duration(&cuts);
    assert_eq!(total, 1500);
}

#[test]
fn encoder_plans_are_well_formed() {
    let plain = software();
    assert!(plain.codec.contains(&"libx264".to_string()));
    assert!(plain.global.is_empty() && plain.vfilter.is_none());

    for plan in hw_encoders() {
        assert!(plan.codec.contains(&"-c:v".to_string()));
        assert_eq!(plan.vfilter.is_some(), !plan.global.is_empty());
    }
    assert!(hw_encoders()
        .iter()
        .any(|p| p.codec.contains(&"h264_vaapi".to_string()) && p.vfilter.is_some()));
}

#[test]
fn parses_both_capture_date_tags() {
    let report = "\
TAG:major_brand=qt
TAG:creation_time=2024-03-15T13:30:00.000000Z
TAG:com.apple.quicktime.creationdate=2024-03-15T21:30:00+0800
TAG:encoder=Lavf62.12.102";
    assert_eq!(
        parse_capture_date(report),
        CaptureDate {
            quicktime_creationdate: Some("2024-03-15T21:30:00+0800".to_string()),
            creation_time: Some("2024-03-15T13:30:00.000000Z".to_string()),
        }
    );
}

#[test]
fn parses_missing_capture_date_as_empty() {
    let report = "TAG:major_brand=isom\nTAG:encoder=Lavf62.12.102";
    assert_eq!(parse_capture_date(report), CaptureDate::default());
}

#[test]
fn write_is_atomic_and_leaves_no_temp() {
    let name = analysis_file_name("abc123", 4242, 1);
    assert_eq!(name, "abc123_4242.vanalysis");
    assert_eq!(
        analysis_file_name("abc123", 4242, 2),
        "abc123_4242_s2.vanalysis"
    );
}

struct PixelBox {
    x1: f32,
    y1: f32,
    x2: f32,
    y2: f32,
    score: f32,
}

fn overlap_ratio(a: &PixelBox, b: &PixelBox) -> f32 {
    let w = (a.x2.min(b.x2) - a.x1.max(b.x1)).max(0.0);
    let h = (a.y2.min(b.y2) - a.y1.max(b.y1)).max(0.0);
    let area = |p: &PixelBox| (p.x2 - p.x1) * (p.y2 - p.y1);
    w * h / (area(a) + area(b) - w * h)
}

#[test]
fn nms_suppresses_overlaps_keeps_disjoint() {
    let a = PixelBox {
        x1: 0.0,
        y1: 0.0,
        x2: 10.0,
        y2: 10.0,
        score: 0.9,
    };
    let a2 = PixelBox {
        x1: 1.0,
        y1: 1.0,
        x2: 11.0,
        y2: 11.0,
        score: 0.8,
    };
    let far = PixelBox {
        x1: 100.0,
        y1: 100.0,
        x2: 110.0,
        y2: 110.0,
        score: 0.7,
    };
    let boxes = vec![a2, far, a];
    let scores: Vec<u32> = boxes.iter().map(|b| b.score.to_bits()).collect();
    let overlaps: Vec<Vec<bool>> = boxes
        .iter()
        .map(|p| boxes.iter().map(|q| overlap_ratio(p, q) > 0.45).collect())
        .collect();
    let kept = nms(&scores, &overlaps);
    assert_eq!(kept.len(), 2, "one overlap suppressed, disjoint kept");
    assert!((boxes[kept[0].position].score - 0.9).abs() < 1e-6);
    assert_eq!(kept[1].position, 1);
}

#[test]
fn a_lower_floor_appends_to_what_is_kept() {
    // The second overlaps the first, the third nothing.
    let overlaps = vec![
        vec![true, true, false],
        vec![true, true, false],
        vec![false, false, true],
    ];
    let low = nms(&vec![900, 200, 250], &overlaps);
    let positions: Vec<usize> = low.iter().map(|s| s.position).collect();
    assert_eq!(positions, vec![0, 2]);
    assert_eq!(low[0].score, 900);

    // The boxes that clear 300 alone, and those that clear 225 under new positions.
    let high = nms(&vec![900], &vec![vec![true]]);
    assert_eq!((high.len(), high[0].position), (1, 0));
    let middle = nms(&vec![900, 250], &vec![vec![true, false], vec![false, true]]);
    let back = [0, 2];
    let positions: Vec<usize> = middle.iter().map(|s| back[s.position]).collect();
    assert_eq!(positions, vec![0, 2]);
}

#[test]
fn anchors_walk_the_three_grids() {
    let first = anchor_cell(0).unwrap();
    assert_eq!((first.stride, first.gx, first.gy), (8, 0, 0));
    let row = anchor_cell(53).unwrap();
    assert_eq!((row.stride, row.gx, row.gy), (8, 1, 1));
    let second = anchor_cell(52 * 52).unwrap();
    assert_eq!((second.stride, second.gx, second.gy), (16, 0, 0));
    let third = anchor_cell(52 * 52 + 26 * 26).unwrap();
    assert_eq!((third.stride, third.gx, third.gy), (32, 0, 0));
    assert!(anchor_cell(52 * 52 + 26 * 26 + 13 * 13).is_none());
}

#[test]
fn frames_are_split_into_planes() {
    assert_eq!(to_planes(&vec![1, 2, 3, 4, 5, 6], 2), vec![1, 4, 2, 5, 3, 6]);
}

#[test]
fn dimensions_of_a_probe_report() {
    assert_eq!(parse_dimensions(" 1920x1080\n"), Some((1920, 1080)));
    assert_eq!(parse_dimensions("1920 x 1080"), Some((1920, 1080)));
    assert_eq!(parse_dimensions("1920"), None);
    assert_eq!(parse_dimensions("ax1080"), None);
    assert_eq!(parse_dimensions("4294967296x1"), None);
}

#[test]
fn totals_of_a_track() {
    let t = track_totals(&vec![0, 2, 1, 0]);
    assert_eq!((t.total, t.peak, t.occupied), (3, 2, 2));
}

#[test]
fn the_first_working_encoder_is_taken() {
    let names = |works: &[bool]| video_encoder(&works.to_vec()).codec[1].clone();
    assert_eq!(names(&[false, true, true, false]), "h264_qsv");
    assert_eq!(names(&[false, false, false, false]), "libx264");
    assert_eq!(names(&[true]), "h264_nvenc");
}

#[test]
fn an_export_is_planned_in_full() {
    let cuts = vec![
        Cut {
            src: 0,
            start_ms: 1500,
            end_ms: 4000,
        },
        Cut {
            src: 1,
            start_ms: 0,
            end_ms: 20,
        },
    ];
    let filter = "[0:v]trim=start=1.5:end=4,setpts=PTS-STARTPTS[v0];\
[0:a]atrim=start=1.5:end=4,asetpts=PTS-STARTPTS[a0];\
[1:v]trim=start=0:end=0.02,setpts=PTS-STARTPTS[v1];\
[1:a]atrim=start=0:end=0.02,asetpts=PTS-STARTPTS[a1];\
[v0][a0][v1][a1]concat=n=2:v=1:a=1[v][a]";
    assert_eq!(build_filter(&cuts, &software()), filter);
    let srcs = texts(&["/a.mp4", "/b.mp4"]);
    let job = plan_export(&srcs, "/out.mp4", &cuts, &software()).unwrap();
    assert_eq!(job.total_ms, 2520);
    let mut want = texts(&["-v", "error", "-nostats", "-y", "-i", "/a.mp4", "-i", "/b.mp4"]);
    want.extend(texts(&["-filter_complex", filter, "-map", "[v]", "-map", "[a]"]));
    want.extend(texts(&["-c:v", "libx264", "-preset", "veryfast", "-c:a", "aac"]));
    want.extend(texts(&["-progress", "pipe:1", "/out.mp4"]));
    assert_eq!(job.args, want);

    let vaapi = &hw_encoders()[2];
    assert!(build_filter(&cuts, vaapi).ends_with(";[v]format=nv12,hwupload[venc]"));

    let missing = plan_export(&texts(&["/a.mp4"]), "/out.mp4", &cuts, &software());
    assert_eq!(missing.unwrap_err(), "export cut references a missing source");
    let reversed = vec![Cut {
        src: 0,
        start_ms: 9,
        end_ms: 3,
    }];
    let empty = plan_export(&srcs, "/out.mp4", &reversed, &software());
    assert_eq!(empty.unwrap_err(), "selected rallies have no duration");
}

#[test]
fn an_encoder_is_tried_on_nothing() {
    let args = plan_trial(&hw_encoders()[0]);
    assert!(args.contains(&"h264_nvenc".to_string()));
    assert_eq!(args.last().map(|s| s.as_str()), Some("-"));
}

#[test]
fn seconds_without_trailing_zeros() {
    assert_eq!(seconds_of(0), "0");
    assert_eq!(seconds_of(1000), "1");
    assert_eq!(seconds_of(1250), "1.25");
    assert_eq!(seconds_of(1005), "1.005");
    assert_eq!(seconds_of(-250), "-0.25");
}

#[test]
fn progress_lines() {
    assert!(parse_progress("frame=12", 1000).is_none());
    assert!(parse_progress("out_time_us=abc", 1000).is_none());
    assert!(parse_progress("out_time_us=500000", 1000).is_some());
}

#[test]
fn motion_is_summed_between_frames() {
    let mut bytes = vec![10u8; MOTION_FRAME];
    bytes.extend(vec![12u8; MOTION_FRAME]);
    bytes.extend(vec![9u8; MOTION_FRAME]);
    bytes.push(0);
    let sums = motion_sums(&bytes).unwrap();
    assert_eq!(sums, vec![2 * MOTION_FRAME as u64, 3 * MOTION_FRAME as u64]);
    assert_eq!(
        motion_sums(&vec![0u8; 2 * MOTION_FRAME - 1]).unwrap_err(),
        "video yielded too few frames for motion analysis"
    );
}

#[test]
fn harness_arguments() {
    let o = Options::parse(&texts(&["--db", "/x.db", "--library", "shared", "--sweep", "day1"]))
        .unwrap();
    assert_eq!(o.db.as_deref(), Some("/x.db"));
    assert_eq!(o.library.as_deref(), Some("shared"));
    assert_eq!(o.filter.as_deref(), Some("day1"));
    assert!(o.sweep && !o.trace && !o.help);
    let err = |words: &[&str]| Options::parse(&texts(words)).unwrap_err();
    assert_eq!(err(&["--db"]), "--db needs a path");
    assert_eq!(err(&["--library"]), "--library needs local|shared");
    assert_eq!(
        err(&["--library", "mine"]),
        "--library must be local or shared, not mine"
    );
    assert_eq!(err(&["--nope"]), "unknown flag --nope");
    assert_eq!(err(&["a", "b"]), "give at most one recording filter");
}

#[test]
fn dump_arguments() {
    let o = DumpOptions::parse(&texts(&["--file", "/v.mp4", "--limit", "20"])).unwrap();
    assert_eq!(o.file.as_deref(), Some("/v.mp4"));
    assert_eq!(o.limit, Some(20));
    let all = DumpOptions::parse(&texts(&["--limit", "0"])).unwrap();
    assert_eq!(all.limit, None);
    let err = |words: &[&str]| DumpOptions::parse(&texts(words)).unwrap_err();
    assert_eq!(err(&["--file"]), "--file needs a path");
    assert_eq!(err(&["--limit"]), "--limit needs a number");
    assert_eq!(err(&["--limit", "x"]), "--limit not a number: x");
}

#[test]
fn data_folders() {
    let home = Some("/home/ann".to_string());
    let xdg = Some("/data".to_string());
    assert_eq!(app_data_root(&xdg, &home).unwrap(), "/data");
    assert_eq!(app_data_root(&None, &home).unwrap(), "/home/ann/.local/share");
    assert_eq!(
        app_data_root(&None, &None).unwrap_err(),
        "cannot resolve the app-data dir; pass --db PATH"
    );
    assert!(default_db_path("/data").starts_with("/data/"));
    assert!(default_db_path("/data").ends_with("/voloph.db"));
}

fn corpus(rel: &str, state: &str, hand_corrected: bool) -> CorpusRecording {
    CorpusRecording {
        abs_path: format!("/lib/{rel}"),
        rel_path: rel.to_string(),
        duration_ms: Some(60_000),
        segment_state: state.to_string(),
        gold: vec![],
        hand_corrected,
    }
}

#[test]
fn only_gold_is_scored() {
    assert_eq!(standing(&corpus("a.mp4", "unknown", true)), Standing::NotSegmented);
    assert_eq!(standing(&corpus("a.mp4", "ready", false)), Standing::NotGold);
    assert_eq!(standing(&corpus("a.mp4", "ready", true)), Standing::Gold);
    assert_eq!(
        skip_line(&corpus("a.mp4", "failed", true)).as_deref(),
        Some("SKIP  a.mp4  (not segmented: failed)")
    );
    assert!(skip_line(&corpus("a.mp4", "ready", true)).is_none());
    assert_eq!(scored_duration(Some(5), 9), 5);
    assert_eq!(scored_duration(Some(0), 9), 9);
    assert_eq!(scored_duration(None, 9), 9);
}

#[test]
fn the_corpus_is_filtered() {
    let all = vec![corpus("day1/a.mp4", "ready", true), corpus("day2/b.mp4", "ready", true)];
    let one = select_corpus(&all, &Some("day2".to_string()), "local").unwrap();
    assert_eq!(one.len(), 1);
    assert_eq!(one[0].rel_path, "day2/b.mp4");
    assert_eq!(select_corpus(&all, &None, "local").unwrap().len(), 2);
    assert_eq!(
        select_corpus(&all, &Some("day3".to_string()), "local").unwrap_err(),
        "no recording in the 'local' library matched \"day3\""
    );
}

#[test]
fn totals_of_a_run() {
    let gold = vec![Interval {
        start_ms: 0,
        end_ms: 1000,
    }];
    let mut t = Tally::new();
    t.add_score(&voloph::eval::score(&vec![], &gold, 1000), 1000);
    t.add_score(&voloph::eval::score(&gold, &vec![], 2000), 2000);
    assert_eq!((t.scored, t.misses, t.false_positives, t.total_ms), (2, 1, 1, 3000));
    assert_eq!(
        t.false_positive_rate(),
        Rate {
            count: 1,
            span_ms: 3000
        }
    );
}

#[test]
fn a_configuration_is_scored_over_all_recordings() {
    let at = |start_ms: i64, end_ms: i64| Interval { start_ms, end_ms };
    let run = |draft: Vec<Interval>, gold: Vec<Interval>, duration_ms: i64| Rerun {
        draft,
        gold,
        duration_ms,
    };
    let t = score_config(&vec![
        run(vec![at(100, 1200)], vec![at(0, 1000)], 5000),
        run(vec![at(0, 500)], vec![at(1000, 2000)], 7000),
    ])
    .unwrap();
    assert_eq!((t.scored, t.misses, t.false_positives), (2, 1, 1));
    assert_eq!((t.draft_count, t.total_ms), (2, 12_000));
    assert_eq!(t.boundary_errors_ms, vec![100, 200]);
    assert!(score_config(&vec![run(vec![], vec![at(i64::MIN, 0)], 1)]).is_none());
    let mut full = Tally::new();
    assert!(full.add_run(&vec![], &vec![], i64::MAX).is_some());
    assert!(full.add_run(&vec![], &vec![at(0, 1)], 1).is_none());
    assert_eq!((full.scored, full.misses, full.total_ms), (1, 0, i64::MAX));
}

#[test]
fn the_sweep_covers_its_grid() {
    let grid = sweep_grid();
    assert_eq!(grid.len(), 384);
    assert_eq!((grid[0].static_frac, grid[0].density), (20, 300));
    assert_eq!((grid[383].static_frac, grid[383].density), (50, 600));
    let row = |misses: usize, count: usize, line: &str| SweepRow {
        misses,
        rate: Rate {
            count,
            span_ms: 1000,
        },
        line: line.to_string(),
    };
    let sorted = sort_sweep(&vec![row(1, 0, "c"), row(0, 5, "b"), row(0, 2, "a")]);
    let lines: Vec<&str> = sorted.iter().map(|r| r.line.as_str()).collect();
    assert_eq!(lines, vec!["a", "b", "c"]);
}

#[test]
fn misses_are_traced_to_a_stage() {
    let g = Interval {
        start_ms: 0,
        end_ms: 4000,
    };
    let sample = |live: u32, fired: bool| FiringSample { live, fired };
    let none = vec![sample(0, false); 12];
    let t = trace_miss(&g, &none, 3, 2000, 500);
    assert_eq!((t.samples, t.any, t.two, t.fired), (12, 0, 0, 0));
    assert_eq!(t.lost_at, LostAt::Filters);
    let firing = vec![sample(2, true); 12];
    assert_eq!(trace_miss(&g, &firing, 3, 2000, 500).lost_at, LostAt::Coverage);
    let two = vec![sample(2, false); 12];
    assert_eq!(trace_miss(&g, &two, 3, 2000, 500).lost_at, LostAt::Firing);
    let mut rare = two.clone();
    for i in [0, 5, 11] {
        rare[i] = sample(2, true);
    }
    let t = trace_miss(&g, &rare, 3, 2000, 500);
    assert_eq!((t.peak.fired, t.peak.samples), (2, 6));
    assert_eq!(t.lost_at, LostAt::Density);
    assert_eq!(
        verdict_text(LostAt::Density),
        "density: fires, but never densely enough"
    );
    let gold = vec![
        g,
        Interval {
            start_ms: 9000,
            end_ms: 9500,
        },
    ];
    let missed = missed_rallies(&vec![g], &gold);
    assert_eq!(missed, vec![gold[1]]);
}

#[test]
fn player_words() {
    assert_eq!(end_event(None), EndEvent::Ended);
    assert_eq!(end_event(Some(0)), EndEvent::Ended);
    assert_eq!(end_event(Some(4)), EndEvent::Failed);
    assert_eq!(end_event(Some(2)), EndEvent::Quiet);
    assert_eq!(switch_word(true), "yes");
    assert_eq!(switch_word(false), "no");
    assert_eq!(frame_step_command(true), "frame-step");
    assert_eq!(frame_step_command(false), "frame-back-step");
    assert_eq!(surface_size(0, -3), (1, 1));
    assert_eq!(surface_size(640, 360), (640, 360));
}
