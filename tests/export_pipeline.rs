use timeline_core::cache::CacheDirs;
use timeline_core::edit_plan::{EditPlan, SeqClip};
use timeline_core::export::{
    manifest_contents, planned_duration_ms, seconds_string, ExportAction, ExportError, ExportEvent,
    ExportJob, ExportResult, ExportSettings, ExportStage, ToolStep,
};

fn clip(src: &str, start: u64, end: u64, in_ms: u64, out_ms: u64) -> SeqClip {
    SeqClip { src_path: src.to_string(), in_ms, out_ms, start_ms: start, end_ms: end }
}

fn three_clip_plan() -> EditPlan {
    EditPlan {
        id: "p1".to_string(),
        main_track: vec![
            clip("/m/a.mov", 0, 1000, 0, 1000),
            clip("/m/b.mov", 1000, 2500, 200, 1700),
            clip("/m/c.mov", 2500, 4000, 3000, 4500),
        ],
        overlay_track: vec![],
    }
}

fn settings(format: &str) -> ExportSettings {
    ExportSettings { format: format.to_string(), width: None, height: None, fps: None, bitrate: None }
}

fn ok() -> ExportEvent {
    ExportEvent::ToolExited { success: true, diagnostics: String::new() }
}

fn failed(text: &str) -> ExportEvent {
    ExportEvent::ToolExited { success: false, diagnostics: text.to_string() }
}

fn args_of(a: &ExportAction) -> Vec<String> {
    match a {
        ExportAction::RunTool { args, .. } => args.clone(),
        _ => panic!("expected a tool run"),
    }
}

fn new_job(plan: &EditPlan, format: &str) -> ExportJob {
    let dirs = CacheDirs::new(&"/data".to_string());
    ExportJob::new(plan, &settings(format), &dirs, 1700000000)
}

#[test]
fn three_clips_export_to_mp4() {
    let plan = three_clip_plan();
    let mut job = new_job(&plan, "mp4");
    let mut action = job.current_action();
    let mut segments = Vec::new();
    for i in 0..3 {
        match &action {
            ExportAction::RunTool { progress: Some(p), args } => {
                assert_eq!(p.phase, "segment");
                assert_eq!(p.current, i as u32);
                assert_eq!(p.total, 5);
                assert_eq!(p.message, format!("Trimming clip {}", i));
                assert_eq!(args[7], "copy");
                segments.push(args.last().unwrap().clone());
            }
            _ => panic!("expected a trim"),
        }
        action = job.step(ok());
    }
    assert_eq!(
        segments,
        vec![
            "/data/cache/segments/segment_0000.mp4",
            "/data/cache/segments/segment_0001.mp4",
            "/data/cache/segments/segment_0002.mp4"
        ]
    );
    match &action {
        ExportAction::WriteManifest { notice, path, contents } => {
            assert_eq!(notice.phase, "concat");
            assert_eq!(notice.current, 3);
            assert_eq!(path, "/data/cache/segments/p1_concat.txt");
            let expected: String = segments.iter().map(|s| format!("file '{}'\n", s)).collect();
            assert_eq!(contents, &expected);
        }
        _ => panic!("expected the manifest"),
    }
    action = job.step(ExportEvent::ManifestWritten);
    match &action {
        ExportAction::RunTool { progress: Some(p), args } => {
            assert_eq!(p.phase, "finalize");
            assert_eq!(p.current, 4);
            assert_eq!(
                args,
                &vec![
                    "-f", "concat", "-safe", "0", "-i", "/data/cache/segments/p1_concat.txt", "-c", "copy",
                    "/data/projects/p1_1700000000.mp4"
                ]
            );
        }
        _ => panic!("expected the finalize run"),
    }
    action = job.step(ok());
    match action {
        ExportAction::Complete { output_path, duration_ms } => {
            assert_eq!(output_path, "/data/projects/p1_1700000000.mp4");
            assert_eq!(duration_ms, 1000 + 1500 + 1500);
        }
        _ => panic!("expected completion"),
    }
    assert!(job.stage == ExportStage::Finished);
}

#[test]
fn trim_arguments_use_seconds() {
    let plan = three_clip_plan();
    let mut job = new_job(&plan, "mp4");
    job.step(ok());
    let a = job.current_action();
    assert_eq!(
        args_of(&a),
        vec![
            "-ss", "0.200", "-i", "/m/b.mov", "-t", "1.500", "-c", "copy",
            "/data/cache/segments/segment_0001.mp4"
        ]
    );
}

#[test]
fn failed_copy_falls_back_to_transcode_once() {
    let plan = three_clip_plan();
    let mut job = new_job(&plan, "mov");
    let fallback = job.step(failed("copy failed"));
    match &fallback {
        ExportAction::RunTool { progress: None, args } => {
            assert_eq!(
                args,
                &vec![
                    "-ss", "0.000", "-i", "/m/a.mov", "-t", "1.000", "-c:v", "libx264", "-preset", "veryfast",
                    "-crf", "23", "-c:a", "aac", "-b:a", "192k", "/data/cache/segments/segment_0000.mp4"
                ]
            );
        }
        _ => panic!("expected the fallback run without progress"),
    }
    let next = job.step(ok());
    assert_eq!(args_of(&next)[3], "/m/b.mov");
    job.step(ok());
    job.step(ok());
    job.step(ExportEvent::ManifestWritten);
    match job.step(ok()) {
        ExportAction::Complete { output_path, duration_ms } => {
            assert_eq!(output_path, "/data/projects/p1_1700000000.mov");
            assert_eq!(duration_ms, 4000);
            let result = ExportResult::from_output(&output_path, duration_ms, 123456);
            assert_eq!(result.path, "file:///data/projects/p1_1700000000.mov");
            assert_eq!(result.size_bytes, 123456);
            assert_eq!(result.duration_ms, 4000);
        }
        _ => panic!("expected completion"),
    }
}

#[test]
fn failed_fallback_ends_the_export() {
    let plan = three_clip_plan();
    let mut job = new_job(&plan, "mp4");
    job.step(ok());
    job.step(failed("first"));
    match job.step(failed("no codec")) {
        ExportAction::Fail { error } => {
            assert!(matches!(&error, ExportError::ToolFailed { diagnostics } if diagnostics == "no codec"));
            assert_eq!(error.message(), "ffmpeg error: no codec");
        }
        _ => panic!("expected failure"),
    }
    assert!(job.stage == ExportStage::Failed);
}

#[test]
fn finalize_falls_back_then_fails() {
    let plan = three_clip_plan();
    let mut job = new_job(&plan, "mp4");
    for _ in 0..3 {
        job.step(ok());
    }
    job.step(ExportEvent::ManifestWritten);
    let retry = job.step(failed("bad concat"));
    let args = args_of(&retry);
    assert_eq!(args[7], "libx264");
    match job.step(failed("still bad")) {
        ExportAction::Fail { error } => assert_eq!(error.message(), "ffmpeg error: still bad"),
        _ => panic!("expected failure"),
    }
}

#[test]
fn launch_failures_are_reported() {
    let plan = three_clip_plan();
    let mut job = new_job(&plan, "mp4");
    match job.step(ExportEvent::ToolNotStarted { message: "no such file".to_string() }) {
        ExportAction::Fail { error } => {
            assert!(matches!(&error, ExportError::LaunchFailed { step: ToolStep::Trim, .. }));
            assert_eq!(error.message(), "ffmpeg trim failed: no such file");
        }
        _ => panic!("expected failure"),
    }
}

#[test]
fn manifest_write_failure_is_reported() {
    let plan = three_clip_plan();
    let mut job = new_job(&plan, "mp4");
    for _ in 0..3 {
        job.step(ok());
    }
    match job.step(ExportEvent::ManifestNotWritten { message: "disk full".to_string() }) {
        ExportAction::Fail { error } => assert_eq!(error.message(), "disk full"),
        _ => panic!("expected failure"),
    }
}

#[test]
fn empty_plan_still_runs_concat_and_finalize() {
    let plan = EditPlan { id: "e".to_string(), main_track: vec![], overlay_track: vec![] };
    let mut job = new_job(&plan, "mp4");
    match job.current_action() {
        ExportAction::WriteManifest { notice, contents, .. } => {
            assert_eq!(contents, "");
            assert_eq!(notice.total, 2);
        }
        _ => panic!("expected the manifest"),
    }
    job.step(ExportEvent::ManifestWritten);
    job.step(failed("empty"));
    assert!(matches!(job.step(failed("empty")), ExportAction::Fail { .. }));
}

#[test]
fn duration_is_sum_of_trim_windows() {
    let plan = three_clip_plan();
    assert_eq!(planned_duration_ms(&plan.main_track), Some(4000));
    let huge = vec![clip("/x", 0, 1, 0, u64::MAX), clip("/y", 1, 2, 0, 1)];
    assert_eq!(planned_duration_ms(&huge), None);
    assert_eq!(planned_duration_ms(&vec![]), Some(0));
}

#[test]
fn manifest_lists_paths_in_given_order() {
    let paths = vec!["/s/b.mp4".to_string(), "/s/a.mp4".to_string()];
    assert_eq!(manifest_contents(&paths), "file '/s/b.mp4'\nfile '/s/a.mp4'\n");
}

#[test]
fn seconds_are_written_with_three_decimals() {
    assert_eq!(seconds_string(0), "0.000");
    assert_eq!(seconds_string(1500), "1.500");
    assert_eq!(seconds_string(61005), "61.005");
    assert_eq!(seconds_string(999), "0.999");
}

#[test]
fn scenario_three_clips_trim_windows_and_output() {
    let plan = EditPlan {
        id: "s".to_string(),
        main_track: vec![
            clip("/m/a.mov", 0, 1000, 0, 1000),
            clip("/m/a.mov", 1000, 2500, 1000, 2500),
            clip("/m/a.mov", 2500, 4000, 2500, 4000),
        ],
        overlay_track: vec![],
    };
    let dirs = CacheDirs::new(&"/data".to_string());
    let mut job = ExportJob::new(&plan, &settings("mp4"), &dirs, 9);
    let mut action = job.current_action();
    let expected = [("0.000", "1.000"), ("1.000", "1.500"), ("2.500", "1.500")];
    let mut segs = Vec::new();
    for (i, (ss, t)) in expected.iter().enumerate() {
        let args = args_of(&action);
        assert_eq!(args[1], *ss);
        assert_eq!(args[5], *t);
        assert_eq!(args[8], dirs.segment_path(i));
        segs.push(args[8].clone());
        action = job.step(ok());
    }
    match &action {
        ExportAction::WriteManifest { path, contents, .. } => {
            assert_eq!(path, &dirs.concat_list_path(&plan));
            assert_eq!(contents, &format!("file '{}'\nfile '{}'\nfile '{}'\n", segs[0], segs[1], segs[2]));
        }
        _ => panic!("expected the manifest"),
    }
    let fin = job.step(ExportEvent::ManifestWritten);
    let out = dirs.render_output_path(&plan, "mp4", 9);
    assert_eq!(args_of(&fin).last().unwrap(), &out);
    match job.step(ok()) {
        ExportAction::Complete { output_path, duration_ms } => {
            assert_eq!(duration_ms, 4000);
            let r = ExportResult::from_output(&output_path, duration_ms, 77);
            assert_eq!(r.path, format!("file://{}", out));
            assert!(r.path.ends_with(".mp4"));
        }
        _ => panic!("expected completion"),
    }
}
