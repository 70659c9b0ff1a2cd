use timeline_core::edit_plan::{
    build_plan, EditPlan, PlanError, Project, ProjectAsset, ProjectClip, ProjectTrack, SeqClip,
};

fn asset(key: &str, src: &str) -> (String, ProjectAsset) {
    (
        key.to_string(),
        ProjectAsset {
            id: key.to_string(),
            kind: "video".to_string(),
            name: key.to_string(),
            src: src.to_string(),
        },
    )
}

fn clip(key: &str, asset_id: &str, start: u64, end: u64, in_ms: u64, out_ms: u64) -> (String, ProjectClip) {
    (
        key.to_string(),
        ProjectClip {
            id: key.to_string(),
            asset_id: asset_id.to_string(),
            track_id: "t".to_string(),
            start_ms: start,
            end_ms: end,
            in_ms,
            out_ms,
        },
    )
}

fn track(key: &str, role: &str, order: &[&str]) -> (String, ProjectTrack) {
    (
        key.to_string(),
        ProjectTrack {
            id: key.to_string(),
            role: role.to_string(),
            clip_order: order.iter().map(|s| s.to_string()).collect(),
        },
    )
}

fn project(clips: Vec<(String, ProjectClip)>, tracks: Vec<(String, ProjectTrack)>) -> Project {
    Project {
        id: "p1".to_string(),
        assets: vec![asset("a1", "file:///media/a.mov"), asset("a2", "/media/b.mp4")],
        clips,
        tracks,
    }
}

fn windows(plan: &EditPlan) -> Vec<(u64, u64)> {
    plan.main_track.iter().map(|c: &SeqClip| (c.start_ms, c.end_ms)).collect()
}

#[test]
fn three_adjacent_clips_build_in_order() {
    let p = project(
        vec![
            clip("c1", "a1", 0, 1000, 0, 1000),
            clip("c2", "a2", 1000, 2500, 500, 2000),
            clip("c3", "a1", 2500, 4000, 0, 1500),
        ],
        vec![track("main", "main", &["c1", "c2", "c3"])],
    );
    let plan = build_plan(&p).ok().expect("plan builds");
    assert_eq!(plan.id, "p1");
    assert_eq!(windows(&plan), vec![(0, 1000), (1000, 2500), (2500, 4000)]);
    assert!(plan.overlay_track.is_empty());
    assert!(plan.is_well_formed());
}

#[test]
fn main_track_is_ordered_by_start() {
    let p = project(
        vec![
            clip("c1", "a1", 2500, 4000, 0, 1500),
            clip("c2", "a2", 0, 1000, 0, 1000),
            clip("c3", "a1", 1000, 2500, 0, 1500),
        ],
        vec![track("main", "main", &["c1", "c2", "c3"])],
    );
    let plan = build_plan(&p).ok().expect("plan builds");
    assert_eq!(windows(&plan), vec![(0, 1000), (1000, 2500), (2500, 4000)]);
}

#[test]
fn overlapping_main_clips_are_rejected() {
    let p = project(
        vec![clip("c1", "a1", 0, 1000, 0, 1000), clip("c2", "a2", 500, 1500, 0, 1000)],
        vec![track("main", "main", &["c1", "c2"])],
    );
    match build_plan(&p) {
        Err(PlanError::OverlappingClips) => {}
        _ => panic!("expected an overlap error"),
    }
}

#[test]
fn overlapping_overlay_clips_are_accepted() {
    let p = project(
        vec![
            clip("c1", "a1", 0, 1000, 0, 1000),
            clip("o1", "a2", 500, 1500, 0, 1000),
            clip("o2", "a2", 0, 800, 0, 800),
        ],
        vec![track("main", "main", &["c1"]), track("ov", "overlay", &["o1", "o2"])],
    );
    let plan = build_plan(&p).ok().expect("plan builds");
    let overlay: Vec<(u64, u64)> = plan.overlay_track.iter().map(|c| (c.start_ms, c.end_ms)).collect();
    assert_eq!(overlay, vec![(500, 1500), (0, 800)]);
    assert_eq!(plan.main_track.len(), 1);
}

#[test]
fn empty_trim_window_names_the_clip() {
    let p = project(
        vec![clip("c1", "a1", 0, 1000, 0, 1000), clip("bad", "a2", 1000, 2000, 700, 700)],
        vec![track("main", "main", &["c1", "bad"])],
    );
    match build_plan(&p) {
        Err(e) => {
            match &e {
                PlanError::InvalidTrimWindow { clip_id } => assert_eq!(clip_id, "bad"),
                _ => panic!("expected a trim-window error"),
            }
            assert_eq!(e.message(), "clip bad out <= in");
        }
        Ok(_) => panic!("expected a failure"),
    }
}

#[test]
fn reversed_trim_window_on_overlay_fails_too() {
    let p = project(
        vec![clip("c1", "a1", 0, 1000, 0, 1000), clip("o1", "a2", 0, 1000, 900, 100)],
        vec![track("ov", "overlay", &["o1"]), track("main", "main", &["c1"])],
    );
    assert!(matches!(build_plan(&p), Err(PlanError::InvalidTrimWindow { .. })));
}

#[test]
fn file_scheme_is_stripped_and_paths_kept() {
    let p = project(
        vec![clip("c1", "a1", 0, 1000, 0, 1000), clip("c2", "a2", 1000, 2000, 0, 1000)],
        vec![track("main", "main", &["c1", "c2"])],
    );
    let plan = build_plan(&p).ok().expect("plan builds");
    assert_eq!(plan.main_track[0].src_path, "/media/a.mov");
    assert_eq!(plan.main_track[1].src_path, "/media/b.mp4");
}

#[test]
fn missing_clips_and_assets_are_passed_over() {
    let p = project(
        vec![clip("c1", "a1", 0, 1000, 0, 1000), clip("c2", "nope", 1000, 2000, 0, 500)],
        vec![track("main", "main", &["c1", "ghost", "c2"])],
    );
    let plan = build_plan(&p).ok().expect("plan builds");
    assert_eq!(windows(&plan), vec![(0, 1000)]);
}

#[test]
fn empty_trim_window_fails_even_without_asset() {
    let p = project(
        vec![clip("c1", "a1", 0, 1000, 0, 1000), clip("c2", "nope", 1000, 2000, 5, 1)],
        vec![track("main", "main", &["c1", "c2"])],
    );
    match build_plan(&p) {
        Err(PlanError::InvalidTrimWindow { clip_id }) => assert_eq!(clip_id, "c2"),
        _ => panic!("expected a trim-window error"),
    }
}

#[test]
fn empty_placement_is_rejected() {
    let p = project(
        vec![clip("c1", "a1", 1000, 500, 0, 1000)],
        vec![track("main", "main", &["c1"])],
    );
    match build_plan(&p) {
        Err(e) => {
            assert!(matches!(&e, PlanError::InvalidPlacement { clip_id } if clip_id == "c1"));
            assert_eq!(e.message(), "clip c1 end <= start");
        }
        Ok(_) => panic!("expected a placement error"),
    }
}

#[test]
fn equal_starts_on_overlay_keep_discovery_order() {
    let p = project(
        vec![clip("z1", "a1", 100, 150, 0, 10), clip("z2", "a2", 100, 200, 0, 20)],
        vec![track("ov", "overlay", &["z1", "z2"])],
    );
    let plan = build_plan(&p).ok().expect("plan builds");
    assert_eq!(plan.overlay_track[0].out_ms, 10);
    assert_eq!(plan.overlay_track[1].out_ms, 20);
}

#[test]
fn top_visible_clip_finds_covering_clip() {
    let p = project(
        vec![clip("c1", "a1", 0, 1000, 0, 1000), clip("c2", "a2", 1000, 2500, 0, 1500)],
        vec![track("main", "main", &["c1", "c2"])],
    );
    let plan = build_plan(&p).ok().expect("plan builds");
    assert_eq!(plan.top_visible_clip(1000).map(|c| c.start_ms), Some(1000));
    assert_eq!(plan.top_visible_clip(999).map(|c| c.start_ms), Some(0));
    assert!(plan.top_visible_clip(2500).is_none());
}

#[test]
fn plan_error_messages() {
    assert_eq!(PlanError::OverlappingClips.message(), "overlapping clips on main track");
    let e = PlanError::InvalidDescription { message: "eof".to_string() };
    assert_eq!(e.message(), "invalid project description: eof");
}

#[test]
fn overlap_between_clips_listed_apart_is_rejected() {
    let p = project(
        vec![
            clip("c1", "a1", 2000, 3000, 0, 1000),
            clip("c2", "a2", 0, 1000, 0, 1000),
            clip("c3", "a1", 2500, 3500, 0, 1000),
        ],
        vec![track("main", "main", &["c1", "c2"]), track("more", "main", &["c3"])],
    );
    assert!(matches!(build_plan(&p), Err(PlanError::OverlappingClips)));
}
