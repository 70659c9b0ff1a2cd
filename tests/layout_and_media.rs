use timeline_core::cache::{join, CacheDirs};
use timeline_core::edit_plan::EditPlan;
use timeline_core::ingest::{file_type_for_extension, generate_asset_id, get_file_type_from_path};
use timeline_core::media::{media_meta_from_streams, poster_frame_command, ProbeStream};

fn plan(id: &str) -> EditPlan {
    EditPlan { id: id.to_string(), main_track: vec![], overlay_track: vec![] }
}

#[test]
fn cache_layout_under_base() {
    let dirs = CacheDirs::new(&"/app/data".to_string());
    assert_eq!(dirs.base, "/app/data/cache");
    assert_eq!(dirs.previews, "/app/data/cache/previews");
    assert_eq!(dirs.segments, "/app/data/cache/segments");
    assert_eq!(dirs.renders, "/app/data/projects");
    assert_eq!(dirs.captures, "/app/data/cache/captures");
}

#[test]
fn derived_paths() {
    let dirs = CacheDirs::new(&"/d/".to_string());
    let p = plan("proj");
    assert_eq!(dirs.segment_path(0), "/d/cache/segments/segment_0000.mp4");
    assert_eq!(dirs.segment_path(12345), "/d/cache/segments/segment_12345.mp4");
    assert_eq!(dirs.concat_list_path(&p), "/d/cache/segments/proj_concat.txt");
    assert_eq!(dirs.preview_file(&p, 1500), "/d/cache/previews/proj_1500.jpg");
    assert_eq!(dirs.render_output_path(&p, "mov", 42), "/d/projects/proj_42.mov");
    assert_eq!(dirs.capture_output_path("mp4", 7, 3), "/d/cache/captures/capture_3_7.mp4");
    assert_ne!(dirs.capture_output_path("mp4", 7, 0), dirs.capture_output_path("mp4", 7, 1));
}

#[test]
fn join_adds_one_separator() {
    assert_eq!(join(&"a".to_string(), &"b".to_string()), "a/b");
    assert_eq!(join(&"a/".to_string(), &"b".to_string()), "a/b");
    assert_eq!(join(&"".to_string(), &"b".to_string()), "b");
    assert_eq!(join(&"a".to_string(), &"/abs/b".to_string()), "/abs/b");
}

fn stream(kind: &str, codec: &str, w: Option<u32>, dur: Option<u64>) -> ProbeStream {
    ProbeStream {
        codec_type: Some(kind.to_string()),
        codec_name: Some(codec.to_string()),
        width: w,
        height: w.map(|x| x / 2),
        duration_ms: dur,
        rotation: None,
    }
}

#[test]
fn streams_fill_metadata() {
    let streams = vec![
        stream("video", "h264", Some(1920), Some(12500)),
        stream("audio", "aac", None, Some(12000)),
        stream("data", "bin", None, None),
    ];
    let m = media_meta_from_streams(&streams);
    assert_eq!(m.duration_ms, 12500);
    assert_eq!(m.width, Some(1920));
    assert_eq!(m.height, Some(960));
    assert_eq!(m.has_audio, Some(true));
    assert_eq!(m.codec_video.as_deref(), Some("h264"));
    assert_eq!(m.codec_audio.as_deref(), Some("aac"));
}

#[test]
fn no_streams_give_empty_metadata() {
    let m = media_meta_from_streams(&vec![]);
    assert_eq!(m.duration_ms, 0);
    assert_eq!(m.has_audio, None);
    assert!(m.codec_video.is_none());
}

#[test]
fn poster_frame_arguments() {
    let args = poster_frame_command(&"/m/a.mov".to_string(), 2050, &"/p/x.jpg".to_string());
    assert_eq!(args, vec!["-ss", "2.050", "-i", "/m/a.mov", "-frames:v", "1", "-q:v", "5", "/p/x.jpg"]);
}

#[test]
fn file_types_by_extension() {
    assert_eq!(get_file_type_from_path("/a/b/clip.MOV"), Ok("video".to_string()));
    assert_eq!(get_file_type_from_path("song.flac"), Ok("audio".to_string()));
    assert_eq!(get_file_type_from_path("x/y.Jpeg"), Ok("image".to_string()));
    assert_eq!(get_file_type_from_path("notes.TXT"), Err("Unsupported file type: txt".to_string()));
    assert_eq!(get_file_type_from_path("README"), Err("Unsupported file type: ".to_string()));
    assert_eq!(file_type_for_extension(&"webm".to_string()), Ok("video".to_string()));
}

#[test]
fn asset_ids_carry_the_time() {
    assert_eq!(generate_asset_id(1700000000123), "asset_1700000000123");
    assert_eq!(generate_asset_id(0), "asset_0");
}
