use vstd::prelude::*;
use vstd::string::*;

use crate::export::seconds_string;
use crate::text::{copy_string, push_lit, push_owned, seconds_text, strings_view};

verus! {

/// What a media file holds, as far as the pipeline needs it.
pub struct MediaMeta {
    pub duration_ms: u64,
    pub width: Option<u32>,
    pub height: Option<u32>,
    pub has_audio: Option<bool>,
    pub codec_video: Option<String>,
    pub codec_audio: Option<String>,
    pub rotation_deg: Option<i32>,
}

/// A preview frame: where it was written and the time it shows.
pub struct PreviewResult {
    pub url: String,
    pub ts: u64,
}

/// One stream that a media probe reported. `duration_ms` is the stream's
/// duration, if it was reported and could be read.
pub struct ProbeStream {
    pub codec_type: Option<String>,
    pub codec_name: Option<String>,
    pub width: Option<u32>,
    pub height: Option<u32>,
    pub duration_ms: Option<u64>,
    pub rotation: Option<i32>,
}

/// The value of an optional string.
pub open spec fn opt_view(o: Option<String>) -> Option<Seq<char>> {
    match o {
        Some(s) => Some(s@),
        None => None,
    }
}

/// The mathematical value of a [`MediaMeta`].
pub struct MetaModel {
    pub duration_ms: u64,
    pub width: Option<u32>,
    pub height: Option<u32>,
    pub has_audio: Option<bool>,
    pub codec_video: Option<Seq<char>>,
    pub codec_audio: Option<Seq<char>>,
    pub rotation_deg: Option<i32>,
}

impl View for MediaMeta {
    type V = MetaModel;

    open spec fn view(&self) -> MetaModel {
        MetaModel {
            duration_ms: self.duration_ms,
            width: self.width,
            height: self.height,
            has_audio: self.has_audio,
            codec_video: opt_view(self.codec_video),
            codec_audio: opt_view(self.codec_audio),
            rotation_deg: self.rotation_deg,
        }
    }
}

/// Metadata before any stream is seen.
pub open spec fn empty_meta() -> MetaModel {
    MetaModel {
        duration_ms: 0,
        width: None,
        height: None,
        has_audio: None,
        codec_video: None,
        codec_audio: None,
        rotation_deg: None,
    }
}

/// Metadata after one more stream: a video stream sets the picture
/// fields (and the duration, when it has one), an audio stream the audio
/// fields; other streams change nothing.
pub open spec fn meta_step(m: MetaModel, s: ProbeStream) -> MetaModel {
    if opt_view(s.codec_type) == Some("video"@) {
        MetaModel {
            width: s.width,
            height: s.height,
            codec_video: opt_view(s.codec_name),
            rotation_deg: s.rotation,
            duration_ms: match s.duration_ms { Some(d) => d, None => m.duration_ms },
            ..m
        }
    } else if opt_view(s.codec_type) == Some("audio"@) {
        MetaModel { has_audio: Some(true), codec_audio: opt_view(s.codec_name), ..m }
    } else {
        m
    }
}

/// Metadata from the streams in the order reported; a later stream of a
/// kind overrides an earlier one.
pub open spec fn meta_of(ss: Seq<ProbeStream>) -> MetaModel
    decreases ss.len(),
{
    if ss.len() == 0 {
        empty_meta()
    } else {
        meta_step(meta_of(ss.drop_last()), ss.last())
    }
}

fn copy_opt(o: &Option<String>) -> (r: Option<String>)
    ensures
        opt_view(r) == opt_view(*o),
{
    match o {
        Some(s) => Some(copy_string(s)),
        None => None,
    }
}

fn opt_is(o: &Option<String>, lit: &str) -> (r: bool)
    ensures
        r == (opt_view(*o) == Some(lit@)),
{
    match o {
        Some(s) => *s == String::from_str(lit),
        None => false,
    }
}

/// The metadata that the probed streams describe.
pub fn media_meta_from_streams(streams: &Vec<ProbeStream>) -> (r: MediaMeta)
    ensures
        r@ == meta_of(streams@),
{
    let mut m = MediaMeta {
        duration_ms: 0,
        width: None,
        height: None,
        has_audio: None,
        codec_video: None,
        codec_audio: None,
        rotation_deg: None,
    };
    let mut i: usize = 0;
    assert(streams@.subrange(0, 0) =~= Seq::<ProbeStream>::empty());
    while i < streams.len()
        invariant
            i <= streams@.len(),
            m@ == meta_of(streams@.subrange(0, i as int)),
        decreases streams.len() - i,
    {
        let s = &streams[i];
        assert(streams@.subrange(0, i + 1).drop_last() =~= streams@.subrange(0, i as int));
        assert(streams@.subrange(0, i + 1).last() == *s);
        if opt_is(&s.codec_type, "video") {
            m.width = s.width;
            m.height = s.height;
            m.codec_video = copy_opt(&s.codec_name);
            m.rotation_deg = s.rotation;
            match s.duration_ms {
                Some(d) => { m.duration_ms = d; },
                None => {},
            }
        } else if opt_is(&s.codec_type, "audio") {
            m.has_audio = Some(true);
            m.codec_audio = copy_opt(&s.codec_name);
        }
        i = i + 1;
    }
    assert(streams@.subrange(0, streams@.len() as int) =~= streams@);
    m
}

/// The tool arguments that write the frame of `src` at `at_ms` to `dest`
/// as a picture.
pub open spec fn poster_frame_args(src: Seq<char>, at_ms: nat, dest: Seq<char>) -> Seq<Seq<char>> {
    seq!["-ss"@, seconds_text(at_ms), "-i"@, src, "-frames:v"@, "1"@, "-q:v"@, "5"@, dest]
}

/// The tool arguments that write the frame of `src` at `at_ms` to `dest`.
pub fn poster_frame_command(src: &String, at_ms: u64, dest: &String) -> (r: Vec<String>)
    ensures
        strings_view(r@) == poster_frame_args(src@, at_ms as nat, dest@),
{
    let mut v: Vec<String> = Vec::new();
    push_lit(&mut v, "-ss");
    push_owned(&mut v, seconds_string(at_ms));
    push_lit(&mut v, "-i");
    push_owned(&mut v, copy_string(src));
    push_lit(&mut v, "-frames:v");
    push_lit(&mut v, "1");
    push_lit(&mut v, "-q:v");
    push_lit(&mut v, "5");
    push_owned(&mut v, copy_string(dest));
    assert(strings_view(v@) =~= poster_frame_args(src@, at_ms as nat, dest@));
    v
}

} // verus!
