use vstd::prelude::*;
use vstd::string::*;

use crate::cache::{join_path, segment_name, render_name, concat_list_name, CacheDirs};
use crate::edit_plan::{clip_views, ClipModel, EditPlan, SeqClip};
use crate::text::{copy_string, decimal, push_decimal, push_lit, push_owned, push_seconds, push_str, seconds_text};
pub use crate::text::strings_view;
use crate::edit_plan::trims_valid;

verus! {

/// Output settings of an export. Only `format` affects the pipeline; the
/// other fields are hints.
pub struct ExportSettings {
    pub format: String,
    pub width: Option<u32>,
    pub height: Option<u32>,
    pub fps: Option<u32>,
    pub bitrate: Option<u32>,
}

/// What a finished export reports.
pub struct ExportResult {
    pub path: String,
    pub duration_ms: u64,
    pub size_bytes: u64,
}

/// A progress notification: `phase` is "segment", "concat" or "finalize".
pub struct ProgressEvent {
    pub phase: String,
    pub current: u32,
    pub total: u32,
    pub message: String,
}

/// The sum of the trim-window lengths of `s`.
pub open spec fn planned_duration(s: Seq<ClipModel>) -> int
    decreases s.len(),
{
    if s.len() == 0 {
        0
    } else {
        planned_duration(s.drop_last()) + (s.last().out_ms - s.last().in_ms)
    }
}

/// The file extension of an output in `format`.
pub open spec fn output_ext(format: Seq<char>) -> Seq<char> {
    if format == "mov"@ { "mov"@ } else { "mp4"@ }
}

/// How a tool invocation encodes: stream copy first, a fixed transcode
/// profile as the one fallback.
#[derive(PartialEq, Eq, Structural, Clone, Copy)]
pub enum Strategy {
    StreamCopy,
    Transcode,
}

/// The fixed fallback encoder profile: H.264 video and AAC audio.
pub open spec fn encoder_profile() -> Seq<Seq<char>> {
    seq!["-c:v"@, "libx264"@, "-preset"@, "veryfast"@, "-crf"@, "23"@, "-c:a"@, "aac"@, "-b:a"@, "192k"@]
}

/// The codec arguments of a strategy.
pub open spec fn codec_args(s: Strategy) -> Seq<Seq<char>> {
    match s {
        Strategy::StreamCopy => seq!["-c"@, "copy"@],
        Strategy::Transcode => encoder_profile(),
    }
}

/// The tool arguments that extract a clip's trim window into `dest`.
pub open spec fn trim_args(c: ClipModel, dest: Seq<char>, s: Strategy) -> Seq<Seq<char>> {
    seq!["-ss"@, seconds_text(c.in_ms as nat), "-i"@, c.src, "-t"@, seconds_text((c.out_ms - c.in_ms) as nat)]
        + codec_args(s) + seq![dest]
}

/// The tool arguments that join the segments listed in `list` into `dest`.
pub open spec fn concat_args(list: Seq<char>, dest: Seq<char>, s: Strategy) -> Seq<Seq<char>> {
    seq!["-f"@, "concat"@, "-safe"@, "0"@, "-i"@, list] + codec_args(s) + seq![dest]
}

/// One manifest line.
pub open spec fn manifest_line(path: Seq<char>) -> Seq<char> {
    "file '"@ + path + "'\n"@
}

/// The concat manifest: one line per path, in the order given.
pub open spec fn manifest_text(paths: Seq<Seq<char>>) -> Seq<char>
    decreases paths.len(),
{
    if paths.len() == 0 {
        Seq::empty()
    } else {
        manifest_text(paths.drop_last()) + manifest_line(paths.last())
    }
}

/// A step of the tool that could not be launched.
#[derive(PartialEq, Eq, Structural, Clone, Copy)]
pub enum ToolStep {
    Trim,
    Transcode,
    Concat,
    Encode,
}

/// Why an export failed.
pub enum ExportError {
    /// The tool could not be started.
    LaunchFailed { step: ToolStep, message: String },
    /// The fallback invocation of a phase exited with failure.
    ToolFailed { diagnostics: String },
    /// The concat manifest could not be written.
    ManifestWriteFailed { message: String },
}

/// The mathematical value of an [`ExportError`].
pub enum ExportErrorModel {
    LaunchFailed(ToolStep, Seq<char>),
    ToolFailed(Seq<char>),
    ManifestWriteFailed(Seq<char>),
}

impl View for ExportError {
    type V = ExportErrorModel;

    open spec fn view(&self) -> ExportErrorModel {
        match self {
            ExportError::LaunchFailed { step, message } => ExportErrorModel::LaunchFailed(*step, message@),
            ExportError::ToolFailed { diagnostics } => ExportErrorModel::ToolFailed(diagnostics@),
            ExportError::ManifestWriteFailed { message } => ExportErrorModel::ManifestWriteFailed(message@),
        }
    }
}

/// Where an export stands.
#[derive(PartialEq, Eq, Structural, Clone, Copy)]
pub enum ExportStage {
    /// Extracting the main-track clip `index` with `strategy`.
    Segment { index: usize, strategy: Strategy },
    /// Writing the concat manifest.
    Concat,
    /// Joining the segments into the output with `strategy`.
    Finalize { strategy: Strategy },
    /// The output exists.
    Finished,
    /// The export stopped with an error.
    Failed,
}

/// What the driver of an export does next.
pub enum ExportAction {
    /// Emit `progress` if present, run the tool with `args`, and report how
    /// it ended.
    RunTool { progress: Option<ProgressEvent>, args: Vec<String> },
    /// Emit `notice`, write `contents` to `path`, and report how it went.
    WriteManifest { notice: ProgressEvent, path: String, contents: String },
    /// The export is complete; `output_path` holds the result.
    Complete { output_path: String, duration_ms: u64 },
    /// The export failed.
    Fail { error: ExportError },
}

/// What happened when the driver carried out an action.
pub enum ExportEvent {
    /// The tool ran and exited; `diagnostics` is its error output.
    ToolExited { success: bool, diagnostics: String },
    /// The tool could not be started.
    ToolNotStarted { message: String },
    /// The manifest was written.
    ManifestWritten,
    /// The manifest could not be written.
    ManifestNotWritten { message: String },
}

/// The progress notification `p` has these values.
pub open spec fn progress_is(p: ProgressEvent, phase: Seq<char>, current: int, total: int, message: Seq<char>) -> bool {
    p.phase@ == phase && p.current == current && p.total == total && p.message@ == message
}

/// A job exporting one plan.
pub struct ExportJob {
    pub main_track: Vec<SeqClip>,
    pub segment_paths: Vec<String>,
    pub concat_path: String,
    pub output_path: String,
    pub duration_ms: u64,
    pub total: u32,
    pub stage: ExportStage,
}

impl ExportJob {
    /// The fixed parts of the job agree with one another.
    pub open spec fn wf(&self) -> bool {
        &&& self.segment_paths@.len() == self.main_track@.len()
        &&& self.total == self.main_track@.len() + 2
        &&& self.duration_ms == planned_duration(clip_views(self.main_track@))
        &&& trims_valid(clip_views(self.main_track@))
        &&& (self.stage matches ExportStage::Segment { index, .. } ==> index < self.main_track@.len())
    }

    /// The track of the job.
    pub open spec fn track(&self) -> Seq<ClipModel> {
        clip_views(self.main_track@)
    }

    /// The action that entering `stage` issues.
    pub open spec fn issues(&self, stage: ExportStage, a: ExportAction) -> bool {
        let n = self.main_track@.len();
        match stage {
            ExportStage::Segment { index, strategy } => a matches ExportAction::RunTool { progress, args }
                && strings_view(args@) == trim_args(self.track()[index as int], self.segment_paths@[index as int]@, strategy)
                && match strategy {
                    Strategy::StreamCopy => progress matches Some(p) && progress_is(p, "segment"@, index as int,
                        self.total as int, "Trimming clip "@ + decimal(index as nat)),
                    Strategy::Transcode => progress is None,
                },
            ExportStage::Concat => a matches ExportAction::WriteManifest { notice, path, contents }
                && progress_is(notice, "concat"@, n as int, self.total as int, "Concatenating"@)
                && path@ == self.concat_path@
                && contents@ == manifest_text(strings_view(self.segment_paths@)),
            ExportStage::Finalize { strategy } => a matches ExportAction::RunTool { progress, args }
                && strings_view(args@) == concat_args(self.concat_path@, self.output_path@, strategy)
                && match strategy {
                    Strategy::StreamCopy => progress matches Some(p) && progress_is(p, "finalize"@, (n + 1) as int,
                        self.total as int, "Writing output"@),
                    Strategy::Transcode => progress is None,
                },
            ExportStage::Finished => a matches ExportAction::Complete { output_path, duration_ms }
                && output_path@ == self.output_path@ && duration_ms == self.duration_ms,
            ExportStage::Failed => a is Fail,
        }
    }

    /// The stage that follows `stage` once `ev` is reported, or the error
    /// that ends the export.
    pub open spec fn after(&self, stage: ExportStage, ev: ExportEvent) -> Result<ExportStage, ExportErrorModel> {
        let n = self.main_track@.len();
        match stage {
            ExportStage::Segment { index, strategy } => match ev {
                ExportEvent::ToolExited { success, diagnostics } => if success {
                    if index + 1 < n {
                        Ok(ExportStage::Segment { index: (index + 1) as usize, strategy: Strategy::StreamCopy })
                    } else {
                        Ok(ExportStage::Concat)
                    }
                } else if strategy == Strategy::StreamCopy {
                    Ok(ExportStage::Segment { index, strategy: Strategy::Transcode })
                } else {
                    Err(ExportErrorModel::ToolFailed(diagnostics@))
                },
                ExportEvent::ToolNotStarted { message } => Err(ExportErrorModel::LaunchFailed(
                    if strategy == Strategy::StreamCopy { ToolStep::Trim } else { ToolStep::Transcode }, message@)),
                _ => Ok(stage),
            },
            ExportStage::Concat => match ev {
                ExportEvent::ManifestWritten => Ok(ExportStage::Finalize { strategy: Strategy::StreamCopy }),
                ExportEvent::ManifestNotWritten { message } => Err(ExportErrorModel::ManifestWriteFailed(message@)),
                _ => Ok(stage),
            },
            ExportStage::Finalize { strategy } => match ev {
                ExportEvent::ToolExited { success, diagnostics } => if success {
                    Ok(ExportStage::Finished)
                } else if strategy == Strategy::StreamCopy {
                    Ok(ExportStage::Finalize { strategy: Strategy::Transcode })
                } else {
                    Err(ExportErrorModel::ToolFailed(diagnostics@))
                },
                ExportEvent::ToolNotStarted { message } => Err(ExportErrorModel::LaunchFailed(
                    if strategy == Strategy::StreamCopy { ToolStep::Concat } else { ToolStep::Encode }, message@)),
                _ => Ok(stage),
            },
            _ => Ok(stage),
        }
    }

    /// The event reports on the kind of action that `stage` issued.
    pub open spec fn answers(stage: ExportStage, ev: ExportEvent) -> bool {
        match stage {
            ExportStage::Segment { .. } => ev is ToolExited || ev is ToolNotStarted,
            ExportStage::Concat => ev is ManifestWritten || ev is ManifestNotWritten,
            ExportStage::Finalize { .. } => ev is ToolExited || ev is ToolNotStarted,
            _ => false,
        }
    }

    /// The stage an export starts in.
    pub open spec fn first_stage(n: nat) -> ExportStage {
        if n > 0 {
            ExportStage::Segment { index: 0, strategy: Strategy::StreamCopy }
        } else {
            ExportStage::Concat
        }
    }
}

fn push_codec_args(v: &mut Vec<String>, s: Strategy)
    ensures
        strings_view(final(v)@) == strings_view(old(v)@) + codec_args(s),
{
    let ghost start = strings_view(v@);
    match s {
        Strategy::StreamCopy => {
            push_lit(v, "-c");
            push_lit(v, "copy");
        },
        Strategy::Transcode => {
            push_lit(v, "-c:v");
            push_lit(v, "libx264");
            push_lit(v, "-preset");
            push_lit(v, "veryfast");
            push_lit(v, "-crf");
            push_lit(v, "23");
            push_lit(v, "-c:a");
            push_lit(v, "aac");
            push_lit(v, "-b:a");
            push_lit(v, "192k");
        },
    }
    assert(strings_view(v@) =~= start + codec_args(s));
}

/// A millisecond count written as seconds with three decimals.
pub fn seconds_string(ms: u64) -> (r: String)
    ensures
        r@ == seconds_text(ms as nat),
{
    let mut r = String::new();
    push_seconds(&mut r, ms);
    assert(r@ =~= seconds_text(ms as nat));
    r
}

/// The tool arguments that extract `clip`'s trim window into `dest`.
pub fn trim_command(clip: &SeqClip, dest: &String, s: Strategy) -> (r: Vec<String>)
    requires
        clip.in_ms <= clip.out_ms,
    ensures
        strings_view(r@) == trim_args(clip@, dest@, s),
{
    let mut v: Vec<String> = Vec::new();
    push_lit(&mut v, "-ss");
    push_owned(&mut v, seconds_string(clip.in_ms));
    push_lit(&mut v, "-i");
    push_owned(&mut v, copy_string(&clip.src_path));
    push_lit(&mut v, "-t");
    push_owned(&mut v, seconds_string(clip.out_ms - clip.in_ms));
    push_codec_args(&mut v, s);
    push_owned(&mut v, copy_string(dest));
    assert(strings_view(v@) =~= trim_args(clip@, dest@, s));
    v
}

/// The tool arguments that join the segments listed in `list` into `dest`.
pub fn concat_command(list: &String, dest: &String, s: Strategy) -> (r: Vec<String>)
    ensures
        strings_view(r@) == concat_args(list@, dest@, s),
{
    let mut v: Vec<String> = Vec::new();
    push_lit(&mut v, "-f");
    push_lit(&mut v, "concat");
    push_lit(&mut v, "-safe");
    push_lit(&mut v, "0");
    push_lit(&mut v, "-i");
    push_owned(&mut v, copy_string(list));
    push_codec_args(&mut v, s);
    push_owned(&mut v, copy_string(dest));
    assert(strings_view(v@) =~= concat_args(list@, dest@, s));
    v
}

/// The concat manifest listing `paths`, one line each, in order.
pub fn manifest_contents(paths: &Vec<String>) -> (r: String)
    ensures
        r@ == manifest_text(strings_view(paths@)),
{
    let ghost ps = strings_view(paths@);
    let mut r = String::new();
    let mut i: usize = 0;
    while i < paths.len()
        invariant
            ps == strings_view(paths@),
            i <= ps.len(),
            r@ == manifest_text(ps.subrange(0, i as int)),
        decreases paths.len() - i,
    {
        proof {
            assert(ps.subrange(0, i + 1).drop_last() =~= ps.subrange(0, i as int));
        }
        push_str(&mut r, "file '");
        push_str(&mut r, paths[i].as_str());
        push_str(&mut r, "'\n");
        i = i + 1;
        assert(r@ =~= manifest_text(ps.subrange(0, i as int)));
    }
    assert(ps.subrange(0, ps.len() as int) =~= ps);
    r
}

/// The extension of an output in `format`: "mov" for "mov", else "mp4".
pub fn output_extension(format: &String) -> (r: String)
    ensures
        r@ == output_ext(format@),
{
    if *format == String::from_str("mov") {
        String::from_str("mov")
    } else {
        String::from_str("mp4")
    }
}

proof fn lemma_duration_prefix(s: Seq<ClipModel>, i: int)
    requires
        0 <= i <= s.len(),
        forall|k: int| 0 <= k < s.len() ==> s[k].in_ms <= #[trigger] s[k].out_ms,
    ensures
        0 <= planned_duration(s.subrange(0, i)) <= planned_duration(s),
    decreases s.len(),
{
    if i == s.len() {
        assert(s.subrange(0, i) =~= s);
        if s.len() > 0 {
            lemma_duration_prefix(s.drop_last(), s.len() - 1);
            assert(s.drop_last().subrange(0, s.len() - 1) =~= s.drop_last());
        }
    } else {
        assert(s.drop_last().subrange(0, i) =~= s.subrange(0, i));
        lemma_duration_prefix(s.drop_last(), i);
        assert(s.last().in_ms <= s.last().out_ms);
    }
}

/// The sum of the trim-window lengths of `track`, if it fits in a `u64`.
pub fn planned_duration_ms(track: &Vec<SeqClip>) -> (r: Option<u64>)
    requires
        forall|k: int| 0 <= k < track@.len() ==> track@[k].in_ms <= #[trigger] track@[k].out_ms,
    ensures
        r matches Some(d) ==> d == planned_duration(clip_views(track@)),
        r is None <==> planned_duration(clip_views(track@)) > u64::MAX,
{
    let ghost s = clip_views(track@);
    let mut acc: u64 = 0;
    let mut i: usize = 0;
    while i < track.len()
        invariant
            s == clip_views(track@),
            i <= s.len(),
            forall|k: int| 0 <= k < track@.len() ==> track@[k].in_ms <= #[trigger] track@[k].out_ms,
            acc == planned_duration(s.subrange(0, i as int)),
        decreases track.len() - i,
    {
        proof {
            assert(s.subrange(0, i + 1).drop_last() =~= s.subrange(0, i as int));
            assert(s[i as int].in_ms <= s[i as int].out_ms);
        }
        let term = track[i].out_ms - track[i].in_ms;
        if acc > u64::MAX - term {
            proof {
                lemma_duration_prefix(s, i + 1);
            }
            return None;
        }
        acc = acc + term;
        i = i + 1;
    }
    proof {
        assert(s.subrange(0, s.len() as int) =~= s);
    }
    Some(acc)
}

/// The text that introduces a launch failure of `step`.
pub open spec fn launch_failure_prefix(step: ToolStep) -> Seq<char> {
    match step {
        ToolStep::Trim => "ffmpeg trim failed: "@,
        ToolStep::Transcode => "ffmpeg transcode failed: "@,
        ToolStep::Concat => "ffmpeg concat failed: "@,
        ToolStep::Encode => "ffmpeg encode failed: "@,
    }
}

/// An export error as one descriptive line.
pub open spec fn error_text(e: ExportErrorModel) -> Seq<char> {
    match e {
        ExportErrorModel::LaunchFailed(step, m) => launch_failure_prefix(step) + m,
        ExportErrorModel::ToolFailed(d) => "ffmpeg error: "@ + d,
        ExportErrorModel::ManifestWriteFailed(m) => m,
    }
}

impl ExportError {
    /// The error as one descriptive line.
    pub fn message(&self) -> (r: String)
        ensures
            r@ == error_text(self@),
    {
        match self {
            ExportError::LaunchFailed { step, message } => {
                let mut r = match step {
                    ToolStep::Trim => String::from_str("ffmpeg trim failed: "),
                    ToolStep::Transcode => String::from_str("ffmpeg transcode failed: "),
                    ToolStep::Concat => String::from_str("ffmpeg concat failed: "),
                    ToolStep::Encode => String::from_str("ffmpeg encode failed: "),
                };
                push_str(&mut r, message.as_str());
                r
            },
            ExportError::ToolFailed { diagnostics } => {
                let mut r = String::from_str("ffmpeg error: ");
                push_str(&mut r, diagnostics.as_str());
                r
            },
            ExportError::ManifestWriteFailed { message } => copy_string(message),
        }
    }
}

impl ExportResult {
    /// The result for an output written to `output_path`: the path is
    /// reported as a `file://` locator.
    pub fn from_output(output_path: &String, duration_ms: u64, size_bytes: u64) -> (r: ExportResult)
        ensures
            r.path@ == "file://"@ + output_path@,
            r.duration_ms == duration_ms,
            r.size_bytes == size_bytes,
    {
        let mut path = String::from_str("file://");
        push_str(&mut path, output_path.as_str());
        ExportResult { path, duration_ms, size_bytes }
    }
}

fn progress(phase: &str, current: u32, total: u32, message: String) -> (r: ProgressEvent)
    ensures
        progress_is(r, phase@, current as int, total as int, message@),
{
    ProgressEvent { phase: String::from_str(phase), current, total, message }
}

impl ExportJob {
    /// A job that exports `plan` in `settings.format`, with its
    /// intermediate files under `dirs` and an output named after
    /// `ts_secs` (seconds since the Unix epoch).
    pub fn new(plan: &EditPlan, settings: &ExportSettings, dirs: &CacheDirs, ts_secs: u64) -> (r: ExportJob)
        requires
            plan@.wf(),
            plan.main_track@.len() + 2 <= u32::MAX,
            planned_duration(plan@.main) <= u64::MAX,
        ensures
            r.wf(),
            r.track() == plan@.main,
            r.stage == ExportJob::first_stage(plan.main_track@.len()),
            forall|i: int| 0 <= i < r.segment_paths@.len() ==>
                (#[trigger] r.segment_paths@[i])@ == join_path(dirs.segments@, segment_name(i as nat)),
            r.concat_path@ == join_path(dirs.segments@, concat_list_name(plan.id@)),
            r.output_path@ == join_path(dirs.renders@, render_name(plan.id@, ts_secs as nat, output_ext(settings.format@))),
            r.duration_ms == planned_duration(plan@.main),
    {
        let n = plan.main_track.len();
        let mut track: Vec<SeqClip> = Vec::new();
        let mut segs: Vec<String> = Vec::new();
        let mut i: usize = 0;
        while i < n
            invariant
                n == plan.main_track@.len(),
                i <= n,
                track@.len() == i,
                segs@.len() == i,
                forall|k: int| 0 <= k < i ==> (#[trigger] track@[k])@ == plan.main_track@[k]@,
                forall|k: int| 0 <= k < i ==>
                    (#[trigger] segs@[k])@ == join_path(dirs.segments@, segment_name(k as nat)),
            decreases n - i,
        {
            track.push(plan.main_track[i].duplicate());
            segs.push(dirs.segment_path(i));
            i = i + 1;
        }
        assert(clip_views(track@) =~= plan@.main);
        assert forall|k: int| 0 <= k < track@.len() implies track@[k].in_ms <= #[trigger] track@[k].out_ms by {
            assert(clip_views(track@)[k] == track@[k]@);
            let m = plan@.main;
            assert(m[k].in_ms < m[k].out_ms);
        }
        let duration = match planned_duration_ms(&track) {
            Some(d) => d,
            None => 0,
        };
        let ext = output_extension(&settings.format);
        let stage = if n > 0 {
            ExportStage::Segment { index: 0, strategy: Strategy::StreamCopy }
        } else {
            ExportStage::Concat
        };
        ExportJob {
            main_track: track,
            segment_paths: segs,
            concat_path: dirs.concat_list_path(plan),
            output_path: dirs.render_output_path(plan, ext.as_str(), ts_secs),
            duration_ms: duration,
            total: (n + 2) as u32,
            stage,
        }
    }

    /// The action of the current stage.
    pub fn current_action(&self) -> (r: ExportAction)
        requires
            self.wf(),
            !(self.stage is Failed),
        ensures
            self.issues(self.stage, r),
    {
        match self.stage {
            ExportStage::Segment { index, strategy } => {
                let clip = &self.main_track[index];
                proof {
                    assert(self.track()[index as int] == clip@);
                    assert(self.track()[index as int].in_ms < self.track()[index as int].out_ms);
                }
                let args = trim_command(clip, &self.segment_paths[index], strategy);
                let note = match strategy {
                    Strategy::StreamCopy => {
                        let mut m = String::from_str("Trimming clip ");
                        push_decimal(&mut m, index as u64);
                        Some(progress("segment", index as u32, self.total, m))
                    },
                    Strategy::Transcode => None,
                };
                ExportAction::RunTool { progress: note, args }
            },
            ExportStage::Concat => {
                let n = self.main_track.len();
                ExportAction::WriteManifest {
                    notice: progress("concat", n as u32, self.total, String::from_str("Concatenating")),
                    path: copy_string(&self.concat_path),
                    contents: manifest_contents(&self.segment_paths),
                }
            },
            ExportStage::Finalize { strategy } => {
                let n = self.main_track.len();
                let args = concat_command(&self.concat_path, &self.output_path, strategy);
                let note = match strategy {
                    Strategy::StreamCopy => Some(
                        progress("finalize", (n + 1) as u32, self.total, String::from_str("Writing output")),
                    ),
                    Strategy::Transcode => None,
                };
                ExportAction::RunTool { progress: note, args }
            },
            ExportStage::Finished => ExportAction::Complete {
                output_path: copy_string(&self.output_path),
                duration_ms: self.duration_ms,
            },
            ExportStage::Failed => {
                // not reached: the precondition excludes a failed job
                ExportAction::Fail { error: ExportError::ManifestWriteFailed { message: String::new() } }
            },
        }
    }

    /// Takes in what happened to the last action and returns the next one.
    ///
    /// A failed stream copy is retried once with the transcode profile;
    /// only the failure of that retry, or a tool that cannot be started,
    /// ends the export.
    pub fn step(&mut self, ev: ExportEvent) -> (r: ExportAction)
        requires
            old(self).wf(),
            ExportJob::answers(old(self).stage, ev),
        ensures
            final(self).wf(),
            final(self).main_track@ == old(self).main_track@,
            final(self).segment_paths@ == old(self).segment_paths@,
            final(self).concat_path@ == old(self).concat_path@,
            final(self).output_path@ == old(self).output_path@,
            final(self).duration_ms == old(self).duration_ms,
            final(self).total == old(self).total,
            match old(self).after(old(self).stage, ev) {
                Ok(st) => final(self).stage == st && final(self).issues(st, r),
                Err(e) => final(self).stage is Failed && (r matches ExportAction::Fail { error } && error@ == e),
            },
    {
        let n = self.main_track.len();
        let next: Result<ExportStage, ExportError> = match self.stage {
            ExportStage::Segment { index, strategy } => match ev {
                ExportEvent::ToolExited { success, diagnostics } => if success {
                    if index + 1 < n {
                        Ok(ExportStage::Segment { index: index + 1, strategy: Strategy::StreamCopy })
                    } else {
                        Ok(ExportStage::Concat)
                    }
                } else if strategy == Strategy::StreamCopy {
                    Ok(ExportStage::Segment { index, strategy: Strategy::Transcode })
                } else {
                    Err(ExportError::ToolFailed { diagnostics })
                },
                ExportEvent::ToolNotStarted { message } => {
                    let step = if strategy == Strategy::StreamCopy { ToolStep::Trim } else { ToolStep::Transcode };
                    Err(ExportError::LaunchFailed { step, message })
                },
                _ => Ok(self.stage),
            },
            ExportStage::Concat => match ev {
                ExportEvent::ManifestWritten => Ok(ExportStage::Finalize { strategy: Strategy::StreamCopy }),
                ExportEvent::ManifestNotWritten { message } => Err(ExportError::ManifestWriteFailed { message }),
                _ => Ok(self.stage),
            },
            ExportStage::Finalize { strategy } => match ev {
                ExportEvent::ToolExited { success, diagnostics } => if success {
                    Ok(ExportStage::Finished)
                } else if strategy == Strategy::StreamCopy {
                    Ok(ExportStage::Finalize { strategy: Strategy::Transcode })
                } else {
                    Err(ExportError::ToolFailed { diagnostics })
                },
                ExportEvent::ToolNotStarted { message } => {
                    let step = if strategy == Strategy::StreamCopy { ToolStep::Concat } else { ToolStep::Encode };
                    Err(ExportError::LaunchFailed { step, message })
                },
                _ => Ok(self.stage),
            },
            _ => Ok(self.stage),
        };
        match next {
            Ok(st) => {
                self.stage = st;
                self.current_action()
            },
            Err(error) => {
                self.stage = ExportStage::Failed;
                ExportAction::Fail { error }
            },
        }
    }
}

/// Whatever strategies the phases took, the only action that completes an
/// export reports the sum of the main track's trim-window lengths.
pub proof fn lemma_completion_reports_planned_duration(job: ExportJob, stage: ExportStage, a: ExportAction)
    requires
        job.wf(),
        job.issues(stage, a),
        a is Complete,
    ensures
        stage is Finished,
        a->Complete_duration_ms == planned_duration(job.track()),
{
}

proof fn lemma_manifest_split(ps: Seq<Seq<char>>, i: int)
    requires
        0 <= i <= ps.len(),
    ensures
        manifest_text(ps) == manifest_text(ps.subrange(0, i)) + manifest_text(ps.subrange(i, ps.len() as int)),
    decreases ps.len(),
{
    if i == ps.len() {
        assert(ps.subrange(0, i) =~= ps);
        assert(ps.subrange(i, ps.len() as int) =~= Seq::<Seq<char>>::empty());
        assert(manifest_text(ps) + Seq::<char>::empty() =~= manifest_text(ps));
    } else {
        let d = ps.drop_last();
        lemma_manifest_split(d, i);
        assert(d.subrange(0, i) =~= ps.subrange(0, i));
        let tail = ps.subrange(i, ps.len() as int);
        assert(tail.drop_last() =~= d.subrange(i, d.len() as int));
        assert(tail.last() == ps.last());
        assert(manifest_text(ps) =~= manifest_text(ps.subrange(0, i)) + manifest_text(tail));
    }
}

/// Clip `i` of the main track is extracted to the `i`-th segment path by
/// either strategy, and the manifest lists the segment paths in that same
/// order: what precedes the line of segment `i` lists segments `0..i`.
pub proof fn lemma_manifest_follows_segment_order(job: ExportJob, a: ExportAction, i: int)
    requires
        job.wf(),
        job.issues(ExportStage::Concat, a),
        0 <= i < job.main_track@.len(),
    ensures
        ({
            let ps = strings_view(job.segment_paths@);
            &&& a matches ExportAction::WriteManifest { contents, .. }
            &&& a->WriteManifest_contents@ == manifest_text(ps.subrange(0, i)) + manifest_line(ps[i])
                + manifest_text(ps.subrange(i + 1, ps.len() as int))
            &&& trim_args(job.track()[i], ps[i], Strategy::StreamCopy).last() == ps[i]
            &&& trim_args(job.track()[i], ps[i], Strategy::Transcode).last() == ps[i]
        }),
{
    let ps = strings_view(job.segment_paths@);
    lemma_manifest_split(ps, i);
    let rest = ps.subrange(i, ps.len() as int);
    lemma_manifest_split(rest, 1);
    assert(rest.subrange(0, 1).drop_last() =~= Seq::<Seq<char>>::empty());
    assert(rest.subrange(1, rest.len() as int) =~= ps.subrange(i + 1, ps.len() as int));
    let one = rest.subrange(0, 1);
    assert(one.last() == ps[i]);
    assert(manifest_text(one.drop_last()) =~= Seq::<char>::empty());
    assert(manifest_text(one) =~= manifest_line(ps[i]));
}

} // verus!
