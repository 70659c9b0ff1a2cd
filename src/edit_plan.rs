use vstd::prelude::*;
use vstd::string::*;

use crate::text::{chars_of, chars_occur_at, copy_string, occurs_at, push_str};

verus! {

/// One clip placed on the output timeline.
pub struct SeqClip {
    pub src_path: String,
    pub in_ms: u64,
    pub out_ms: u64,
    pub start_ms: u64,
    pub end_ms: u64,
}

/// The mathematical value of a [`SeqClip`].
pub struct ClipModel {
    pub src: Seq<char>,
    pub in_ms: u64,
    pub out_ms: u64,
    pub start_ms: u64,
    pub end_ms: u64,
}

impl View for SeqClip {
    type V = ClipModel;

    open spec fn view(&self) -> ClipModel {
        ClipModel {
            src: self.src_path@,
            in_ms: self.in_ms,
            out_ms: self.out_ms,
            start_ms: self.start_ms,
            end_ms: self.end_ms,
        }
    }
}

impl SeqClip {
    /// A field-for-field copy.
    pub fn duplicate(&self) -> (r: SeqClip)
        ensures
            r@ == self@,
    {
        SeqClip {
            src_path: copy_string(&self.src_path),
            in_ms: self.in_ms,
            out_ms: self.out_ms,
            start_ms: self.start_ms,
            end_ms: self.end_ms,
        }
    }
}

/// The views of a sequence of clips.
pub open spec fn clip_views(s: Seq<SeqClip>) -> Seq<ClipModel> {
    s.map_values(|c: SeqClip| c@)
}

/// A validated timeline: a main track kept in order and free of overlaps,
/// and an overlay track in discovery order.
pub struct EditPlan {
    pub id: String,
    pub main_track: Vec<SeqClip>,
    pub overlay_track: Vec<SeqClip>,
}

/// The mathematical value of an [`EditPlan`].
pub struct PlanModel {
    pub id: Seq<char>,
    pub main: Seq<ClipModel>,
    pub overlay: Seq<ClipModel>,
}

impl View for EditPlan {
    type V = PlanModel;

    open spec fn view(&self) -> PlanModel {
        PlanModel {
            id: self.id@,
            main: clip_views(self.main_track@),
            overlay: clip_views(self.overlay_track@),
        }
    }
}

/// Every clip's trim window is non-empty.
pub open spec fn trims_valid(s: Seq<ClipModel>) -> bool {
    forall|i: int| 0 <= i < s.len() ==> s[i].in_ms < #[trigger] s[i].out_ms
}

/// Every clip's placement is non-empty.
pub open spec fn placements_valid(s: Seq<ClipModel>) -> bool {
    forall|i: int| 0 <= i < s.len() ==> s[i].start_ms < #[trigger] s[i].end_ms
}

/// Clips are in ascending order of `start_ms`.
pub open spec fn sorted_by_start(s: Seq<ClipModel>) -> bool {
    forall|i: int, j: int| 0 <= i < j < s.len() ==> s[i].start_ms <= s[j].start_ms
}

/// Each clip ends no later than the next one starts.
pub open spec fn consecutive_disjoint(s: Seq<ClipModel>) -> bool {
    forall|i: int| 1 <= i < s.len() ==> s[i - 1].end_ms <= #[trigger] s[i].start_ms
}

/// No clip ends after a later clip starts.
pub open spec fn pairwise_disjoint(s: Seq<ClipModel>) -> bool {
    forall|i: int, j: int| 0 <= i < j < s.len() ==> s[i].end_ms <= s[j].start_ms
}

impl PlanModel {
    /// The invariant of a built plan's main track.
    pub open spec fn wf(&self) -> bool {
        &&& trims_valid(self.main)
        &&& placements_valid(self.main)
        &&& sorted_by_start(self.main)
        &&& consecutive_disjoint(self.main)
    }
}

/// `t` falls inside the clip's placement on the timeline.
pub open spec fn visible_at(c: ClipModel, t: u64) -> bool {
    c.start_ms <= t && t < c.end_ms
}

impl EditPlan {
    /// Whether the main track keeps the plan invariant.
    pub fn is_well_formed(&self) -> (r: bool)
        ensures
            r == self@.wf(),
    {
        let ghost s = clip_views(self.main_track@);
        let mut i: usize = 0;
        while i < self.main_track.len()
            invariant
                s == clip_views(self.main_track@),
                i <= s.len(),
                forall|k: int| 0 <= k < i ==> s[k].in_ms < #[trigger] s[k].out_ms,
                forall|k: int| 0 <= k < i ==> s[k].start_ms < #[trigger] s[k].end_ms,
                forall|a: int, b: int| 0 <= a < b < i ==> s[a].start_ms <= s[b].start_ms,
                forall|k: int| 1 <= k < i ==> s[k - 1].end_ms <= #[trigger] s[k].start_ms,
            decreases self.main_track.len() - i,
        {
            let c = &self.main_track[i];
            assert(s[i as int] == c@);
            if c.out_ms <= c.in_ms {
                assert(!(s[i as int].in_ms < s[i as int].out_ms));
                assert(!trims_valid(s));
                return false;
            }
            if c.end_ms <= c.start_ms {
                assert(!(s[i as int].start_ms < s[i as int].end_ms));
                assert(!placements_valid(s));
                return false;
            }
            if i > 0 {
                let p = &self.main_track[i - 1];
                assert(s[i - 1] == p@);
                if p.start_ms > c.start_ms || p.end_ms > c.start_ms {
                    return false;
                }
            }
            i = i + 1;
        }
        true
    }

    /// The first main-track clip whose placement covers `t_ms`.
    pub fn top_visible_clip(&self, t_ms: u64) -> (r: Option<&SeqClip>)
        ensures
            match r {
                None => forall|i: int|
                    0 <= i < self.main_track@.len() ==> !visible_at(#[trigger] self.main_track@[i]@, t_ms),
                Some(c) => exists|i: int|
                    0 <= i < self.main_track@.len() && self.main_track@[i] == *c
                    && visible_at(c@, t_ms)
                    && forall|k: int| 0 <= k < i ==> !visible_at(#[trigger] self.main_track@[k]@, t_ms),
            },
    {
        let mut i: usize = 0;
        while i < self.main_track.len()
            invariant
                i <= self.main_track@.len(),
                forall|k: int| 0 <= k < i ==> !visible_at(#[trigger] self.main_track@[k]@, t_ms),
            decreases self.main_track.len() - i,
        {
            let c = &self.main_track[i];
            if c.start_ms <= t_ms && t_ms < c.end_ms {
                return Some(c);
            }
            i = i + 1;
        }
        None
    }
}

/// Inserts `c` after every clip that starts no later than it.
pub open spec fn insert_by_start(s: Seq<ClipModel>, c: ClipModel) -> Seq<ClipModel>
    decreases s.len(),
{
    if s.len() == 0 {
        seq![c]
    } else if s.last().start_ms <= c.start_ms {
        s.push(c)
    } else {
        insert_by_start(s.drop_last(), c).push(s.last())
    }
}

/// The stable ordering of `s` by `start_ms`.
pub open spec fn sort_by_start(s: Seq<ClipModel>) -> Seq<ClipModel>
    decreases s.len(),
{
    if s.len() == 0 {
        s
    } else {
        insert_by_start(sort_by_start(s.drop_last()), s.last())
    }
}

proof fn lemma_insert_at(s: Seq<ClipModel>, c: ClipModel, k: int)
    requires
        0 <= k <= s.len(),
        forall|i: int| k <= i < s.len() ==> s[i].start_ms > c.start_ms,
        k == 0 || s[k - 1].start_ms <= c.start_ms,
    ensures
        insert_by_start(s, c) == s.subrange(0, k).push(c) + s.subrange(k, s.len() as int),
    decreases s.len(),
{
    if s.len() == 0 {
        assert(s.subrange(0, k).push(c) + s.subrange(k, s.len() as int) =~= seq![c]);
    } else if k == s.len() {
        assert(s.subrange(0, k).push(c) + s.subrange(k, s.len() as int) =~= s.push(c));
    } else {
        let d = s.drop_last();
        lemma_insert_at(d, c, k);
        assert(s.subrange(0, k).push(c) + s.subrange(k, s.len() as int)
            =~= (d.subrange(0, k).push(c) + d.subrange(k, d.len() as int)).push(s.last()));
    }
}

/// Inserts `c` into `v` at the position `insert_by_start` gives.
fn insert_clip_by_start(v: &mut Vec<SeqClip>, c: SeqClip)
    ensures
        clip_views(final(v)@) == insert_by_start(clip_views(old(v)@), c@),
{
    let ghost s = clip_views(v@);
    let mut k: usize = v.len();
    while k > 0 && v[k - 1].start_ms > c.start_ms
        invariant
            k <= v@.len(),
            s == clip_views(v@),
            forall|i: int| k <= i < v@.len() ==> v@[i].start_ms > c.start_ms,
        decreases k,
    {
        k = k - 1;
    }
    proof {
        lemma_insert_at(s, c@, k as int);
    }
    v.insert(k, c);
    assert(clip_views(v@) =~= s.subrange(0, k as int).push(c@) + s.subrange(k as int, s.len() as int));
}

// ----- project description -----

/// A media source referenced by clips.
pub struct ProjectAsset {
    pub id: String,
    pub kind: String,
    pub name: String,
    pub src: String,
}

/// A clip of the project: a trim window of an asset placed on a track.
pub struct ProjectClip {
    pub id: String,
    pub asset_id: String,
    pub track_id: String,
    pub start_ms: u64,
    pub end_ms: u64,
    pub in_ms: u64,
    pub out_ms: u64,
}

/// A track: its role ("main" or "overlay") and its clips in order.
pub struct ProjectTrack {
    pub id: String,
    pub role: String,
    pub clip_order: Vec<String>,
}

/// A project description. Each map is a list of (key, value) entries.
pub struct Project {
    pub id: String,
    pub assets: Vec<(String, ProjectAsset)>,
    pub clips: Vec<(String, ProjectClip)>,
    pub tracks: Vec<(String, ProjectTrack)>,
}

/// Why a project description could not become a plan.
pub enum PlanError {
    /// The description is not well-formed.
    InvalidDescription { message: String },
    /// A clip's trim window is empty (`out_ms <= in_ms`).
    InvalidTrimWindow { clip_id: String },
    /// A clip's placement on the timeline is empty (`end_ms <= start_ms`).
    InvalidPlacement { clip_id: String },
    /// Two main-track clips overlap once ordered by start.
    OverlappingClips,
}

/// The mathematical value of a [`PlanError`].
pub enum PlanErrorModel {
    InvalidDescription(Seq<char>),
    InvalidTrimWindow(Seq<char>),
    InvalidPlacement(Seq<char>),
    OverlappingClips,
}

impl View for PlanError {
    type V = PlanErrorModel;

    open spec fn view(&self) -> PlanErrorModel {
        match self {
            PlanError::InvalidDescription { message } => PlanErrorModel::InvalidDescription(message@),
            PlanError::InvalidTrimWindow { clip_id } => PlanErrorModel::InvalidTrimWindow(clip_id@),
            PlanError::InvalidPlacement { clip_id } => PlanErrorModel::InvalidPlacement(clip_id@),
            PlanError::OverlappingClips => PlanErrorModel::OverlappingClips,
        }
    }
}

/// A plan error as one descriptive line.
pub open spec fn plan_error_text(e: PlanErrorModel) -> Seq<char> {
    match e {
        PlanErrorModel::InvalidDescription(m) => "invalid project description: "@ + m,
        PlanErrorModel::InvalidTrimWindow(id) => "clip "@ + id + " out <= in"@,
        PlanErrorModel::InvalidPlacement(id) => "clip "@ + id + " end <= start"@,
        PlanErrorModel::OverlappingClips => "overlapping clips on main track"@,
    }
}

impl PlanError {
    /// The error as one descriptive line; a trim-window error names the clip.
    pub fn message(&self) -> (r: String)
        ensures
            r@ == plan_error_text(self@),
    {
        match self {
            PlanError::InvalidDescription { message } => {
                let mut r = String::from_str("invalid project description: ");
                push_str(&mut r, message.as_str());
                r
            },
            PlanError::InvalidTrimWindow { clip_id } => {
                let mut r = String::from_str("clip ");
                push_str(&mut r, clip_id.as_str());
                push_str(&mut r, " out <= in");
                r
            },
            PlanError::InvalidPlacement { clip_id } => {
                let mut r = String::from_str("clip ");
                push_str(&mut r, clip_id.as_str());
                push_str(&mut r, " end <= start");
                r
            },
            PlanError::OverlappingClips => String::from_str("overlapping clips on main track"),
        }
    }
}

/// The index of the first entry at or after `i` whose key is `key`, or -1.
pub open spec fn find_key_from<T>(entries: Seq<(String, T)>, key: Seq<char>, i: int) -> int
    decreases entries.len() - i,
{
    if i < 0 || i >= entries.len() {
        -1
    } else if entries[i].0@ == key {
        i
    } else {
        find_key_from(entries, key, i + 1)
    }
}

/// No two entries share a key. A description read from a JSON map has
/// unique keys; then `find_key` finds the one entry of a key.
pub open spec fn keys_unique<T>(entries: Seq<(String, T)>) -> bool {
    forall|i: int, j: int| 0 <= i < j < entries.len() ==> (#[trigger] entries[i]).0@ != (#[trigger] entries[j]).0@
}

/// The project's maps have unique keys.
pub open spec fn project_wf(p: Project) -> bool {
    keys_unique(p.assets@) && keys_unique(p.clips@) && keys_unique(p.tracks@)
}

/// With unique keys, looking up the key of an entry finds that entry.
pub proof fn lemma_find_key_unique<T>(entries: Seq<(String, T)>, k: int)
    requires
        keys_unique(entries),
        0 <= k < entries.len(),
    ensures
        find_key(entries, entries[k].0@) == k,
{
    lemma_find_key_from(entries, k, 0);
}

proof fn lemma_find_key_from<T>(entries: Seq<(String, T)>, k: int, i: int)
    requires
        keys_unique(entries),
        0 <= i <= k < entries.len(),
    ensures
        find_key_from(entries, entries[k].0@, i) == k,
    decreases k - i,
{
    if i < k {
        assert(entries[i].0@ != entries[k].0@);
        lemma_find_key_from(entries, k, i + 1);
    }
}

/// The index of the first entry whose key is `key`, or -1.
pub open spec fn find_key<T>(entries: Seq<(String, T)>, key: Seq<char>) -> int {
    find_key_from(entries, key, 0)
}

/// A source locator with a leading `file://` scheme removed.
pub open spec fn normalized_src(src: Seq<char>) -> Seq<char> {
    if occurs_at(src, "file://"@, 0) {
        src.subrange("file://"@.len() as int, src.len() as int)
    } else {
        src
    }
}

/// The clip that `clip_id` names, with its asset resolved, if both exist.
pub open spec fn resolve(p: Project, clip_id: Seq<char>) -> Option<ClipModel> {
    let ci = find_key(p.clips@, clip_id);
    if ci < 0 {
        None
    } else {
        let c = p.clips@[ci].1;
        let ai = find_key(p.assets@, c.asset_id@);
        if ai < 0 {
            None
        } else {
            Some(ClipModel {
                src: normalized_src(p.assets@[ai].1.src@),
                in_ms: c.in_ms,
                out_ms: c.out_ms,
                start_ms: c.start_ms,
                end_ms: c.end_ms,
            })
        }
    }
}

/// The clip that `clip_id` names, whether or not its asset exists.
pub open spec fn listed_clip(p: Project, clip_id: Seq<char>) -> Option<ProjectClip> {
    let ci = find_key(p.clips@, clip_id);
    if ci < 0 { None } else { Some(p.clips@[ci].1) }
}

/// What is wrong with the clip that `clip_id` names, if anything: an empty
/// trim window, else an empty placement.
pub open spec fn clip_fault(p: Project, clip_id: Seq<char>) -> Option<PlanErrorModel> {
    match listed_clip(p, clip_id) {
        None => None,
        Some(c) => if c.out_ms <= c.in_ms {
            Some(PlanErrorModel::InvalidTrimWindow(clip_id))
        } else if c.end_ms <= c.start_ms {
            Some(PlanErrorModel::InvalidPlacement(clip_id))
        } else {
            None
        },
    }
}

/// Clips collected so far (main, overlay), or the error of the first clip
/// that is not valid.
pub type Collected = Result<(Seq<ClipModel>, Seq<ClipModel>), PlanErrorModel>;

/// One clip id of a track taken into the collection. Every listed clip is
/// checked, also one whose asset is missing; such a clip is then passed over.
pub open spec fn collect_step(p: Project, acc: Collected, is_main: bool, clip_id: Seq<char>) -> Collected {
    match acc {
        Err(e) => Err(e),
        Ok((m, o)) => match clip_fault(p, clip_id) {
            Some(e) => Err(e),
            None => match resolve(p, clip_id) {
                None => Ok((m, o)),
                Some(c) => if is_main {
                    Ok((m.push(c), o))
                } else {
                    Ok((m, o.push(c)))
                },
            },
        },
    }
}

/// The clip ids of one track taken into the collection, in order.
pub open spec fn collect_ids(p: Project, acc: Collected, is_main: bool, ids: Seq<String>) -> Collected
    decreases ids.len(),
{
    if ids.len() == 0 {
        acc
    } else {
        collect_step(p, collect_ids(p, acc, is_main, ids.drop_last()), is_main, ids.last()@)
    }
}

/// The tracks taken into the collection, in order.
pub open spec fn collect_tracks(p: Project, ts: Seq<(String, ProjectTrack)>) -> Collected
    decreases ts.len(),
{
    if ts.len() == 0 {
        Ok((Seq::empty(), Seq::empty()))
    } else {
        let t = ts.last().1;
        collect_ids(p, collect_tracks(p, ts.drop_last()), t.role@ == "main"@, t.clip_order@)
    }
}

/// What building a plan from `p` gives.
pub open spec fn plan_of(p: Project) -> Result<PlanModel, PlanErrorModel> {
    match collect_tracks(p, p.tracks@) {
        Err(e) => Err(e),
        Ok((m, o)) => {
            let main = sort_by_start(m);
            if consecutive_disjoint(main) {
                Ok(PlanModel { id: p.id@, main: main, overlay: o })
            } else {
                Err(PlanErrorModel::OverlappingClips)
            }
        },
    }
}

/// The view of a build result.
pub open spec fn plan_result_view(r: Result<EditPlan, PlanError>) -> Result<PlanModel, PlanErrorModel> {
    match r {
        Ok(plan) => Ok(plan@),
        Err(e) => Err(e@),
    }
}

proof fn lemma_ids_err(p: Project, e: PlanErrorModel, is_main: bool, ids: Seq<String>)
    ensures
        collect_ids(p, Err(e), is_main, ids) == Collected::Err(e),
    decreases ids.len(),
{
    if ids.len() > 0 {
        lemma_ids_err(p, e, is_main, ids.drop_last());
    }
}

proof fn lemma_ids_prefix_err(p: Project, acc: Collected, is_main: bool, ids: Seq<String>, j: int, e: PlanErrorModel)
    requires
        0 <= j <= ids.len(),
        collect_ids(p, acc, is_main, ids.subrange(0, j)) == Collected::Err(e),
    ensures
        collect_ids(p, acc, is_main, ids) == Collected::Err(e),
    decreases ids.len(),
{
    if j == ids.len() {
        assert(ids.subrange(0, j) =~= ids);
    } else {
        assert(ids.drop_last().subrange(0, j) =~= ids.subrange(0, j));
        lemma_ids_prefix_err(p, acc, is_main, ids.drop_last(), j, e);
    }
}

proof fn lemma_tracks_prefix_err(p: Project, ts: Seq<(String, ProjectTrack)>, i: int, e: PlanErrorModel)
    requires
        0 <= i <= ts.len(),
        collect_tracks(p, ts.subrange(0, i)) == Collected::Err(e),
    ensures
        collect_tracks(p, ts) == Collected::Err(e),
    decreases ts.len(),
{
    if i == ts.len() {
        assert(ts.subrange(0, i) =~= ts);
    } else {
        assert(ts.drop_last().subrange(0, i) =~= ts.subrange(0, i));
        lemma_tracks_prefix_err(p, ts.drop_last(), i, e);
        let t = ts.last().1;
        lemma_ids_err(p, e, t.role@ == "main"@, t.clip_order@);
    }
}

/// The index of the first entry whose key is `key`.
fn lookup<T>(entries: &Vec<(String, T)>, key: &String) -> (r: Option<usize>)
    ensures
        match r {
            None => find_key(entries@, key@) == -1,
            Some(i) => find_key(entries@, key@) == i as int && i < entries@.len(),
        },
{
    let mut i: usize = 0;
    while i < entries.len()
        invariant
            i <= entries@.len(),
            find_key(entries@, key@) == find_key_from(entries@, key@, i as int),
        decreases entries.len() - i,
    {
        if entries[i].0 == *key {
            return Some(i);
        }
        i = i + 1;
    }
    None
}

/// `src` with a leading `file://` scheme removed.
pub fn normalize_src(src: &String) -> (r: String)
    ensures
        r@ == normalized_src(src@),
{
    let v = chars_of(src.as_str());
    let prefix = chars_of("file://");
    if chars_occur_at(&v, &prefix, 0) {
        let rest = src.as_str().substring_char(prefix.len(), v.len());
        String::from_str(rest)
    } else {
        copy_string(src)
    }
}

/// The clip that `clip_id` names, with its asset resolved.
fn resolve_clip(p: &Project, clip_id: &String) -> (r: Option<SeqClip>)
    ensures
        match r {
            None => resolve(*p, clip_id@) is None,
            Some(c) => resolve(*p, clip_id@) == Some(c@),
        },
{
    match lookup(&p.clips, clip_id) {
        None => None,
        Some(ci) => {
            let c = &p.clips[ci].1;
            match lookup(&p.assets, &c.asset_id) {
                None => None,
                Some(ai) => Some(SeqClip {
                    src_path: normalize_src(&p.assets[ai].1.src),
                    in_ms: c.in_ms,
                    out_ms: c.out_ms,
                    start_ms: c.start_ms,
                    end_ms: c.end_ms,
                }),
            }
        },
    }
}

/// Whether some main-track clip starts before its predecessor ends.
fn find_overlap(main: &Vec<SeqClip>) -> (r: bool)
    ensures
        r == !consecutive_disjoint(clip_views(main@)),
{
    let ghost s = clip_views(main@);
    let mut i: usize = 1;
    while i < main.len()
        invariant
            s == clip_views(main@),
            1 <= i,
            forall|k: int| 1 <= k < i && k < s.len() ==> s[k - 1].end_ms <= #[trigger] s[k].start_ms,
        decreases main.len() - i,
    {
        if main[i - 1].end_ms > main[i].start_ms {
            assert(s[i as int - 1].end_ms > s[i as int].start_ms);
            return true;
        }
        i = i + 1;
    }
    false
}

/// Builds a plan from a project description.
///
/// Tracks are visited in order and, within a track, clips in `clip_order`;
/// a clip id whose clip or asset is missing is passed over. The first clip
/// with `out_ms <= in_ms` fails the build. Main-track clips are then ordered
/// by `start_ms` (equal starts keep their order) and must not overlap;
/// overlay clips stay in the order they were found.
pub fn build_plan(project: &Project) -> (r: Result<EditPlan, PlanError>)
    ensures
        plan_result_view(r) == plan_of(*project),
{
    let mut main: Vec<SeqClip> = Vec::new();
    let mut overlay: Vec<SeqClip> = Vec::new();
    let ghost mut collected: Seq<ClipModel> = Seq::empty();
    let ghost ts = project.tracks@;
    let main_role = String::from_str("main");
    let mut ti: usize = 0;
    proof {
        assert(ts.subrange(0, 0) =~= Seq::<(String, ProjectTrack)>::empty());
        assert(clip_views(overlay@) =~= Seq::<ClipModel>::empty());
        assert(sort_by_start(collected) == collected);
        assert(clip_views(main@) =~= Seq::<ClipModel>::empty());
    }
    while ti < project.tracks.len()
        invariant
            ts == project.tracks@,
            main_role@ == "main"@,
            ti <= ts.len(),
            collect_tracks(*project, ts.subrange(0, ti as int)) == Collected::Ok((collected, clip_views(overlay@))),
            clip_views(main@) == sort_by_start(collected),
        decreases ts.len() - ti,
    {
        let track = &project.tracks[ti].1;
        let is_main = track.role == main_role;
        let ghost before = collect_tracks(*project, ts.subrange(0, ti as int));
        let ghost ids = track.clip_order@;
        proof {
            assert(ts.subrange(0, ti + 1).drop_last() =~= ts.subrange(0, ti as int));
            assert(ids.subrange(0, 0) =~= Seq::<String>::empty());
        }
        let mut j: usize = 0;
        while j < track.clip_order.len()
            invariant
                ts == project.tracks@,
                track == ts[ti as int].1,
                ids == track.clip_order@,
                is_main == (track.role@ == "main"@),
                ti < ts.len(),
                j <= ids.len(),
                before == collect_tracks(*project, ts.subrange(0, ti as int)),
                collect_ids(*project, before, is_main, ids.subrange(0, j as int))
                    == Collected::Ok((collected, clip_views(overlay@))),
                clip_views(main@) == sort_by_start(collected),
            decreases ids.len() - j,
        {
            let clip_id = &track.clip_order[j];
            proof {
                assert(ids.subrange(0, j + 1).drop_last() =~= ids.subrange(0, j as int));
            }
            let fault = match lookup(&project.clips, clip_id) {
                None => None,
                Some(ci) => {
                    let pc = &project.clips[ci].1;
                    if pc.out_ms <= pc.in_ms {
                        Some(PlanError::InvalidTrimWindow { clip_id: copy_string(clip_id) })
                    } else if pc.end_ms <= pc.start_ms {
                        Some(PlanError::InvalidPlacement { clip_id: copy_string(clip_id) })
                    } else {
                        None
                    }
                },
            };
            if let Some(e) = fault {
                proof {
                    lemma_ids_prefix_err(*project, before, is_main, ids, j + 1, e@);
                    let sub = ts.subrange(0, ti + 1);
                    assert(sub.drop_last() =~= ts.subrange(0, ti as int));
                    assert(sub.last() == ts[ti as int]);
                    assert(collect_tracks(*project, sub) == collect_ids(*project, before, is_main, ids));
                    lemma_tracks_prefix_err(*project, ts, ti + 1, e@);
                }
                return Err(e);
            }
            match resolve_clip(project, clip_id) {
                None => {},
                Some(c) => {
                    if is_main {
                        let ghost cv = c@;
                        proof {
                            assert(collected.push(cv).drop_last() =~= collected);
                        }
                        insert_clip_by_start(&mut main, c);
                        proof {
                            collected = collected.push(cv);
                        }
                    } else {
                        let ghost prev = overlay@;
                        let ghost cv = c@;
                        overlay.push(c);
                        proof {
                            assert(clip_views(overlay@) =~= clip_views(prev).push(cv));
                        }
                    }
                },
            }
            j = j + 1;
        }
        proof {
            assert(ids.subrange(0, ids.len() as int) =~= ids);
            assert(ts.subrange(0, ti + 1).last() == ts[ti as int]);
        }
        ti = ti + 1;
    }
    proof {
        assert(ts.subrange(0, ts.len() as int) =~= ts);
    }
    if find_overlap(&main) {
        return Err(PlanError::OverlappingClips);
    }
    Ok(EditPlan { id: copy_string(&project.id), main_track: main, overlay_track: overlay })
}

/// The clip id names a clip whose trim window is empty.
pub open spec fn names_bad_trim(p: Project, clip_id: Seq<char>) -> bool {
    listed_clip(p, clip_id) matches Some(c) && c.out_ms <= c.in_ms
}

/// The clip id names a clip whose placement is empty.
pub open spec fn names_bad_placement(p: Project, clip_id: Seq<char>) -> bool {
    listed_clip(p, clip_id) matches Some(c) && c.end_ms <= c.start_ms
}

/// What the collection holds so far is consistent: collected clips have
/// valid trims and placements, and an error names a clip that has not.
pub open spec fn collected_sound(p: Project, r: Collected) -> bool {
    match r {
        Ok((m, o)) => trims_valid(m) && trims_valid(o) && placements_valid(m) && placements_valid(o),
        Err(PlanErrorModel::InvalidTrimWindow(id)) => names_bad_trim(p, id),
        Err(PlanErrorModel::InvalidPlacement(id)) => names_bad_placement(p, id) && !names_bad_trim(p, id),
        Err(_) => false,
    }
}

proof fn lemma_ids_sound(p: Project, acc: Collected, is_main: bool, ids: Seq<String>)
    requires
        collected_sound(p, acc),
    ensures
        collected_sound(p, collect_ids(p, acc, is_main, ids)),
    decreases ids.len(),
{
    if ids.len() > 0 {
        lemma_ids_sound(p, acc, is_main, ids.drop_last());
        let prev = collect_ids(p, acc, is_main, ids.drop_last());
        if let Ok((m, o)) = prev {
            if clip_fault(p, ids.last()@) is None {
                if let Some(c) = resolve(p, ids.last()@) {
                    lemma_push_valid(m, c);
                    lemma_push_valid(o, c);
                }
            }
        }
    }
}

proof fn lemma_push_valid(s: Seq<ClipModel>, c: ClipModel)
    requires
        trims_valid(s),
        placements_valid(s),
        c.in_ms < c.out_ms,
        c.start_ms < c.end_ms,
    ensures
        trims_valid(s.push(c)),
        placements_valid(s.push(c)),
{
    assert forall|i: int| 0 <= i < s.push(c).len() implies
        s.push(c)[i].in_ms < #[trigger] s.push(c)[i].out_ms by {
        if i < s.len() { assert(s.push(c)[i] == s[i]); }
    }
    assert forall|i: int| 0 <= i < s.push(c).len() implies
        s.push(c)[i].start_ms < #[trigger] s.push(c)[i].end_ms by {
        if i < s.len() { assert(s.push(c)[i] == s[i]); }
    }
}

proof fn lemma_tracks_sound(p: Project, ts: Seq<(String, ProjectTrack)>)
    ensures
        collected_sound(p, collect_tracks(p, ts)),
    decreases ts.len(),
{
    if ts.len() > 0 {
        lemma_tracks_sound(p, ts.drop_last());
        let t = ts.last().1;
        lemma_ids_sound(p, collect_tracks(p, ts.drop_last()), t.role@ == "main"@, t.clip_order@);
    }
}

proof fn lemma_ids_bad(p: Project, acc: Collected, is_main: bool, ids: Seq<String>, j: int)
    requires
        0 <= j < ids.len(),
        clip_fault(p, ids[j]@) is Some,
    ensures
        collect_ids(p, acc, is_main, ids) is Err,
    decreases ids.len(),
{
    if j < ids.len() - 1 {
        lemma_ids_bad(p, acc, is_main, ids.drop_last(), j);
    }
}

proof fn lemma_tracks_bad(p: Project, ts: Seq<(String, ProjectTrack)>, t: int, j: int)
    requires
        0 <= t < ts.len(),
        0 <= j < ts[t].1.clip_order@.len(),
        clip_fault(p, ts[t].1.clip_order@[j]@) is Some,
    ensures
        collect_tracks(p, ts) is Err,
    decreases ts.len(),
{
    let last = ts.last().1;
    if t == ts.len() - 1 {
        lemma_ids_bad(p, collect_tracks(p, ts.drop_last()), last.role@ == "main"@, last.clip_order@, j);
    } else {
        lemma_tracks_bad(p, ts.drop_last(), t, j);
        let e = collect_tracks(p, ts.drop_last())->Err_0;
        lemma_ids_err(p, e, last.role@ == "main"@, last.clip_order@);
    }
}

/// Every element of `s` satisfies `f`.
pub open spec fn all_clips(s: Seq<ClipModel>, f: spec_fn(ClipModel) -> bool) -> bool {
    forall|i: int| 0 <= i < s.len() ==> f(#[trigger] s[i])
}

proof fn lemma_insert_all(s: Seq<ClipModel>, c: ClipModel, f: spec_fn(ClipModel) -> bool)
    requires
        all_clips(s, f),
        f(c),
    ensures
        all_clips(insert_by_start(s, c), f),
        insert_by_start(s, c).len() == s.len() + 1,
    decreases s.len(),
{
    if s.len() > 0 && s.last().start_ms > c.start_ms {
        lemma_insert_all(s.drop_last(), c, f);
        let r = insert_by_start(s.drop_last(), c);
        assert forall|i: int| 0 <= i < r.push(s.last()).len() implies f(#[trigger] r.push(s.last())[i]) by {
            if i < r.len() { assert(r.push(s.last())[i] == r[i]); }
        }
    } else if s.len() > 0 {
        assert forall|i: int| 0 <= i < s.push(c).len() implies f(#[trigger] s.push(c)[i]) by {
            if i < s.len() { assert(s.push(c)[i] == s[i]); }
        }
    }
}

proof fn lemma_sort_all(s: Seq<ClipModel>, f: spec_fn(ClipModel) -> bool)
    requires
        all_clips(s, f),
    ensures
        all_clips(sort_by_start(s), f),
        sort_by_start(s).len() == s.len(),
    decreases s.len(),
{
    if s.len() > 0 {
        assert(all_clips(s.drop_last(), f)) by {
            assert forall|i: int| 0 <= i < s.drop_last().len() implies f(#[trigger] s.drop_last()[i]) by {
                assert(s.drop_last()[i] == s[i]);
            }
        }
        lemma_sort_all(s.drop_last(), f);
        assert(f(s[s.len() - 1]));
        lemma_insert_all(sort_by_start(s.drop_last()), s.last(), f);
    }
}

proof fn lemma_insert_sorted(s: Seq<ClipModel>, c: ClipModel)
    requires
        sorted_by_start(s),
    ensures
        sorted_by_start(insert_by_start(s, c)),
    decreases s.len(),
{
    if s.len() > 0 {
        let last = s.last();
        if last.start_ms <= c.start_ms {
            let r = s.push(c);
            assert forall|i: int, j: int| 0 <= i < j < r.len() implies r[i].start_ms <= r[j].start_ms by {
                if j == s.len() {
                    assert(s[i].start_ms <= last.start_ms);
                } else {
                    assert(r[i] == s[i] && r[j] == s[j]);
                }
            }
        } else {
            let d = s.drop_last();
            assert(sorted_by_start(d));
            lemma_insert_sorted(d, c);
            let f = |x: ClipModel| x.start_ms <= last.start_ms;
            assert(all_clips(d, f)) by {
                assert forall|i: int| 0 <= i < d.len() implies f(#[trigger] d[i]) by {
                    assert(d[i] == s[i]);
                }
            }
            lemma_insert_all(d, c, f);
            let q = insert_by_start(d, c);
            let r = q.push(last);
            assert forall|i: int, j: int| 0 <= i < j < r.len() implies r[i].start_ms <= r[j].start_ms by {
                if j == q.len() {
                    assert(f(q[i]));
                } else {
                    assert(r[i] == q[i] && r[j] == q[j]);
                }
            }
        }
    }
}

proof fn lemma_sort_sorted(s: Seq<ClipModel>)
    ensures
        sorted_by_start(sort_by_start(s)),
    decreases s.len(),
{
    if s.len() > 0 {
        lemma_sort_sorted(s.drop_last());
        lemma_insert_sorted(sort_by_start(s.drop_last()), s.last());
    }
}

proof fn lemma_sorted_disjoint(s: Seq<ClipModel>)
    requires
        sorted_by_start(s),
        consecutive_disjoint(s),
    ensures
        pairwise_disjoint(s),
{
    assert forall|i: int, j: int| 0 <= i < j < s.len() implies s[i].end_ms <= s[j].start_ms by {
        assert(s[i].end_ms <= s[i + 1].start_ms);
    }
}

/// A built plan's main track has non-empty trim windows, is ordered by
/// start, and no clip ends after a later one starts; a description whose
/// ordered main track overlaps is rejected.
pub proof fn lemma_plan_main_track_ordered(p: Project)
    ensures
        plan_of(p) matches Ok(m) ==> m.wf() && pairwise_disjoint(m.main) && trims_valid(m.overlay)
            && placements_valid(m.overlay),
        collect_tracks(p, p.tracks@) matches Ok((main, _))
            && !pairwise_disjoint(sort_by_start(main))
            ==> plan_of(p) == Result::<PlanModel, PlanErrorModel>::Err(PlanErrorModel::OverlappingClips),
{
    lemma_tracks_sound(p, p.tracks@);
    if let Ok((m, o)) = collect_tracks(p, p.tracks@) {
        let f = |x: ClipModel| x.in_ms < x.out_ms;
        assert(all_clips(m, f));
        lemma_sort_all(m, f);
        lemma_sort_sorted(m);
        let sm = sort_by_start(m);
        assert(trims_valid(sm)) by {
            assert forall|i: int| 0 <= i < sm.len() implies sm[i].in_ms < #[trigger] sm[i].out_ms by {
                assert(f(sm[i]));
            }
        }
        let g = |x: ClipModel| x.start_ms < x.end_ms;
        assert(all_clips(m, g));
        lemma_sort_all(m, g);
        assert(placements_valid(sm)) by {
            assert forall|i: int| 0 <= i < sm.len() implies sm[i].start_ms < #[trigger] sm[i].end_ms by {
                assert(g(sm[i]));
            }
        }
        if consecutive_disjoint(sm) {
            lemma_sorted_disjoint(sm);
        }
    }
}

/// The build failed with an error naming a clip of `p` that is invalid.
pub open spec fn rejected_for_invalid_clip(p: Project, r: Result<PlanModel, PlanErrorModel>) -> bool {
    match r {
        Err(PlanErrorModel::InvalidTrimWindow(e)) => names_bad_trim(p, e),
        Err(PlanErrorModel::InvalidPlacement(e)) => names_bad_placement(p, e),
        _ => false,
    }
}

/// The build failed with an error naming a clip of `p` whose trim window is
/// empty.
pub open spec fn rejected_for_empty_trim(p: Project, r: Result<PlanModel, PlanErrorModel>) -> bool {
    r matches Err(PlanErrorModel::InvalidTrimWindow(e)) && names_bad_trim(p, e)
}

/// A description in which some track lists a clip whose trim window is
/// empty fails to build, whether or not the clip's asset exists. The error
/// names a listed clip that is invalid: one with an empty trim window, or one
/// with an empty placement met first. With no clip placed emptily, the
/// error is a trim-window error naming a clip with an empty trim window.
pub proof fn lemma_plan_rejects_empty_trim(p: Project, t: int, j: int)
    requires
        0 <= t < p.tracks@.len(),
        0 <= j < p.tracks@[t].1.clip_order@.len(),
        names_bad_trim(p, p.tracks@[t].1.clip_order@[j]@),
    ensures
        rejected_for_invalid_clip(p, plan_of(p)),
        (forall|id: Seq<char>| !names_bad_placement(p, id)) ==> rejected_for_empty_trim(p, plan_of(p)),
{
    lemma_tracks_bad(p, p.tracks@, t, j);
    lemma_tracks_sound(p, p.tracks@);
}

/// A description in which some track lists a clip whose trim window is
/// valid but whose placement is empty fails to build, and the error names a
/// listed clip that is invalid.
pub proof fn lemma_plan_rejects_empty_placement(p: Project, t: int, j: int)
    requires
        0 <= t < p.tracks@.len(),
        0 <= j < p.tracks@[t].1.clip_order@.len(),
        names_bad_placement(p, p.tracks@[t].1.clip_order@[j]@),
    ensures
        rejected_for_invalid_clip(p, plan_of(p)),
{
    lemma_tracks_bad(p, p.tracks@, t, j);
    lemma_tracks_sound(p, p.tracks@);
}

/// Two placements share some instant.
pub open spec fn overlaps(a: ClipModel, b: ClipModel) -> bool {
    a.start_ms < b.end_ms && b.start_ms < a.end_ms
}

/// Some clip of `x` overlaps `e`.
pub open spec fn overlaps_any(x: Seq<ClipModel>, e: ClipModel) -> bool {
    exists|k: int| 0 <= k < x.len() && overlaps(#[trigger] x[k], e)
}

/// Two clips at different positions of `x` overlap.
pub open spec fn has_overlap(x: Seq<ClipModel>) -> bool {
    exists|i: int, j: int| 0 <= i < j < x.len() && overlaps(#[trigger] x[i], #[trigger] x[j])
}

proof fn lemma_push_any(x: Seq<ClipModel>, y: ClipModel, e: ClipModel)
    ensures
        overlaps_any(x.push(y), e) == (overlaps_any(x, e) || overlaps(y, e)),
{
    let z = x.push(y);
    if overlaps_any(z, e) {
        let k = choose|k: int| 0 <= k < z.len() && overlaps(#[trigger] z[k], e);
        if k < x.len() {
            assert(z[k] == x[k]);
        }
    }
    if overlaps_any(x, e) {
        let k = choose|k: int| 0 <= k < x.len() && overlaps(#[trigger] x[k], e);
        assert(z[k] == x[k]);
    }
    if overlaps(y, e) {
        assert(z[x.len() as int] == y);
    }
}

proof fn lemma_push_overlap(x: Seq<ClipModel>, e: ClipModel)
    ensures
        has_overlap(x.push(e)) == (has_overlap(x) || overlaps_any(x, e)),
{
    let z = x.push(e);
    if has_overlap(z) {
        let (i, j) = choose|i: int, j: int| 0 <= i < j < z.len() && overlaps(#[trigger] z[i], #[trigger] z[j]);
        assert(z[i] == x[i]);
        if j < x.len() {
            assert(z[j] == x[j]);
        } else {
            assert(z[j] == e);
        }
    }
    if has_overlap(x) {
        let (i, j) = choose|i: int, j: int| 0 <= i < j < x.len() && overlaps(#[trigger] x[i], #[trigger] x[j]);
        assert(z[i] == x[i] && z[j] == x[j]);
    }
    if overlaps_any(x, e) {
        let k = choose|k: int| 0 <= k < x.len() && overlaps(#[trigger] x[k], e);
        assert(z[k] == x[k] && z[x.len() as int] == e);
    }
}

proof fn lemma_insert_any(s: Seq<ClipModel>, c: ClipModel, e: ClipModel)
    ensures
        overlaps_any(insert_by_start(s, c), e) == (overlaps_any(s, e) || overlaps(c, e)),
    decreases s.len(),
{
    if s.len() == 0 {
        lemma_push_any(s, c, e);
        assert(seq![c] =~= s.push(c));
    } else if s.last().start_ms <= c.start_ms {
        lemma_push_any(s, c, e);
    } else {
        let d = s.drop_last();
        lemma_insert_any(d, c, e);
        lemma_push_any(insert_by_start(d, c), s.last(), e);
        lemma_push_any(d, s.last(), e);
        assert(d.push(s.last()) =~= s);
    }
}

proof fn lemma_insert_overlap(s: Seq<ClipModel>, c: ClipModel)
    ensures
        has_overlap(insert_by_start(s, c)) == (has_overlap(s) || overlaps_any(s, c)),
    decreases s.len(),
{
    if s.len() == 0 {
        lemma_push_overlap(s, c);
        assert(seq![c] =~= s.push(c));
    } else if s.last().start_ms <= c.start_ms {
        lemma_push_overlap(s, c);
    } else {
        let d = s.drop_last();
        let l = s.last();
        lemma_insert_overlap(d, c);
        lemma_push_overlap(insert_by_start(d, c), l);
        lemma_insert_any(d, c, l);
        lemma_push_overlap(d, l);
        lemma_push_any(d, l, c);
        assert(d.push(l) =~= s);
    }
}

proof fn lemma_sort_any(s: Seq<ClipModel>, e: ClipModel)
    ensures
        overlaps_any(sort_by_start(s), e) == overlaps_any(s, e),
    decreases s.len(),
{
    if s.len() > 0 {
        let d = s.drop_last();
        lemma_sort_any(d, e);
        lemma_insert_any(sort_by_start(d), s.last(), e);
        lemma_push_any(d, s.last(), e);
        assert(d.push(s.last()) =~= s);
    }
}

proof fn lemma_sort_overlap(s: Seq<ClipModel>)
    ensures
        has_overlap(sort_by_start(s)) == has_overlap(s),
    decreases s.len(),
{
    if s.len() > 0 {
        let d = s.drop_last();
        lemma_sort_overlap(d);
        lemma_insert_overlap(sort_by_start(d), s.last());
        lemma_sort_any(d, s.last());
        lemma_push_overlap(d, s.last());
        assert(d.push(s.last()) =~= s);
    }
}

proof fn lemma_sorted_overlap(s: Seq<ClipModel>)
    requires
        sorted_by_start(s),
        placements_valid(s),
    ensures
        consecutive_disjoint(s) == !has_overlap(s),
{
    if consecutive_disjoint(s) {
        lemma_sorted_disjoint(s);
        if has_overlap(s) {
            let (i, j) = choose|i: int, j: int| 0 <= i < j < s.len() && overlaps(#[trigger] s[i], #[trigger] s[j]);
            assert(s[i].end_ms <= s[j].start_ms);
        }
    } else {
        let i = choose|i: int| 1 <= i < s.len() && !(s[i - 1].end_ms <= #[trigger] s[i].start_ms);
        assert(s[i - 1].start_ms <= s[i].start_ms);
        assert(s[i].start_ms < s[i].end_ms);
        assert(overlaps(s[i - 1], s[i]));
    }
}

/// Once every listed clip is valid, a description is rejected for overlap
/// exactly when two of the main-track clips collected (in track and clip
/// order, before any reordering) share some instant.
pub proof fn lemma_plan_overlap_iff(p: Project)
    ensures
        collect_tracks(p, p.tracks@) matches Ok((main, _)) ==> (
            plan_of(p) == Result::<PlanModel, PlanErrorModel>::Err(PlanErrorModel::OverlappingClips)
                <==> has_overlap(main)),
{
    lemma_tracks_sound(p, p.tracks@);
    if let Ok((m, o)) = collect_tracks(p, p.tracks@) {
        lemma_sort_sorted(m);
        let g = |x: ClipModel| x.start_ms < x.end_ms;
        assert(all_clips(m, g));
        lemma_sort_all(m, g);
        let sm = sort_by_start(m);
        assert(placements_valid(sm)) by {
            assert forall|i: int| 0 <= i < sm.len() implies sm[i].start_ms < #[trigger] sm[i].end_ms by {
                assert(g(sm[i]));
            }
        }
        lemma_sorted_overlap(sm);
        lemma_sort_overlap(m);
    }
}

} // verus!
