use vstd::prelude::*;

use crate::edit_plan::EditPlan;
use crate::text::{
    chars_of, copy_string, decimal, is_digit, lemma_decimal_digits, lemma_decimal_injective, push_char, push_decimal,
    push_str, push_zero_padded, zero_padded,
};

verus! {

/// `name` placed inside the directory `dir`, with `/` as the separator. An
/// absolute `name` (one that starts with `/`) stands for itself.
pub open spec fn join_path(dir: Seq<char>, name: Seq<char>) -> Seq<char> {
    if name.len() > 0 && name[0] == '/' {
        name
    } else if dir.len() == 0 || dir.last() == '/' {
        dir + name
    } else {
        dir + seq!['/'] + name
    }
}

/// `name` placed inside the directory `dir`.
pub fn join(dir: &String, name: &String) -> (r: String)
    ensures
        r@ == join_path(dir@, name@),
{
    let n = chars_of(name.as_str());
    if n.len() > 0 && n[0] == '/' {
        return copy_string(name);
    }
    let d = chars_of(dir.as_str());
    let mut r = copy_string(dir);
    if d.len() > 0 && d[d.len() - 1] != '/' {
        push_char(&mut r, '/');
    }
    push_str(&mut r, name.as_str());
    r
}

/// The file name of the preview frame of a plan at a time.
pub open spec fn preview_name(plan_id: Seq<char>, at_ms: nat) -> Seq<char> {
    plan_id + "_"@ + decimal(at_ms) + ".jpg"@
}

/// The file name of a plan's concat manifest.
pub open spec fn concat_list_name(plan_id: Seq<char>) -> Seq<char> {
    plan_id + "_concat.txt"@
}

/// The file name of the segment extracted from the main-track clip `index`.
pub open spec fn segment_name(index: nat) -> Seq<char> {
    "segment_"@ + zero_padded(index, 4) + ".mp4"@
}

/// The file name of a rendered output.
pub open spec fn render_name(plan_id: Seq<char>, ts_secs: nat, ext: Seq<char>) -> Seq<char> {
    plan_id + "_"@ + decimal(ts_secs) + "."@ + ext
}

/// The file name of a capture recording: `token` tells apart captures
/// started in the same second.
pub open spec fn capture_name(token: nat, ts_secs: nat, ext: Seq<char>) -> Seq<char> {
    "capture_"@ + decimal(token) + "_"@ + decimal(ts_secs) + "."@ + ext
}

proof fn lemma_digit_prefix(d1: Seq<char>, r1: Seq<char>, d2: Seq<char>, r2: Seq<char>)
    requires
        d1 + seq!['_'] + r1 == d2 + seq!['_'] + r2,
        forall|i: int| 0 <= i < d1.len() ==> is_digit(#[trigger] d1[i]),
        forall|i: int| 0 <= i < d2.len() ==> is_digit(#[trigger] d2[i]),
    ensures
        d1 == d2,
{
    let x = d1 + seq!['_'] + r1;
    let y = d2 + seq!['_'] + r2;
    if d1.len() < d2.len() {
        assert(x[d1.len() as int] == '_');
        assert(y[d1.len() as int] == d2[d1.len() as int]);
    } else if d2.len() < d1.len() {
        assert(y[d2.len() as int] == '_');
        assert(x[d2.len() as int] == d1[d2.len() as int]);
    }
    assert(d1 =~= x.subrange(0, d1.len() as int));
    assert(d2 =~= y.subrange(0, d2.len() as int));
}

proof fn lemma_join_relative(dir: Seq<char>, n1: Seq<char>, n2: Seq<char>)
    requires
        n1.len() > 0 && n1[0] != '/',
        n2.len() > 0 && n2[0] != '/',
        join_path(dir, n1) == join_path(dir, n2),
    ensures
        n1 == n2,
{
    let pre = if dir.len() == 0 || dir.last() == '/' { dir } else { dir + seq!['/'] };
    assert(join_path(dir, n1) =~= pre + n1);
    assert(join_path(dir, n2) =~= pre + n2);
    assert(n1 =~= (pre + n1).subrange(pre.len() as int, (pre + n1).len() as int));
    assert(n2 =~= (pre + n2).subrange(pre.len() as int, (pre + n2).len() as int));
}

proof fn lemma_capture_name_token(k1: nat, t1: nat, e1: Seq<char>, k2: nat, t2: nat, e2: Seq<char>)
    requires
        capture_name(k1, t1, e1) == capture_name(k2, t2, e2),
    ensures
        k1 == k2,
{
    reveal_strlit("_");
    let c = "capture_"@;
    let r1 = decimal(t1) + "."@ + e1;
    let r2 = decimal(t2) + "."@ + e2;
    let a1 = decimal(k1) + seq!['_'] + r1;
    let a2 = decimal(k2) + seq!['_'] + r2;
    assert(capture_name(k1, t1, e1) =~= c + a1);
    assert(capture_name(k2, t2, e2) =~= c + a2);
    assert(a1 =~= (c + a1).subrange(c.len() as int, (c + a1).len() as int));
    assert(a2 =~= (c + a2).subrange(c.len() as int, (c + a2).len() as int));
    lemma_decimal_digits(k1);
    lemma_decimal_digits(k2);
    lemma_digit_prefix(decimal(k1), r1, decimal(k2), r2);
    lemma_decimal_injective(k1, k2);
}

/// Captures with different tokens are written to different files of a
/// directory, whatever their start times and extensions.
pub proof fn lemma_capture_paths_differ(dir: Seq<char>, k1: nat, t1: nat, e1: Seq<char>, k2: nat, t2: nat, e2: Seq<char>)
    requires
        k1 != k2,
    ensures
        join_path(dir, capture_name(k1, t1, e1)) != join_path(dir, capture_name(k2, t2, e2)),
{
    let n1 = capture_name(k1, t1, e1);
    let n2 = capture_name(k2, t2, e2);
    if join_path(dir, n1) == join_path(dir, n2) {
        reveal_strlit("capture_");
        assert(n1[0] == "capture_"@[0]);
        assert(n2[0] == "capture_"@[0]);
        lemma_join_relative(dir, n1, n2);
        lemma_capture_name_token(k1, t1, e1, k2, t2, e2);
    }
}

/// The directories that intermediate and output artifacts go to.
pub struct CacheDirs {
    pub base: String,
    pub previews: String,
    pub segments: String,
    pub renders: String,
    pub captures: String,
}

fn join_str(dir: &String, name: &str) -> (r: String)
    ensures
        r@ == join_path(dir@, name@),
{
    join(dir, &String::from_str(name))
}

impl CacheDirs {
    /// The layout under an application data directory: `cache/previews`,
    /// `cache/segments`, `cache/captures`, and `projects` for rendered
    /// outputs. Creating the directories is left to the caller.
    pub fn new(app_data_dir: &String) -> (r: CacheDirs)
        ensures
            r.base@ == join_path(app_data_dir@, "cache"@),
            r.previews@ == join_path(r.base@, "previews"@),
            r.segments@ == join_path(r.base@, "segments"@),
            r.renders@ == join_path(app_data_dir@, "projects"@),
            r.captures@ == join_path(r.base@, "captures"@),
    {
        let base = join_str(app_data_dir, "cache");
        let previews = join_str(&base, "previews");
        let segments = join_str(&base, "segments");
        let renders = join_str(app_data_dir, "projects");
        let captures = join_str(&base, "captures");
        CacheDirs { base, previews, segments, renders, captures }
    }

    /// The path of the preview frame of `plan` at `at_ms`.
    pub fn preview_file(&self, plan: &EditPlan, at_ms: u64) -> (r: String)
        ensures
            r@ == join_path(self.previews@, preview_name(plan.id@, at_ms as nat)),
    {
        let mut name = copy_string(&plan.id);
        push_str(&mut name, "_");
        push_decimal(&mut name, at_ms);
        push_str(&mut name, ".jpg");
        join(&self.previews, &name)
    }

    /// The path of the concat manifest of `plan`.
    pub fn concat_list_path(&self, plan: &EditPlan) -> (r: String)
        ensures
            r@ == join_path(self.segments@, concat_list_name(plan.id@)),
    {
        let mut name = copy_string(&plan.id);
        push_str(&mut name, "_concat.txt");
        join(&self.segments, &name)
    }

    /// The path of the segment of the main-track clip `index`.
    pub fn segment_path(&self, index: usize) -> (r: String)
        ensures
            r@ == join_path(self.segments@, segment_name(index as nat)),
    {
        let mut name = String::from_str("segment_");
        push_zero_padded(&mut name, index as u64, 4);
        push_str(&mut name, ".mp4");
        join(&self.segments, &name)
    }

    /// The path of a rendered output of `plan` made at `ts_secs` (seconds
    /// since the Unix epoch) with extension `ext`.
    pub fn render_output_path(&self, plan: &EditPlan, ext: &str, ts_secs: u64) -> (r: String)
        ensures
            r@ == join_path(self.renders@, render_name(plan.id@, ts_secs as nat, ext@)),
    {
        let mut name = copy_string(&plan.id);
        push_str(&mut name, "_");
        push_decimal(&mut name, ts_secs);
        push_str(&mut name, ".");
        push_str(&mut name, ext);
        join(&self.renders, &name)
    }

    /// The path of capture `token` (a number no other capture uses, such as
    /// its session serial) started at `ts_secs` (seconds since the Unix
    /// epoch) with extension `ext`.
    pub fn capture_output_path(&self, ext: &str, ts_secs: u64, token: u64) -> (r: String)
        ensures
            r@ == join_path(self.captures@, capture_name(token as nat, ts_secs as nat, ext@)),
    {
        let mut name = String::from_str("capture_");
        push_decimal(&mut name, token);
        push_str(&mut name, "_");
        push_decimal(&mut name, ts_secs);
        push_str(&mut name, ".");
        push_str(&mut name, ext);
        join(&self.captures, &name)
    }
}

} // verus!
