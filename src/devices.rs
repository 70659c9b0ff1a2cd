use vstd::prelude::*;
use vstd::string::*;

use crate::capture::ListDevices;
use crate::text::{chars_of, has_infix, lower_of, lowercase, push_char, push_owned, str_contains, string_of, strings_view};

verus! {

/// `c` has the Unicode `White_Space` property.
pub open spec fn is_space(c: char) -> bool {
    let u = c as u32;
    (0x9 <= u && u <= 0xd) || u == 0x20 || u == 0x85 || u == 0xa0 || u == 0x1680
        || (0x2000 <= u && u <= 0x200a) || u == 0x2028 || u == 0x2029 || u == 0x202f
        || u == 0x205f || u == 0x3000
}

fn char_is_space(c: char) -> (r: bool)
    ensures
        r == is_space(c),
{
    let u = c as u32;
    (0x9 <= u && u <= 0xd) || u == 0x20 || u == 0x85 || u == 0xa0 || u == 0x1680
        || (0x2000 <= u && u <= 0x200a) || u == 0x2028 || u == 0x2029 || u == 0x202f
        || u == 0x205f || u == 0x3000
}

/// The first index at or after `i` that holds no white space, or the length.
pub open spec fn skip_space_from(s: Seq<char>, i: int) -> int
    decreases s.len() - i,
{
    if i < 0 || i >= s.len() {
        s.len() as int
    } else if is_space(s[i]) {
        skip_space_from(s, i + 1)
    } else {
        i
    }
}

/// The end of `s.subrange(0, j)` once trailing white space is dropped.
pub open spec fn trim_end_at(s: Seq<char>, j: int) -> int
    decreases j,
{
    if j <= 0 || j > s.len() {
        0
    } else if is_space(s[j - 1]) {
        trim_end_at(s, j - 1)
    } else {
        j
    }
}

/// `s` without leading and trailing white space.
pub open spec fn trimmed(s: Seq<char>) -> Seq<char> {
    let a = skip_space_from(s, 0);
    let b = trim_end_at(s, s.len() as int);
    if a >= b { Seq::empty() } else { s.subrange(a, b) }
}

/// The first index at or after `i` that holds `c`, or the length.
pub open spec fn find_char_from(s: Seq<char>, c: char, i: int) -> int
    decreases s.len() - i,
{
    if i < 0 || i >= s.len() {
        s.len() as int
    } else if s[i] == c {
        i
    } else {
        find_char_from(s, c, i + 1)
    }
}

proof fn lemma_skip_bounds(s: Seq<char>, i: int)
    requires
        0 <= i <= s.len(),
    ensures
        i <= skip_space_from(s, i) <= s.len(),
    decreases s.len() - i,
{
    if i < s.len() && is_space(s[i]) {
        lemma_skip_bounds(s, i + 1);
    }
}

proof fn lemma_trim_end_bounds(s: Seq<char>, j: int)
    requires
        0 <= j <= s.len(),
    ensures
        0 <= trim_end_at(s, j) <= j,
    decreases j,
{
    if j > 0 && is_space(s[j - 1]) {
        lemma_trim_end_bounds(s, j - 1);
    }
}

/// The first index at or after `i` that holds `c`, or the length.
fn find_char(v: &Vec<char>, c: char, i: usize) -> (r: usize)
    requires
        i <= v@.len(),
    ensures
        r == find_char_from(v@, c, i as int),
        i <= r <= v@.len(),
{
    let mut k = i;
    while k < v.len() && v[k] != c
        invariant
            i <= k <= v@.len(),
            find_char_from(v@, c, i as int) == find_char_from(v@, c, k as int),
        decreases v.len() - k,
    {
        k = k + 1;
    }
    k
}

/// The characters of `v` from `from` to `to` without leading and trailing
/// white space.
fn trim_range(v: &Vec<char>, from: usize, to: usize) -> (r: String)
    requires
        from <= to <= v@.len(),
    ensures
        r@ == trimmed(v@.subrange(from as int, to as int)),
{
    let ghost s = v@.subrange(from as int, to as int);
    let mut a = from;
    while a < to && char_is_space(v[a])
        invariant
            from <= a <= to,
            to <= v@.len(),
            s == v@.subrange(from as int, to as int),
            skip_space_from(s, 0) == skip_space_from(s, a - from),
        decreases to - a,
    {
        assert(s[a - from] == v@[a as int]);
        a = a + 1;
    }
    if a < to {
        assert(s[a - from] == v@[a as int]);
    }
    let mut b = to;
    while b > a && char_is_space(v[b - 1])
        invariant
            from <= a <= b <= to,
            to <= v@.len(),
            s == v@.subrange(from as int, to as int),
            a < to ==> !is_space(v@[a as int]) && b > a,
            trim_end_at(s, s.len() as int) == trim_end_at(s, b - from),
        decreases b,
    {
        assert(s[b - from - 1] == v@[b - 1]);
        b = b - 1;
    }
    proof {
        lemma_skip_bounds(s, 0);
        lemma_trim_end_bounds(s, s.len() as int);
        if b > a {
            assert(s[b - from - 1] == v@[b - 1]);
        }
    }
    let mut r = String::new();
    let mut k = a;
    while k < b
        invariant
            a <= k <= b <= to,
            to <= v@.len(),
            r@ == v@.subrange(a as int, k as int),
        decreases b - k,
    {
        push_char(&mut r, v[k]);
        k = k + 1;
        assert(r@ =~= v@.subrange(a as int, k as int));
    }
    assert(r@ =~= trimmed(s));
    r
}

/// `l` without one trailing carriage return.
pub open spec fn strip_cr(l: Seq<char>) -> Seq<char> {
    if l.len() > 0 && l.last() == '\r' { l.drop_last() } else { l }
}

/// The finished lines of `s` and the line still open at its end.
pub open spec fn scan_lines(s: Seq<char>) -> (Seq<Seq<char>>, Seq<char>)
    decreases s.len(),
{
    if s.len() == 0 {
        (Seq::empty(), Seq::empty())
    } else {
        let (done, cur) = scan_lines(s.drop_last());
        if s.last() == '\n' {
            (done.push(strip_cr(cur)), Seq::empty())
        } else {
            (done, cur.push(s.last()))
        }
    }
}

/// The lines of `s`: split at each `\n`, a `\r` before it dropped, with no
/// empty line after a final `\n`.
pub open spec fn text_lines(s: Seq<char>) -> Seq<Seq<char>> {
    let (done, cur) = scan_lines(s);
    if cur.len() == 0 { done } else { done.push(cur) }
}

/// The lines of `text`.
pub fn split_lines(text: &str) -> (r: Vec<String>)
    ensures
        strings_view(r@) == text_lines(text@),
{
    let v = chars_of(text);
    let mut done: Vec<String> = Vec::new();
    let mut cur: Vec<char> = Vec::new();
    let mut i: usize = 0;
    assert(v@.subrange(0, 0) =~= Seq::<char>::empty());
    assert(strings_view(done@) =~= Seq::<Seq<char>>::empty());
    while i < v.len()
        invariant
            v@ == text@,
            i <= v@.len(),
            (strings_view(done@), cur@) == scan_lines(v@.subrange(0, i as int)),
        decreases v.len() - i,
    {
        assert(v@.subrange(0, i + 1).drop_last() =~= v@.subrange(0, i as int));
        assert(v@.subrange(0, i + 1).last() == v@[i as int]);
        if v[i] == '\n' {
            let ghost c = cur@;
            if cur.len() > 0 && cur[cur.len() - 1] == '\r' {
                cur.pop();
            }
            assert(cur@ == strip_cr(c));
            push_owned(&mut done, string_of(&cur));
            cur = Vec::new();
            assert(cur@ =~= Seq::<char>::empty());
        } else {
            cur.push(v[i]);
        }
        i = i + 1;
    }
    assert(v@.subrange(0, v@.len() as int) =~= v@);
    if cur.len() > 0 {
        push_owned(&mut done, string_of(&cur));
    }
    done
}

/// The device-entry lines of a listing: they hold a `]` with text after
/// it, and are neither section banners nor input-device notices.
pub open spec fn is_device_entry(line: Seq<char>) -> bool {
    let k = find_char_from(line, ']', 0);
    &&& k < line.len()
    &&& trimmed(line.subrange(k + 1, line.len() as int)).len() > 0
    &&& !has_infix(line, "[AVFoundation input device @"@)
    &&& !has_infix(line, "video devices:"@)
    &&& !has_infix(line, "audio devices:"@)
}

/// The name of a device entry: the text between its first and second `]`
/// (or the end), trimmed.
pub open spec fn device_name(line: Seq<char>) -> Seq<char> {
    let k = find_char_from(line, ']', 0);
    trimmed(line.subrange(k + 1, find_char_from(line, ']', k + 1)))
}

/// The class of a device entry.
pub enum DeviceLine {
    Display(String),
    Audio(String),
}

/// The name of the device that `line` lists, if it is a device entry.
pub fn device_entry_name(line: &str) -> (r: Option<String>)
    ensures
        match r {
            None => !is_device_entry(line@),
            Some(name) => is_device_entry(line@) && name@ == device_name(line@),
        },
{
    let v = chars_of(line);
    let k = find_char(&v, ']', 0);
    if k >= v.len() {
        return None;
    }
    let rest = trim_range(&v, k + 1, v.len());
    if rest.as_str().unicode_len() == 0 {
        return None;
    }
    if str_contains(line, "[AVFoundation input device @") || str_contains(line, "video devices:")
        || str_contains(line, "audio devices:") {
        return None;
    }
    let end = find_char(&v, ']', k + 1);
    Some(trim_range(&v, k + 1, end))
}

/// Classifies a device by its name, given the name's lowercase form
/// `lowered`: an audio input when that holds "audio", else a display.
pub fn classify_device_name(name: String, lowered: &str) -> (r: DeviceLine)
    ensures
        match r {
            DeviceLine::Audio(n) => has_infix(lowered@, "audio"@) && n@ == name@,
            DeviceLine::Display(n) => !has_infix(lowered@, "audio"@) && n@ == name@,
        },
{
    if str_contains(lowered, "audio") {
        DeviceLine::Audio(name)
    } else {
        DeviceLine::Display(name)
    }
}

/// The displays that the listing `lines` names, in order.
pub open spec fn displays_of(lines: Seq<Seq<char>>) -> Seq<Seq<char>>
    decreases lines.len(),
{
    if lines.len() == 0 {
        Seq::empty()
    } else {
        let prev = displays_of(lines.drop_last());
        let l = lines.last();
        if is_device_entry(l) && !has_infix(lower_of(device_name(l)), "audio"@) { prev.push(device_name(l)) } else { prev }
    }
}

/// The audio inputs that the listing `lines` names, in order.
pub open spec fn audio_inputs_of(lines: Seq<Seq<char>>) -> Seq<Seq<char>>
    decreases lines.len(),
{
    if lines.len() == 0 {
        Seq::empty()
    } else {
        let prev = audio_inputs_of(lines.drop_last());
        let l = lines.last();
        if is_device_entry(l) && has_infix(lower_of(device_name(l)), "audio"@) { prev.push(device_name(l)) } else { prev }
    }
}

/// Sorts the device entries of a device listing into displays and audio
/// inputs by whether the lowercase device name holds "audio"; lines that
/// are no device entry are left out.
pub fn classify_device_lines(text: &str) -> (r: ListDevices)
    ensures
        strings_view(r.displays@) == displays_of(text_lines(text@)),
        strings_view(r.audio_inputs@) == audio_inputs_of(text_lines(text@)),
{
    let lines = split_lines(text);
    let ghost ls = text_lines(text@);
    let mut displays: Vec<String> = Vec::new();
    let mut audio: Vec<String> = Vec::new();
    let mut i: usize = 0;
    assert(ls.subrange(0, 0) =~= Seq::<Seq<char>>::empty());
    assert(strings_view(displays@) =~= Seq::<Seq<char>>::empty());
    assert(strings_view(audio@) =~= Seq::<Seq<char>>::empty());
    while i < lines.len()
        invariant
            strings_view(lines@) == ls,
            i <= ls.len(),
            strings_view(displays@) == displays_of(ls.subrange(0, i as int)),
            strings_view(audio@) == audio_inputs_of(ls.subrange(0, i as int)),
        decreases lines.len() - i,
    {
        let line = lines[i].as_str();
        assert(ls.subrange(0, i + 1).drop_last() =~= ls.subrange(0, i as int));
        assert(ls.subrange(0, i + 1).last() == line@);
        match device_entry_name(line) {
            None => {},
            Some(name) => {
                let lowered = lowercase(name.as_str());
                match classify_device_name(name, lowered.as_str()) {
                    DeviceLine::Display(n) => push_owned(&mut displays, n),
                    DeviceLine::Audio(n) => push_owned(&mut audio, n),
                }
            },
        }
        i = i + 1;
    }
    assert(ls.subrange(0, ls.len() as int) =~= ls);
    ListDevices { displays, audio_inputs: audio }
}

} // verus!
