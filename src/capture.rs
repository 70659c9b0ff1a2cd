use vstd::prelude::*;
use vstd::string::*;

use crate::cache::{capture_name, join_path, lemma_capture_paths_differ, CacheDirs};
use crate::text::{copy_string, decimal, is_digit, push_lit, push_owned, strings_view, lemma_decimal_digits, lemma_decimal_injective, push_decimal, push_str};

verus! {

/// Settings of a capture: which display and audio input to record, and at
/// what frame rate.
pub struct RecordSettings {
    pub display_index: Option<u32>,
    pub audio_index: Option<u32>,
    pub fps: Option<u32>,
}

/// The capture devices found: displays and audio inputs, in listing order.
pub struct ListDevices {
    pub displays: Vec<String>,
    pub audio_inputs: Vec<String>,
}

/// The display recorded when none is chosen.
pub const DEFAULT_DISPLAY: u32 = 1;

/// The frame rate recorded when none is chosen.
pub const DEFAULT_FPS: u32 = 30;

/// The device selector of a capture: `display:audio`, or `display:none`
/// when no audio input (or input zero) is chosen.
pub open spec fn device_selector(s: RecordSettings) -> Seq<char> {
    let display = match s.display_index { Some(d) => d, None => DEFAULT_DISPLAY };
    let audio = match s.audio_index { Some(a) => a, None => 0 };
    if audio > 0 {
        decimal(display as nat) + ":"@ + decimal(audio as nat)
    } else {
        decimal(display as nat) + ":none"@
    }
}

/// The tool arguments that record the selected devices into `dest`.
pub open spec fn capture_args(s: RecordSettings, dest: Seq<char>) -> Seq<Seq<char>> {
    let fps = match s.fps { Some(f) => f, None => DEFAULT_FPS };
    seq!["-f"@, "avfoundation"@, "-framerate"@, decimal(fps as nat), "-i"@, device_selector(s),
        "-pix_fmt"@, "yuv420p"@, "-preset"@, "veryfast"@, "-crf"@, "23"@, dest]
}

/// The device selector of a capture.
pub fn input_device(settings: &RecordSettings) -> (r: String)
    ensures
        r@ == device_selector(*settings),
{
    let display = match settings.display_index { Some(d) => d, None => DEFAULT_DISPLAY };
    let audio = match settings.audio_index { Some(a) => a, None => 0 };
    let mut r = String::new();
    push_decimal(&mut r, display as u64);
    if audio > 0 {
        push_str(&mut r, ":");
        push_decimal(&mut r, audio as u64);
    } else {
        push_str(&mut r, ":none");
    }
    assert(r@ =~= device_selector(*settings));
    r
}

/// The tool arguments that record the devices `settings` selects into
/// `dest`.
pub fn capture_command(settings: &RecordSettings, dest: &String) -> (r: Vec<String>)
    ensures
        strings_view(r@) == capture_args(*settings, dest@),
{
    let fps = match settings.fps { Some(f) => f, None => DEFAULT_FPS };
    let mut rate = String::new();
    push_decimal(&mut rate, fps as u64);
    assert(rate@ =~= decimal(fps as nat));
    let mut v: Vec<String> = Vec::new();
    push_lit(&mut v, "-f");
    push_lit(&mut v, "avfoundation");
    push_lit(&mut v, "-framerate");
    push_owned(&mut v, rate);
    push_lit(&mut v, "-i");
    push_owned(&mut v, input_device(settings));
    push_lit(&mut v, "-pix_fmt");
    push_lit(&mut v, "yuv420p");
    push_lit(&mut v, "-preset");
    push_lit(&mut v, "veryfast");
    push_lit(&mut v, "-crf");
    push_lit(&mut v, "23");
    push_owned(&mut v, copy_string(dest));
    assert(strings_view(v@) =~= capture_args(*settings, dest@));
    v
}

/// The identifier of the session started at `started_ms` (milliseconds
/// since the Unix epoch) with serial number `serial`.
pub open spec fn session_id(started_ms: nat, serial: nat) -> Seq<char> {
    "rec_"@ + decimal(started_ms) + "_"@ + decimal(serial)
}

proof fn lemma_digit_suffix(a1: Seq<char>, d1: Seq<char>, a2: Seq<char>, d2: Seq<char>)
    requires
        a1 + seq!['_'] + d1 == a2 + seq!['_'] + d2,
        forall|i: int| 0 <= i < d1.len() ==> is_digit(#[trigger] d1[i]),
        forall|i: int| 0 <= i < d2.len() ==> is_digit(#[trigger] d2[i]),
    ensures
        d1 == d2,
{
    let x = a1 + seq!['_'] + d1;
    let y = a2 + seq!['_'] + d2;
    let l = x.len();
    if d1.len() < d2.len() {
        let p = l - d1.len() - 1;
        assert(x[p] == '_');
        assert(y[p] == d2[p - a2.len() - 1]);
        assert(false);
    } else if d2.len() < d1.len() {
        let p = l - d2.len() - 1;
        assert(y[p] == '_');
        assert(x[p] == d1[p - a1.len() - 1]);
        assert(false);
    }
    assert(d1 =~= x.subrange(l - d1.len(), l as int));
    assert(d2 =~= y.subrange(l - d2.len(), l as int));
}

/// Sessions with different serial numbers have different identifiers.
pub proof fn lemma_session_ids_differ(t1: nat, s1: nat, t2: nat, s2: nat)
    requires
        s1 != s2,
    ensures
        session_id(t1, s1) != session_id(t2, s2),
{
    if session_id(t1, s1) == session_id(t2, s2) {
        reveal_strlit("_");
        lemma_decimal_digits(s1);
        lemma_decimal_digits(s2);
        assert(session_id(t1, s1) =~= ("rec_"@ + decimal(t1)) + seq!['_'] + decimal(s1));
        assert(session_id(t2, s2) =~= ("rec_"@ + decimal(t2)) + seq!['_'] + decimal(s2));
        lemma_digit_suffix("rec_"@ + decimal(t1), decimal(s1), "rec_"@ + decimal(t2), decimal(s2));
        lemma_decimal_injective(s1, s2);
    }
}

/// A running capture: its process handle and the file it records to.
pub struct CaptureSession<H> {
    pub id: String,
    pub serial: u64,
    pub started_ms: u64,
    pub handle: H,
    pub output_path: String,
}

/// The mathematical value of a [`CaptureSession`].
pub struct SessionModel<H> {
    pub id: Seq<char>,
    pub serial: u64,
    pub started_ms: u64,
    pub handle: H,
    pub output: Seq<char>,
}

impl<H> View for CaptureSession<H> {
    type V = SessionModel<H>;

    open spec fn view(&self) -> SessionModel<H> {
        SessionModel {
            id: self.id@,
            serial: self.serial,
            started_ms: self.started_ms,
            handle: self.handle,
            output: self.output_path@,
        }
    }
}

/// Why a capture request failed.
#[derive(PartialEq, Eq, Structural)]
pub enum CaptureError {
    /// No session is registered under the identifier.
    SessionNotFound,
}

impl CaptureError {
    /// The error as one descriptive line.
    pub fn message(&self) -> (r: String)
        ensures
            r@ == "recording id not found"@,
    {
        String::from_str("recording id not found")
    }
}

/// The running captures, each under its own identifier.
pub struct CaptureRegistry<H> {
    pub sessions: Vec<CaptureSession<H>>,
    pub next_serial: u64,
}

/// The mathematical value of a [`CaptureRegistry`].
pub struct RegistryModel<H> {
    pub sessions: Seq<SessionModel<H>>,
    pub next_serial: u64,
}

impl<H> View for CaptureRegistry<H> {
    type V = RegistryModel<H>;

    open spec fn view(&self) -> RegistryModel<H> {
        RegistryModel {
            sessions: self.sessions@.map_values(|c: CaptureSession<H>| c@),
            next_serial: self.next_serial,
        }
    }
}

/// The index of the first session at or after `i` registered under `id`,
/// or -1.
pub open spec fn find_session_from<H>(s: Seq<SessionModel<H>>, id: Seq<char>, i: int) -> int
    decreases s.len() - i,
{
    if i < 0 || i >= s.len() {
        -1
    } else if s[i].id == id {
        i
    } else {
        find_session_from(s, id, i + 1)
    }
}

/// The index of the session registered under `id`, or -1.
pub open spec fn find_session<H>(s: Seq<SessionModel<H>>, id: Seq<char>) -> int {
    find_session_from(s, id, 0)
}

impl<H> RegistryModel<H> {
    /// Each session's identifier comes from its start time and a serial
    /// number below `next_serial`, and no two sessions share a serial.
    pub open spec fn wf(&self) -> bool {
        &&& forall|k: int| 0 <= k < self.sessions.len() ==> {
            &&& (#[trigger] self.sessions[k]).id == session_id(self.sessions[k].started_ms as nat, self.sessions[k].serial as nat)
            &&& self.sessions[k].serial < self.next_serial
        }
        &&& forall|j: int, k: int| 0 <= j < k < self.sessions.len() ==>
            (#[trigger] self.sessions[j]).serial != (#[trigger] self.sessions[k]).serial
    }

    /// `id` names a registered session.
    pub open spec fn has(&self, id: Seq<char>) -> bool {
        exists|k: int| 0 <= k < self.sessions.len() && (#[trigger] self.sessions[k]).id == id
    }

    /// The registry after a session starts at `started_ms`.
    pub open spec fn registered(&self, started_ms: u64, handle: H, output: Seq<char>) -> RegistryModel<H> {
        RegistryModel {
            sessions: self.sessions.push(SessionModel {
                id: session_id(started_ms as nat, self.next_serial as nat),
                serial: self.next_serial,
                started_ms,
                handle,
                output,
            }),
            next_serial: (self.next_serial + 1) as u64,
        }
    }

    /// The registry after the session under `id`, if any, is taken out.
    pub open spec fn without(&self, id: Seq<char>) -> RegistryModel<H> {
        let k = find_session(self.sessions, id);
        if k < 0 {
            *self
        } else {
            RegistryModel { sessions: self.sessions.remove(k), next_serial: self.next_serial }
        }
    }
}

impl<H> CaptureRegistry<H> {
    /// An empty registry.
    pub fn new() -> (r: CaptureRegistry<H>)
        ensures
            r@.wf(),
            r@.sessions.len() == 0,
            r@.next_serial == 0,
    {
        let r = CaptureRegistry { sessions: Vec::new(), next_serial: 0 };
        assert(r@.sessions =~= Seq::<SessionModel<H>>::empty());
        r
    }

    /// The output path for the next session to register, started at
    /// `ts_secs` (seconds since the Unix epoch): the session's serial number
    /// is the path's token.
    pub fn next_capture_path(&self, dirs: &CacheDirs, ext: &str, ts_secs: u64) -> (r: String)
        ensures
            r@ == join_path(dirs.captures@, capture_name(self.next_serial as nat, ts_secs as nat, ext@)),
    {
        dirs.capture_output_path(ext, ts_secs, self.next_serial)
    }

    /// The number of running sessions.
    pub fn len(&self) -> (r: usize)
        ensures
            r == self@.sessions.len(),
    {
        self.sessions.len()
    }

    /// Registers a session started at `started_ms` (milliseconds since the
    /// Unix epoch) and returns its identifier, which no other session of
    /// the registry has.
    pub fn register(&mut self, started_ms: u64, handle: H, output_path: String) -> (id: String)
        requires
            old(self)@.wf(),
            old(self).next_serial < u64::MAX,
        ensures
            id@ == session_id(started_ms as nat, old(self).next_serial as nat),
            !old(self)@.has(id@),
            final(self)@ == old(self)@.registered(started_ms, handle, output_path@),
            final(self)@.wf(),
    {
        let serial = self.next_serial;
        let mut id = String::from_str("rec_");
        push_decimal(&mut id, started_ms);
        push_str(&mut id, "_");
        push_decimal(&mut id, serial);
        assert(id@ =~= session_id(started_ms as nat, serial as nat));
        let ghost before = self@;
        proof {
            lemma_registered_wf(before, started_ms, handle, output_path@);
        }
        let ghost out = output_path@;
        let ghost h = handle;
        let session = CaptureSession { id: copy_string(&id), serial, started_ms, handle, output_path };
        self.sessions.push(session);
        self.next_serial = serial + 1;
        assert(self@.sessions =~= before.registered(started_ms, h, out).sessions);
        id
    }

    /// Takes the session registered under `id` out of the registry; fails
    /// with `SessionNotFound`, changing nothing, when there is none.
    pub fn remove(&mut self, id: &String) -> (r: Result<CaptureSession<H>, CaptureError>)
        requires
            old(self)@.wf(),
        ensures
            final(self)@ == old(self)@.without(id@),
            final(self)@.wf(),
            match r {
                Ok(s) => old(self)@.has(id@) && s@ == old(self)@.sessions[find_session(old(self)@.sessions, id@)],
                Err(e) => !old(self)@.has(id@) && e == CaptureError::SessionNotFound,
            },
    {
        let ghost before = self@;
        let mut i: usize = 0;
        while i < self.sessions.len()
            invariant
                before == self@,
                before == old(self)@,
                before.wf(),
                i <= self.sessions@.len(),
                find_session(before.sessions, id@) == find_session_from(before.sessions, id@, i as int),
                forall|k: int| 0 <= k < i ==> (#[trigger] before.sessions[k]).id != id@,
            decreases self.sessions.len() - i,
        {
            if self.sessions[i].id == *id {
                proof {
                    assert(before.sessions[i as int] == self.sessions@[i as int]@);
                    assert(find_session_from(before.sessions, id@, i as int) == i);
                }
                let s = self.sessions.remove(i);
                proof {
                    assert(s@ == before.sessions[i as int]);
                    assert(before.sessions[i as int].id == id@);
                    assert(self@.sessions =~= before.sessions.remove(i as int));
                    lemma_remove_keeps_wf(before, i as int);
                }
                return Ok(s);
            }
            proof {
                assert(before.sessions[i as int] == self.sessions@[i as int]@);
            }
            i = i + 1;
        }
        Err(CaptureError::SessionNotFound)
    }
}

proof fn lemma_remove_keeps_wf<H>(m: RegistryModel<H>, i: int)
    requires
        m.wf(),
        0 <= i < m.sessions.len(),
    ensures
        (RegistryModel { sessions: m.sessions.remove(i), next_serial: m.next_serial }).wf(),
{
    let r = RegistryModel { sessions: m.sessions.remove(i), next_serial: m.next_serial };
    assert forall|k: int| 0 <= k < r.sessions.len() implies {
        &&& (#[trigger] r.sessions[k]).id == session_id(r.sessions[k].started_ms as nat, r.sessions[k].serial as nat)
        &&& r.sessions[k].serial < r.next_serial
    } by {
        if k < i { assert(r.sessions[k] == m.sessions[k]); } else { assert(r.sessions[k] == m.sessions[k + 1]); }
    }
    assert forall|j: int, k: int| 0 <= j < k < r.sessions.len() implies
        (#[trigger] r.sessions[j]).serial != (#[trigger] r.sessions[k]).serial by {
        let jj = if j < i { j } else { j + 1 };
        let kk = if k < i { k } else { k + 1 };
        assert(r.sessions[j] == m.sessions[jj]);
        assert(r.sessions[k] == m.sessions[kk]);
    }
}

proof fn lemma_registered_wf<H>(m: RegistryModel<H>, t: u64, h: H, o: Seq<char>)
    requires
        m.wf(),
        m.next_serial < u64::MAX,
    ensures
        m.registered(t, h, o).wf(),
        !m.has(session_id(t as nat, m.next_serial as nat)),
{
    let after = m.registered(t, h, o);
    assert forall|k: int| 0 <= k < m.sessions.len() implies
        (#[trigger] m.sessions[k]).id != session_id(t as nat, m.next_serial as nat) by {
        lemma_session_ids_differ(m.sessions[k].started_ms as nat, m.sessions[k].serial as nat,
            t as nat, m.next_serial as nat);
    }
    assert forall|j: int, k: int| 0 <= j < k < after.sessions.len() implies
        (#[trigger] after.sessions[j]).serial != (#[trigger] after.sessions[k]).serial by {
        assert(after.sessions[j] == m.sessions[j]);
        if k < m.sessions.len() {
            assert(after.sessions[k] == m.sessions[k]);
        }
    }
    assert forall|k: int| 0 <= k < after.sessions.len() implies {
        &&& (#[trigger] after.sessions[k]).id == session_id(after.sessions[k].started_ms as nat, after.sessions[k].serial as nat)
        &&& after.sessions[k].serial < after.next_serial
    } by {
        if k < m.sessions.len() {
            assert(after.sessions[k] == m.sessions[k]);
        }
    }
}

proof fn lemma_find_absent<H>(s: Seq<SessionModel<H>>, id: Seq<char>, i: int)
    requires
        0 <= i,
        forall|k: int| 0 <= k < s.len() ==> (#[trigger] s[k]).id != id,
    ensures
        find_session_from(s, id, i) == -1,
    decreases s.len() - i,
{
    if i < s.len() {
        lemma_find_absent(s, id, i + 1);
    }
}

proof fn lemma_find_present<H>(m: RegistryModel<H>, k: int, i: int)
    requires
        m.wf(),
        0 <= i <= k < m.sessions.len(),
    ensures
        find_session_from(m.sessions, m.sessions[k].id, i) == k,
    decreases k - i,
{
    if i < k {
        lemma_session_ids_differ(m.sessions[i].started_ms as nat, m.sessions[i].serial as nat,
            m.sessions[k].started_ms as nat, m.sessions[k].serial as nat);
        lemma_find_present(m, k, i + 1);
    }
}

/// Stopping an identifier that no session has fails and leaves the
/// registry as it was.
pub proof fn lemma_stop_unknown_changes_nothing<H>(m: RegistryModel<H>, id: Seq<char>)
    requires
        m.wf(),
        !m.has(id),
    ensures
        m.without(id) == m,
        find_session(m.sessions, id) == -1,
{
    lemma_find_absent(m.sessions, id, 0);
}

/// Two sessions started one after the other get different identifiers,
/// entries of their own and, when their paths come from the registry,
/// different output files; taking either out leaves the other, with its
/// handle and output path, in the registry.
pub proof fn lemma_sessions_independent<H>(
    m: RegistryModel<H>,
    t1: u64,
    h1: H,
    o1: Seq<char>,
    t2: u64,
    h2: H,
    o2: Seq<char>,
    dir: Seq<char>,
    ext: Seq<char>,
    secs1: nat,
    secs2: nat,
)
    requires
        m.wf(),
        m.next_serial + 2 <= u64::MAX,
    ensures
        ({
            let id1 = session_id(t1 as nat, m.next_serial as nat);
            let id2 = session_id(t2 as nat, (m.next_serial + 1) as nat);
            let m2 = m.registered(t1, h1, o1).registered(t2, h2, o2);
            let n = m.sessions.len() as int;
            &&& id1 != id2
            &&& join_path(dir, capture_name(m.next_serial as nat, secs1, ext))
                != join_path(dir, capture_name(m.registered(t1, h1, o1).next_serial as nat, secs2, ext))
            &&& m2.wf()
            &&& m2.sessions[find_session(m2.sessions, id1)].handle == h1
            &&& m2.sessions[find_session(m2.sessions, id1)].output == o1
            &&& m2.sessions[find_session(m2.sessions, id2)].handle == h2
            &&& m2.sessions[find_session(m2.sessions, id2)].output == o2
            &&& m2.without(id1).has(id2)
            &&& m2.without(id1).sessions[find_session(m2.without(id1).sessions, id2)].handle == h2
            &&& m2.without(id1).sessions[find_session(m2.without(id1).sessions, id2)].output == o2
            &&& m2.without(id2).has(id1)
            &&& m2.without(id2).sessions[find_session(m2.without(id2).sessions, id1)].handle == h1
            &&& m2.without(id2).sessions[find_session(m2.without(id2).sessions, id1)].output == o1
        }),
{
    let id1 = session_id(t1 as nat, m.next_serial as nat);
    let id2 = session_id(t2 as nat, (m.next_serial + 1) as nat);
    let m1 = m.registered(t1, h1, o1);
    lemma_registered_wf(m, t1, h1, o1);
    lemma_registered_wf(m1, t2, h2, o2);
    let m2 = m1.registered(t2, h2, o2);
    let n = m.sessions.len() as int;
    lemma_session_ids_differ(t1 as nat, m.next_serial as nat, t2 as nat, (m.next_serial + 1) as nat);
    lemma_capture_paths_differ(dir, m.next_serial as nat, secs1, ext, m1.next_serial as nat, secs2, ext);
    assert(m2.sessions[n] == m1.sessions[n]);
    lemma_find_present(m2, n, 0);
    lemma_find_present(m2, n + 1, 0);
    let a = m2.without(id1);
    assert(a.sessions[n] == m2.sessions[n + 1]);
    lemma_remove_keeps_wf(m2, n);
    lemma_find_present(a, n, 0);
    let b = m2.without(id2);
    assert(b.sessions[n] == m2.sessions[n]);
    lemma_remove_keeps_wf(m2, n + 1);
    lemma_find_present(b, n, 0);
}

} // verus!
