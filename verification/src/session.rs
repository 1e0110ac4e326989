use vstd::prelude::*;

use crate::providers::ChatMessage;
use crate::json::{get_key, json_parsed, parse_json, JsonValue};
use crate::text::{chars_of, cviews, lex_lt, lines, lines_of, str_eq, string_from, trim, trim_str};
use crate::wire::{push_json_string, quoted};

verus! {

/// The version written into every session index.
pub const INDEX_VERSION: u32 = 1;

/// One conversation thread as the index lists it.
#[derive(Debug)]
pub struct SessionRecord {
    pub id: String,
    pub display_name: String,
    pub created_at: String,
    pub updated_at: String,
    pub message_count: usize,
}

/// The index of all sessions and which one is current.
#[derive(Debug)]
pub struct SessionIndex {
    pub version: u32,
    pub current_session_id: String,
    pub sessions: Vec<SessionRecord>,
}

/// Which session was deleted and which one is current afterwards.
#[derive(Debug)]
pub struct SessionDeleteResult {
    pub deleted_session_id: String,
    pub current_session_id: String,
}

/// Why a session operation was refused.
#[derive(Debug)]
pub struct SessionError {
    pub message: String,
}

/// A session record as plain values.
pub struct RecordView {
    pub id: Seq<char>,
    pub display_name: Seq<char>,
    pub created_at: Seq<char>,
    pub updated_at: Seq<char>,
    pub message_count: usize,
}

pub open spec fn rview(r: SessionRecord) -> RecordView {
    RecordView {
        id: r.id@,
        display_name: r.display_name@,
        created_at: r.created_at@,
        updated_at: r.updated_at@,
        message_count: r.message_count,
    }
}

pub open spec fn rviews(s: Seq<SessionRecord>) -> Seq<RecordView> {
    s.map_values(|r: SessionRecord| rview(r))
}

impl SessionRecord {
    /// A record with the same fields.
    pub fn duplicate(&self) -> (r: SessionRecord)
        ensures
            rview(r) == rview(*self),
    {
        SessionRecord {
            id: self.id.clone(),
            display_name: self.display_name.clone(),
            created_at: self.created_at.clone(),
            updated_at: self.updated_at.clone(),
            message_count: self.message_count,
        }
    }
}

// ── Outside calls ───────────────────────────────────────────────────────────

/// Whether `uuid::Uuid::parse_str` accepts a text.
pub uninterp spec fn uuid_parses(s: Seq<char>) -> bool;

/// Calls `uuid::Uuid::parse_str` and tells whether it succeeded. The
/// accepted formats are those of the `uuid` crate; the contract names the
/// answer only.
#[verifier::external_body]
fn uuid_is_valid(s: &str) -> (r: bool)
    ensures
        r == uuid_parses(s@),
{
    uuid::Uuid::parse_str(s).is_ok()
}

/// Calls `uuid::Uuid::new_v4` and formats it with `to_string`, the
/// hyphenated form, which `parse_str` accepts. The value is random.
#[verifier::external_body]
pub(crate) fn new_uuid() -> (r: String)
    ensures
        uuid_parses(r@),
{
    uuid::Uuid::new_v4().to_string()
}

/// Calls `chrono::Utc::now` and formats it as RFC 3339 in whole seconds with
/// a `Z` suffix. The value is the current time: nothing is stated of it.
#[verifier::external_body]
pub(crate) fn now_rfc3339() -> (r: String) {
    chrono::Utc::now().to_rfc3339_opts(chrono::SecondsFormat::Secs, true)
}

// ── Ordering ────────────────────────────────────────────────────────────────

/// Where `x` goes in `sorted`, newest first: after every record not older
/// than it.
pub open spec fn insert_pos_desc(sorted: Seq<RecordView>, x: RecordView) -> int
    decreases sorted.len(),
{
    if sorted.len() == 0 {
        0
    } else if lex_lt(sorted[0].updated_at, x.updated_at) {
        0
    } else {
        1 + insert_pos_desc(sorted.drop_first(), x)
    }
}

/// `s` sorted by `updated_at`, newest first, records with equal
/// `updated_at` in their input order (a stable sort).
pub open spec fn sort_desc(s: Seq<RecordView>) -> Seq<RecordView>
    decreases s.len(),
{
    if s.len() == 0 {
        s
    } else {
        let t = sort_desc(s.drop_last());
        t.insert(insert_pos_desc(t, s.last()), s.last())
    }
}

pub proof fn lemma_sort_desc_len(s: Seq<RecordView>)
    ensures
        sort_desc(s).len() == s.len(),
    decreases s.len(),
{
    if s.len() > 0 {
        lemma_sort_desc_len(s.drop_last());
        lemma_insert_pos_range(sort_desc(s.drop_last()), s.last());
    }
}

proof fn lemma_insert_pos_range(sorted: Seq<RecordView>, x: RecordView)
    ensures
        0 <= insert_pos_desc(sorted, x) <= sorted.len(),
    decreases sorted.len(),
{
    if sorted.len() > 0 && !lex_lt(sorted[0].updated_at, x.updated_at) {
        lemma_insert_pos_range(sorted.drop_first(), x);
    }
}

proof fn lemma_insert_pos_scan(sorted: Seq<RecordView>, x: RecordView, p: int)
    requires
        0 <= p <= sorted.len(),
        forall|q: int| 0 <= q < p ==> !lex_lt(#[trigger] sorted[q].updated_at, x.updated_at),
        p == sorted.len() || lex_lt(sorted[p].updated_at, x.updated_at),
    ensures
        insert_pos_desc(sorted, x) == p,
    decreases p,
{
    if p > 0 {
        let t = sorted.drop_first();
        assert forall|q: int| 0 <= q < p - 1 implies !lex_lt(#[trigger] t[q].updated_at, x.updated_at) by {
            assert(t[q] == sorted[q + 1]);
        }
        if p < sorted.len() {
            assert(t[p - 1] == sorted[p]);
        }
        lemma_insert_pos_scan(t, x, p - 1);
        assert(!lex_lt(sorted[0].updated_at, x.updated_at));
    }
}

/// The records sorted newest first, stably.
fn sort_records_desc(v: &Vec<SessionRecord>) -> (r: Vec<SessionRecord>)
    ensures
        rviews(r@) == sort_desc(rviews(v@)),
{
    let mut out: Vec<SessionRecord> = Vec::new();
    let mut i: usize = 0;
    while i < v.len()
        invariant
            i <= v.len(),
            rviews(out@) == sort_desc(rviews(v@).take(i as int)),
        decreases v.len() - i,
    {
        let x = v[i].duplicate();
        let ghost t = rviews(out@);
        let ghost xv = rview(x);
        let mut p: usize = 0;
        while p < out.len() && !crate::text::str_less(out[p].updated_at.as_str(), x.updated_at.as_str())
            invariant
                p <= out@.len(),
                t == rviews(out@),
                xv == rview(x),
                forall|q: int| 0 <= q < p ==> !lex_lt(#[trigger] t[q].updated_at, xv.updated_at),
            decreases out.len() - p,
        {
            p = p + 1;
        }
        proof {
            lemma_insert_pos_scan(t, xv, p as int);
            let s = rviews(v@).take(i + 1);
            assert(s.drop_last() == rviews(v@).take(i as int));
            assert(s.last() == rview(v@[i as int]));
        }
        out.insert(p, x);
        proof {
            assert(rviews(out@) =~= t.insert(p as int, xv));
        }
        i = i + 1;
    }
    proof {
        assert(rviews(v@).take(v@.len() as int) == rviews(v@));
    }
    out
}

// ── The manager ─────────────────────────────────────────────────────────────

/// The session index of a workspace and the operations on it; reading and
/// writing the files is left to the caller.
pub struct SessionManager {
    sessions_dir: String,
    index_path: String,
    index: SessionIndex,
}

/// The message of an invalid session id.
pub open spec fn invalid_id_msg(id: Seq<char>) -> Seq<char> {
    "invalid session_id (must be UUID): "@ + id
}

pub open spec fn not_found_msg(id: Seq<char>) -> Seq<char> {
    "session not found: "@ + id
}

/// The first position of a record with id `id`.
pub open spec fn position_of(s: Seq<RecordView>, id: Seq<char>) -> Option<int>
    decreases s.len(),
{
    if s.len() == 0 {
        None
    } else {
        match position_of(s.drop_last(), id) {
            Some(i) => Some(i),
            None => if s.last().id == id {
                Some(s.len() - 1)
            } else {
                None
            },
        }
    }
}

fn session_error(prefix: &str, id: &str) -> (r: SessionError)
    ensures
        r.message@ == prefix@ + id@,
{
    let mut m = String::from_str(prefix);
    m.append(id);
    SessionError { message: m }
}

/// Checks that a session id is a UUID.
pub fn validate_session_id(session_id: &str) -> (r: Result<(), SessionError>)
    ensures
        match r {
            Ok(_) => uuid_parses(session_id@),
            Err(e) => !uuid_parses(session_id@) && e.message@ == invalid_id_msg(session_id@),
        },
{
    if uuid_is_valid(session_id) {
        Ok(())
    } else {
        Err(session_error("invalid session_id (must be UUID): ", session_id))
    }
}

impl SessionManager {
    pub closed spec fn sessions(&self) -> Seq<RecordView> {
        rviews(self.index.sessions@)
    }

    pub closed spec fn current(&self) -> Seq<char> {
        self.index.current_session_id@
    }

    pub closed spec fn version(&self) -> u32 {
        self.index.version
    }

    pub closed spec fn dir(&self) -> Seq<char> {
        self.sessions_dir@
    }

    pub closed spec fn index_file(&self) -> Seq<char> {
        self.index_path@
    }

    /// The id of the current session.
    pub fn current_session_id(&self) -> (r: &str)
        ensures
            r@ == self.current(),
    {
        self.index.current_session_id.as_str()
    }

    /// The directory holding the session files.
    pub fn sessions_dir_path(&self) -> (r: &str)
        ensures
            r@ == self.dir(),
    {
        self.sessions_dir.as_str()
    }

    /// The file the index is kept in.
    pub fn index_path(&self) -> (r: &str)
        ensures
            r@ == self.index_file(),
    {
        self.index_path.as_str()
    }

    /// A copy of the index, to be written out.
    pub fn index_copy(&self) -> (r: SessionIndex)
        ensures
            r.version == self.version(),
            r.current_session_id@ == self.current(),
            rviews(r.sessions@) == self.sessions(),
    {
        let mut sessions: Vec<SessionRecord> = Vec::new();
        let mut i: usize = 0;
        while i < self.index.sessions.len()
            invariant
                i <= self.index.sessions.len(),
                rviews(sessions@) == rviews(self.index.sessions@).take(i as int),
            decreases self.index.sessions.len() - i,
        {
            let ghost before = sessions@;
            let d = self.index.sessions[i].duplicate();
            sessions.push(d);
            proof {
                assert(sessions@ == before.push(d));
                assert(rviews(sessions@) =~= rviews(before).push(rview(d)));
                assert(rviews(sessions@) =~= rviews(self.index.sessions@).take(i + 1));
            }
            i = i + 1;
        }
        proof {
            assert(rviews(self.index.sessions@).take(i as int) == rviews(self.index.sessions@));
        }
        SessionIndex {
            version: self.index.version,
            current_session_id: self.index.current_session_id.clone(),
            sessions,
        }
    }

    fn find_session_index(&self, session_id: &str) -> (r: Option<usize>)
        ensures
            match r {
                Some(i) => position_of(self.sessions(), session_id@) == Some(i as int) && i
                    < self.sessions().len(),
                None => position_of(self.sessions(), session_id@) is None,
            },
    {
        let mut i: usize = 0;
        while i < self.index.sessions.len()
            invariant
                i <= self.index.sessions.len(),
                self.sessions().len() == self.index.sessions@.len(),
                position_of(self.sessions().take(i as int), session_id@) is None,
            decreases self.index.sessions.len() - i,
        {
            proof {
                let s = self.sessions().take(i + 1);
                assert(s.drop_last() == self.sessions().take(i as int));
                assert(self.sessions()[i as int] == rview(self.index.sessions@[i as int]));
                assert(s.last() == self.sessions()[i as int]);
            }
            if str_eq(self.index.sessions[i].id.as_str(), session_id) {
                proof {
                    lemma_position_prefix(self.sessions(), session_id@, i + 1);
                }
                return Some(i);
            }
            i = i + 1;
        }
        proof {
            assert(self.sessions().take(i as int) == self.sessions());
        }
        None
    }

    /// All sessions, most recently updated first (a stable sort).
    pub fn list_sessions(&self) -> (r: Vec<SessionRecord>)
        ensures
            rviews(r@) == sort_desc(self.sessions()),
    {
        sort_records_desc(&self.index.sessions)
    }

    /// The first session with id `session_id`.
    pub fn get_session(&self, session_id: &str) -> (r: Option<SessionRecord>)
        ensures
            match position_of(self.sessions(), session_id@) {
                Some(i) => r matches Some(rec) && rview(rec) == self.sessions()[i],
                None => r is None,
            },
    {
        match self.find_session_index(session_id) {
            Some(i) => Some(self.index.sessions[i].duplicate()),
            None => None,
        }
    }
}

/// The first record whose id is not a UUID.
pub open spec fn first_invalid(s: Seq<RecordView>) -> Option<int>
    decreases s.len(),
{
    if s.len() == 0 {
        None
    } else {
        match first_invalid(s.drop_last()) {
            Some(i) => Some(i),
            None => if !uuid_parses(s.last().id) {
                Some(s.len() - 1)
            } else {
                None
            },
        }
    }
}

/// `r` is a new session: a UUID id, created and updated at the same time,
/// no messages, named `display_name` trimmed or, when that is empty, by
/// its id.
pub open spec fn fresh_record(r: RecordView, display_name: Option<Seq<char>>) -> bool {
    &&& uuid_parses(r.id)
    &&& r.display_name == match display_name {
        Some(d) => if trim(d).len() > 0 {
            trim(d)
        } else {
            r.id
        },
        None => r.id,
    }
    &&& r.created_at == r.updated_at
    &&& r.message_count == 0
}

/// The index after startup checks: when it has no sessions, or its current
/// id names none of them, one new session is added and made current;
/// otherwise it is kept.
pub open spec fn bootstrapped(
    old_sessions: Seq<RecordView>,
    old_current: Seq<char>,
    sessions: Seq<RecordView>,
    current: Seq<char>,
) -> bool {
    if old_sessions.len() == 0 || position_of(old_sessions, old_current) is None {
        &&& sessions.len() == old_sessions.len() + 1
        &&& sessions.drop_last() == old_sessions
        &&& fresh_record(sessions.last(), None)
        &&& current == sessions.last().id
    } else {
        sessions == old_sessions && current == old_current
    }
}

/// Every id of a sequence of records is found in it.
pub proof fn lemma_listed_id_found(s: Seq<RecordView>, k: int)
    requires
        0 <= k < s.len(),
    ensures
        position_of(s, s[k].id) is Some,
    decreases s.len(),
{
    if k < s.len() - 1 {
        lemma_listed_id_found(s.drop_last(), k);
        assert(s.drop_last()[k] == s[k]);
    }
}

/// After the startup checks (on creation or reload), the current session
/// is one of the sessions in the index.
pub proof fn law_bootstrap_keeps_current_listed(
    old_sessions: Seq<RecordView>,
    old_current: Seq<char>,
    sessions: Seq<RecordView>,
    current: Seq<char>,
)
    requires
        bootstrapped(old_sessions, old_current, sessions, current),
    ensures
        position_of(sessions, current) is Some,
{
    if old_sessions.len() == 0 || position_of(old_sessions, old_current) is None {
        lemma_listed_id_found(sessions, sessions.len() - 1);
    }
}

/// `v` with its `updated_at` replaced.
pub open spec fn touched(v: RecordView, at: Seq<char>) -> RecordView {
    RecordView { updated_at: at, ..v }
}

pub open spec fn opt_str(o: Option<&str>) -> Option<Seq<char>> {
    match o {
        Some(s) => Some(s@),
        None => None,
    }
}

fn display_name_of(display_name: Option<&str>, id: &String) -> (r: String)
    ensures
        r@ == match opt_str(display_name) {
            Some(d) => if trim(d).len() > 0 {
                trim(d)
            } else {
                id@
            },
            None => id@,
        },
{
    match display_name {
        Some(d) => {
            let t = crate::text::trim_str(d);
            if t.as_str().is_empty() {
                id.clone()
            } else {
                t
            }
        },
        None => id.clone(),
    }
}

impl SessionManager {
    /// Starts a new session and makes it current.
    pub fn create_session(&mut self, display_name: Option<&str>) -> (r: SessionRecord)
        ensures
            fresh_record(rview(r), opt_str(display_name)),
            final(self).sessions() == old(self).sessions().push(rview(r)),
            final(self).current() == r.id@,
            final(self).version() == old(self).version(),
            final(self).dir() == old(self).dir(),
            final(self).index_file() == old(self).index_file(),
            ids_parse(old(self).sessions()) ==> final(self).wf(),
    {
        let id = new_uuid();
        let now = now_rfc3339();
        let name = display_name_of(display_name, &id);
        let record = SessionRecord {
            id: id.clone(),
            display_name: name,
            created_at: now.clone(),
            updated_at: now,
            message_count: 0,
        };
        self.index.current_session_id = id;
        let copy = record.duplicate();
        let ghost before = self.index.sessions@;
        self.index.sessions.push(copy);
        proof {
            assert(rviews(self.index.sessions@) =~= rviews(before).push(rview(record)));
            if ids_parse(rviews(before)) {
                law_create_keeps_index(rviews(before), rview(record));
            }
        }
        record
    }

    /// Sets the index version and checks the ids, then adds and selects a
    /// new session when there is none or the current id names none.
    fn ensure_bootstrap_session(&mut self) -> (r: Result<(), SessionError>)
        ensures
            final(self).version() == INDEX_VERSION,
            final(self).dir() == old(self).dir(),
            final(self).index_file() == old(self).index_file(),
            match first_invalid(old(self).sessions()) {
                Some(i) => r matches Err(e) && e.message@ == invalid_id_msg(
                    old(self).sessions()[i].id,
                ) && final(self).sessions() == old(self).sessions() && final(self).current()
                    == old(self).current(),
                None => r is Ok && bootstrapped(
                    old(self).sessions(),
                    old(self).current(),
                    final(self).sessions(),
                    final(self).current(),
                ),
            },
    {
        self.index.version = INDEX_VERSION;
        let mut i: usize = 0;
        while i < self.index.sessions.len()
            invariant
                i <= self.index.sessions.len(),
                self.sessions().len() == self.index.sessions@.len(),
                self.version() == INDEX_VERSION,
                self.dir() == old(self).dir(),
                self.index_file() == old(self).index_file(),
                self.sessions() == old(self).sessions(),
                self.current() == old(self).current(),
                first_invalid(self.sessions().take(i as int)) is None,
            decreases self.index.sessions.len() - i,
        {
            proof {
                let s = self.sessions().take(i + 1);
                assert(s.drop_last() == self.sessions().take(i as int));
                assert(self.sessions()[i as int] == rview(self.index.sessions@[i as int]));
                assert(s.last() == self.sessions()[i as int]);
            }
            if !uuid_is_valid(self.index.sessions[i].id.as_str()) {
                let e = session_error(
                    "invalid session_id (must be UUID): ",
                    self.index.sessions[i].id.as_str(),
                );
                proof {
                    lemma_first_invalid_prefix(self.sessions(), i + 1);
                }
                return Err(e);
            }
            i = i + 1;
        }
        proof {
            assert(self.sessions().take(i as int) == self.sessions());
        }
        let found = self.find_session_index(self.index.current_session_id.as_str());
        if self.index.sessions.len() == 0 || found.is_none() {
            let rec = self.create_session(None);
            proof {
                assert(self.sessions().drop_last() =~= old(self).sessions());
            }
            return Ok(());
        }
        Ok(())
    }

    /// The manager of the sessions under `workspace_dir`, given the index
    /// read from disk (an empty index when there was none or it did not
    /// parse).
    pub fn new(workspace_dir: &str, loaded: SessionIndex) -> (r: Result<Self, SessionError>)
        ensures
            match first_invalid(rviews(loaded.sessions@)) {
                Some(i) => r matches Err(e) && e.message@ == invalid_id_msg(
                    rviews(loaded.sessions@)[i].id,
                ),
                None => r matches Ok(m) && {
                    &&& m.dir() == crate::config::path_join(workspace_dir@, "sessions"@)
                    &&& m.index_file() == crate::config::path_join(m.dir(), "sessions.json"@)
                    &&& m.version() == INDEX_VERSION
                    &&& bootstrapped(
                        rviews(loaded.sessions@),
                        loaded.current_session_id@,
                        m.sessions(),
                        m.current(),
                    )
                    &&& m.wf()
                },
            },
    {
        let sessions_dir = crate::config::join_path(workspace_dir, "sessions");
        let index_path = crate::config::join_path(sessions_dir.as_str(), "sessions.json");
        let mut manager = SessionManager { sessions_dir, index_path, index: loaded };
        let ghost before = (manager.sessions(), manager.current());
        match manager.ensure_bootstrap_session() {
            Ok(()) => {
                proof {
                    law_bootstrap_makes_index(before.0, before.1, manager.sessions(), manager.current());
                }
                Ok(manager)
            },
            Err(e) => Err(e),
        }
    }

    /// Replaces the index with the one read again from disk, then runs the
    /// startup checks.
    pub fn reload_from_disk(&mut self, loaded: SessionIndex) -> (r: Result<(), SessionError>)
        ensures
            final(self).dir() == old(self).dir(),
            final(self).index_file() == old(self).index_file(),
            final(self).version() == INDEX_VERSION,
            match first_invalid(rviews(loaded.sessions@)) {
                Some(i) => r matches Err(e) && e.message@ == invalid_id_msg(
                    rviews(loaded.sessions@)[i].id,
                ) && final(self).sessions() == rviews(loaded.sessions@) && final(self).current()
                    == loaded.current_session_id@,
                None => r is Ok && bootstrapped(
                    rviews(loaded.sessions@),
                    loaded.current_session_id@,
                    final(self).sessions(),
                    final(self).current(),
                ) && final(self).wf(),
            },
    {
        self.index = loaded;
        let ghost before = (self.sessions(), self.current());
        let r = self.ensure_bootstrap_session();
        proof {
            if r is Ok {
                law_bootstrap_makes_index(before.0, before.1, self.sessions(), self.current());
            }
        }
        r
    }

    /// Renames a session.
    pub fn rename_session(&mut self, session_id: &str, display_name: &str) -> (r: Result<
        SessionRecord,
        SessionError,
    >)
        ensures
            old(self).wf() ==> final(self).wf(),
            final(self).dir() == old(self).dir(),
            final(self).index_file() == old(self).index_file(),
            final(self).version() == old(self).version(),
            final(self).current() == old(self).current(),
            !uuid_parses(session_id@) ==> (r matches Err(e) && e.message@ == invalid_id_msg(
                session_id@,
            ) && final(self).sessions() == old(self).sessions()),
            uuid_parses(session_id@) && trim(display_name@).len() == 0 ==> (r matches Err(e)
                && e.message@ == "display_name must not be empty"@ && final(self).sessions() == old(self).sessions()),
            uuid_parses(session_id@) && trim(display_name@).len() > 0 ==> match position_of(
                old(self).sessions(),
                session_id@,
            ) {
                None => r matches Err(e) && e.message@ == not_found_msg(session_id@) && final(self).sessions() == old(self).sessions(),
                Some(i) => r matches Ok(rec) && final(self).sessions() == old(self).sessions().update(
                    i,
                    RecordView {
                        display_name: trim(display_name@),
                        updated_at: rec.updated_at@,
                        ..old(self).sessions()[i]
                    },
                ) && rview(rec) == final(self).sessions()[i],
            },
    {
        match validate_session_id(session_id) {
            Ok(()) => {},
            Err(e) => {
                return Err(e);
            },
        }
        let new_name = crate::text::trim_str(display_name);
        if new_name.as_str().is_empty() {
            return Err(SessionError { message: String::from_str("display_name must not be empty") });
        }
        let idx = match self.find_session_index(session_id) {
            Some(i) => i,
            None => {
                return Err(session_error("session not found: ", session_id));
            },
        };
        let mut rec = self.index.sessions[idx].duplicate();
        rec.display_name = new_name;
        rec.updated_at = now_rfc3339();
        let out = rec.duplicate();
        let ghost before = self.index.sessions@;
        self.index.sessions.set(idx, rec);
        proof {
            assert(rviews(self.index.sessions@) =~= rviews(before).update(idx as int, rview(out)));
            if old(self).wf() {
                law_update_keeps_index(old(self).sessions(), old(self).current(), idx as int, rview(out));
            }
        }
        Ok(out)
    }

    /// Makes a session current.
    pub fn switch_session(&mut self, session_id: &str) -> (r: Result<SessionRecord, SessionError>)
        ensures
            old(self).wf() ==> final(self).wf(),
            final(self).dir() == old(self).dir(),
            final(self).index_file() == old(self).index_file(),
            final(self).version() == old(self).version(),
            !uuid_parses(session_id@) ==> (r matches Err(e) && e.message@ == invalid_id_msg(
                session_id@,
            ) && final(self).sessions() == old(self).sessions() && final(self).current() == old(self).current()),
            uuid_parses(session_id@) ==> match position_of(old(self).sessions(), session_id@) {
                None => r matches Err(e) && e.message@ == not_found_msg(session_id@) && final(self).sessions() == old(self).sessions() && final(self).current() == old(self).current(),
                Some(i) => r matches Ok(rec) && final(self).current() == session_id@ && final(self).sessions() == old(self).sessions().update(
                    i,
                    touched(old(self).sessions()[i], rec.updated_at@),
                ) && rview(rec) == final(self).sessions()[i],
            },
    {
        match validate_session_id(session_id) {
            Ok(()) => {},
            Err(e) => {
                return Err(e);
            },
        }
        let idx = match self.find_session_index(session_id) {
            Some(i) => i,
            None => {
                return Err(session_error("session not found: ", session_id));
            },
        };
        let ghost s0 = self.sessions();
        self.index.current_session_id = String::from_str(session_id);
        let out = self.touch(idx, false);
        proof {
            if old(self).wf() {
                lemma_position_some(s0, session_id@);
                law_update_keeps_index(s0, old(self).current(), idx as int, rview(out));
                assert(position_of(self.sessions(), session_id@) == position_of(s0, session_id@));
            }
        }
        Ok(out)
    }

    /// Sets `updated_at` of the session at `idx` to now, and its message
    /// count to zero when `reset` is set.
    fn touch(&mut self, idx: usize, reset: bool) -> (r: SessionRecord)
        requires
            idx < old(self).sessions().len(),
        ensures
            final(self).dir() == old(self).dir(),
            final(self).index_file() == old(self).index_file(),
            final(self).version() == old(self).version(),
            final(self).current() == old(self).current(),
            final(self).sessions() == old(self).sessions().update(
                idx as int,
                RecordView {
                    updated_at: r.updated_at@,
                    message_count: if reset {
                        0
                    } else {
                        old(self).sessions()[idx as int].message_count
                    },
                    ..old(self).sessions()[idx as int]
                },
            ),
            rview(r) == final(self).sessions()[idx as int],
    {
        let mut rec = self.index.sessions[idx].duplicate();
        rec.updated_at = now_rfc3339();
        if reset {
            rec.message_count = 0;
        }
        let out = rec.duplicate();
        let ghost before = self.index.sessions@;
        self.index.sessions.set(idx, rec);
        proof {
            assert(rviews(self.index.sessions@) =~= rviews(before).update(idx as int, rview(out)));
        }
        out
    }

    /// Empties the current session: no messages, updated now.
    pub fn clear_current_session(&mut self) -> (r: Result<(SessionRecord, Vec<ChatMessage>), SessionError>)
        ensures
            old(self).wf() ==> final(self).wf(),
            final(self).dir() == old(self).dir(),
            final(self).index_file() == old(self).index_file(),
            final(self).version() == old(self).version(),
            final(self).current() == old(self).current(),
            match position_of(old(self).sessions(), old(self).current()) {
                None => r matches Err(e) && e.message@ == "current session not found: "@ + old(self).current() && final(self).sessions() == old(self).sessions(),
                Some(i) => if !uuid_parses(old(self).current()) {
                    r matches Err(e) && e.message@ == invalid_id_msg(old(self).current()) && final(self).sessions() == old(self).sessions()
                } else {
                    r matches Ok((rec, history)) && history@.len() == 0 && final(self).sessions()
                        == old(self).sessions().update(
                        i,
                        RecordView {
                            updated_at: rec.updated_at@,
                            message_count: 0,
                            ..old(self).sessions()[i]
                        },
                    ) && rview(rec) == final(self).sessions()[i]
                },
            },
    {
        let session_id = self.index.current_session_id.clone();
        let idx = match self.find_session_index(session_id.as_str()) {
            Some(i) => i,
            None => {
                return Err(session_error("current session not found: ", session_id.as_str()));
            },
        };
        match validate_session_id(session_id.as_str()) {
            Ok(()) => {},
            Err(e) => {
                return Err(e);
            },
        }
        let ghost s0 = self.sessions();
        let out = self.touch(idx, true);
        proof {
            if old(self).wf() {
                law_update_keeps_index(s0, old(self).current(), idx as int, rview(out));
            }
        }
        Ok((out, Vec::new()))
    }

    /// Empties a session: no messages, updated now.
    pub fn clear_session(&mut self, session_id: &str) -> (r: Result<
        (SessionRecord, Vec<ChatMessage>),
        SessionError,
    >)
        ensures
            old(self).wf() ==> final(self).wf(),
            final(self).dir() == old(self).dir(),
            final(self).index_file() == old(self).index_file(),
            final(self).version() == old(self).version(),
            final(self).current() == old(self).current(),
            !uuid_parses(session_id@) ==> (r matches Err(e) && e.message@ == invalid_id_msg(
                session_id@,
            ) && final(self).sessions() == old(self).sessions()),
            uuid_parses(session_id@) ==> match position_of(old(self).sessions(), session_id@) {
                None => r matches Err(e) && e.message@ == not_found_msg(session_id@) && final(self).sessions() == old(self).sessions(),
                Some(i) => r matches Ok((rec, history)) && history@.len() == 0 && final(self).sessions() == old(self).sessions().update(
                    i,
                    RecordView {
                        updated_at: rec.updated_at@,
                        message_count: 0,
                        ..old(self).sessions()[i]
                    },
                ) && rview(rec) == final(self).sessions()[i],
            },
    {
        match validate_session_id(session_id) {
            Ok(()) => {},
            Err(e) => {
                return Err(e);
            },
        }
        let idx = match self.find_session_index(session_id) {
            Some(i) => i,
            None => {
                return Err(session_error("session not found: ", session_id));
            },
        };
        let ghost s0 = self.sessions();
        let out = self.touch(idx, true);
        proof {
            if old(self).wf() {
                law_update_keeps_index(s0, old(self).current(), idx as int, rview(out));
            }
        }
        Ok((out, Vec::new()))
    }

    /// Deletes a session; the most recently updated remaining one becomes
    /// current, or a new one when none remains.
    pub fn delete_session(&mut self, session_id: &str) -> (r: Result<SessionDeleteResult, SessionError>)
        ensures
            old(self).wf() ==> final(self).wf(),
            final(self).dir() == old(self).dir(),
            final(self).index_file() == old(self).index_file(),
            final(self).version() == old(self).version(),
            !uuid_parses(session_id@) ==> (r matches Err(e) && e.message@ == invalid_id_msg(
                session_id@,
            ) && final(self).sessions() == old(self).sessions() && final(self).current() == old(self).current()),
            uuid_parses(session_id@) ==> match position_of(old(self).sessions(), session_id@) {
                None => r matches Err(e) && e.message@ == not_found_msg(session_id@) && final(self).sessions() == old(self).sessions() && final(self).current() == old(self).current(),
                Some(i) => r matches Ok(d) && d.deleted_session_id@ == session_id@
                    && d.current_session_id@ == final(self).current() && if old(self).sessions().len()
                    == 1 {
                    &&& final(self).sessions().len() == 1
                    &&& fresh_record(final(self).sessions()[0], None)
                    &&& final(self).current() == final(self).sessions()[0].id
                } else {
                    &&& final(self).sessions() == sort_desc(old(self).sessions().remove(i))
                    &&& final(self).current() == final(self).sessions()[0].id
                },
            },
    {
        match validate_session_id(session_id) {
            Ok(()) => {},
            Err(e) => {
                return Err(e);
            },
        }
        let idx = match self.find_session_index(session_id) {
            Some(i) => i,
            None => {
                return Err(session_error("session not found: ", session_id));
            },
        };
        let ghost before = self.index.sessions@;
        let _removed = self.index.sessions.remove(idx);
        proof {
            assert(rviews(self.index.sessions@) =~= rviews(before).remove(idx as int));
        }
        if self.index.sessions.len() == 0 {
            proof {
                assert(ids_parse(self.sessions()));
            }
            let rec = self.create_session(None);
            proof {
                assert(self.sessions() =~= seq![rview(rec)]);
            }
            return Ok(
                SessionDeleteResult { deleted_session_id: String::from_str(session_id), current_session_id: rec.id },
            );
        }
        let sorted = sort_records_desc(&self.index.sessions);
        proof {
            lemma_sort_desc_len(rviews(self.index.sessions@));
        }
        self.index.sessions = sorted;
        self.index.current_session_id = self.index.sessions[0].id.clone();
        proof {
            if old(self).wf() {
                law_delete_keeps_index(old(self).sessions(), old(self).current(), idx as int);
            }
        }
        Ok(
            SessionDeleteResult {
                deleted_session_id: String::from_str(session_id),
                current_session_id: self.index.current_session_id.clone(),
            },
        )
    }

    /// Records the message count of a session read back from its file;
    /// tells whether the count changed.
    pub fn update_message_count(&mut self, session_id: &str, count: usize) -> (changed: bool)
        ensures
            old(self).wf() ==> final(self).wf(),
            final(self).dir() == old(self).dir(),
            final(self).index_file() == old(self).index_file(),
            final(self).version() == old(self).version(),
            final(self).current() == old(self).current(),
            match position_of(old(self).sessions(), session_id@) {
                Some(i) => changed == (old(self).sessions()[i].message_count != count) && final(self).sessions() == old(self).sessions().update(
                    i,
                    RecordView { message_count: count, ..old(self).sessions()[i] },
                ),
                None => !changed && final(self).sessions() == old(self).sessions(),
            },
    {
        match self.find_session_index(session_id) {
            Some(idx) => {
                if self.index.sessions[idx].message_count != count {
                    let mut rec = self.index.sessions[idx].duplicate();
                    rec.message_count = count;
                    let ghost r = rview(rec);
                    let ghost before = self.index.sessions@;
                    self.index.sessions.set(idx, rec);
                    proof {
                        assert(rviews(self.index.sessions@) =~= rviews(before).update(idx as int, r));
                        if old(self).wf() {
                            law_update_keeps_index(old(self).sessions(), old(self).current(), idx as int, r);
                        }
                    }
                    true
                } else {
                    proof {
                        assert(self.sessions() =~= self.sessions().update(
                            idx as int,
                            RecordView { message_count: count, ..self.sessions()[idx as int] },
                        ));
                    }
                    false
                }
            },
            None => false,
        }
    }

    /// Records that `messages` were appended to a session's file: its count
    /// grows by their number and it is updated now.
    pub fn append_messages(&mut self, session_id: &str, messages: &Vec<ChatMessage>) -> (r: Result<
        (),
        SessionError,
    >)
        requires
            forall|i: int|
                0 <= i < old(self).sessions().len() ==> #[trigger] old(self).sessions()[i].message_count
                    + messages@.len() <= usize::MAX,
        ensures
            old(self).wf() ==> final(self).wf(),
            final(self).dir() == old(self).dir(),
            final(self).index_file() == old(self).index_file(),
            final(self).version() == old(self).version(),
            final(self).current() == old(self).current(),
            !uuid_parses(session_id@) ==> (r matches Err(e) && e.message@ == invalid_id_msg(
                session_id@,
            ) && final(self).sessions() == old(self).sessions()),
            uuid_parses(session_id@) && messages@.len() == 0 ==> r is Ok && final(self).sessions()
                == old(self).sessions(),
            uuid_parses(session_id@) && messages@.len() > 0 ==> match position_of(
                old(self).sessions(),
                session_id@,
            ) {
                None => r matches Err(e) && e.message@ == not_found_msg(session_id@) && final(self).sessions() == old(self).sessions(),
                Some(i) => r is Ok && final(self).sessions() == old(self).sessions().update(
                        i,
                        RecordView {
                            updated_at: final(self).sessions()[i].updated_at,
                            message_count: (old(self).sessions()[i].message_count + messages@.len()) as usize,
                            ..old(self).sessions()[i]
                        },
                    ),
            },
    {
        match validate_session_id(session_id) {
            Ok(()) => {},
            Err(e) => {
                return Err(e);
            },
        }
        if messages.len() == 0 {
            return Ok(());
        }
        let idx = match self.find_session_index(session_id) {
            Some(i) => i,
            None => {
                return Err(session_error("session not found: ", session_id));
            },
        };
        proof {
            assert(self.sessions()[idx as int].message_count == self.index.sessions@[idx as int].message_count);
        }
        let mut rec = self.index.sessions[idx].duplicate();
        rec.message_count = rec.message_count + messages.len();
        rec.updated_at = now_rfc3339();
        let ghost r = rview(rec);
        let ghost before = self.index.sessions@;
        self.index.sessions.set(idx, rec);
        proof {
            assert(rviews(self.index.sessions@) =~= rviews(before).update(idx as int, r));
            if old(self).wf() {
                law_update_keeps_index(old(self).sessions(), old(self).current(), idx as int, r);
            }
        }
        Ok(())
    }
}

proof fn lemma_first_invalid_prefix(s: Seq<RecordView>, n: int)
    requires
        0 < n <= s.len(),
        first_invalid(s.take(n - 1)) is None,
        !uuid_parses(s[n - 1].id),
    ensures
        first_invalid(s) == Some(n - 1),
{
    let t = s.take(n);
    assert(t.drop_last() == s.take(n - 1));
    lemma_first_invalid_extend(s, n, n - 1);
}

proof fn lemma_first_invalid_extend(s: Seq<RecordView>, n: int, i: int)
    requires
        0 <= n <= s.len(),
        first_invalid(s.take(n)) == Some(i),
    ensures
        first_invalid(s) == Some(i),
    decreases s.len() - n,
{
    if n < s.len() {
        let t = s.take(n + 1);
        assert(t.drop_last() == s.take(n));
        lemma_first_invalid_extend(s, n + 1, i);
    } else {
        assert(s.take(n) == s);
    }
}

proof fn lemma_position_prefix(s: Seq<RecordView>, id: Seq<char>, n: int)
    requires
        0 < n <= s.len(),
        position_of(s.take(n - 1), id) is None,
        s[n - 1].id == id,
    ensures
        position_of(s, id) == Some(n - 1),
{
    let t = s.take(n);
    assert(t.drop_last() == s.take(n - 1));
    lemma_position_extend(s, id, n, n - 1);
}

proof fn lemma_position_extend(s: Seq<RecordView>, id: Seq<char>, n: int, i: int)
    requires
        0 <= n <= s.len(),
        position_of(s.take(n), id) == Some(i),
    ensures
        position_of(s, id) == Some(i),
    decreases s.len() - n,
{
    if n < s.len() {
        let t = s.take(n + 1);
        assert(t.drop_last() == s.take(n));
        lemma_position_extend(s, id, n + 1, i);
    } else {
        assert(s.take(n) == s);
    }
}

// ── The index invariant ─────────────────────────────────────────────────────

/// Every session id is a UUID.
pub open spec fn ids_parse(s: Seq<RecordView>) -> bool {
    forall|i: int| 0 <= i < s.len() ==> uuid_parses(#[trigger] s[i].id)
}

/// A usable index: at least one session, the current id names one of them,
/// and every id is a UUID.
pub open spec fn index_wf(s: Seq<RecordView>, current: Seq<char>) -> bool {
    &&& s.len() > 0
    &&& position_of(s, current) is Some
    &&& ids_parse(s)
}

impl SessionManager {
    /// The manager's index is usable.
    pub open spec fn wf(&self) -> bool {
        index_wf(self.sessions(), self.current())
    }
}

proof fn lemma_position_some(s: Seq<RecordView>, id: Seq<char>)
    ensures
        position_of(s, id) matches Some(i) ==> 0 <= i < s.len() && s[i].id == id,
    decreases s.len(),
{
    if s.len() > 0 {
        lemma_position_some(s.drop_last(), id);
    }
}

/// Records with the same ids in the same places are searched alike.
proof fn lemma_position_same_ids(s: Seq<RecordView>, t: Seq<RecordView>, id: Seq<char>)
    requires
        s.len() == t.len(),
        forall|i: int| 0 <= i < s.len() ==> (#[trigger] s[i]).id == t[i].id,
    ensures
        position_of(s, id) == position_of(t, id),
    decreases s.len(),
{
    if s.len() > 0 {
        let (a, b) = (s.drop_last(), t.drop_last());
        assert forall|i: int| 0 <= i < a.len() implies (#[trigger] a[i]).id == b[i].id by {
            assert(a[i] == s[i] && b[i] == t[i]);
        }
        lemma_position_same_ids(a, b, id);
    }
}

proof fn lemma_first_invalid_none(s: Seq<RecordView>)
    ensures
        (first_invalid(s) is None) == ids_parse(s),
    decreases s.len(),
{
    if s.len() > 0 {
        let d = s.drop_last();
        lemma_first_invalid_none(d);
        if ids_parse(s) {
            assert forall|i: int| 0 <= i < d.len() implies uuid_parses(#[trigger] d[i].id) by {
                assert(d[i] == s[i]);
            }
            assert(uuid_parses(s[s.len() - 1].id));
        }
        if first_invalid(s) is None {
            assert forall|i: int| 0 <= i < s.len() implies uuid_parses(#[trigger] s[i].id) by {
                if i < s.len() - 1 {
                    assert(s[i] == d[i]);
                }
            }
        }
    }
}

proof fn lemma_sort_desc_ids(s: Seq<RecordView>)
    requires
        ids_parse(s),
    ensures
        ids_parse(sort_desc(s)),
    decreases s.len(),
{
    if s.len() > 0 {
        let d = s.drop_last();
        assert forall|i: int| 0 <= i < d.len() implies uuid_parses(#[trigger] d[i].id) by {
            assert(d[i] == s[i]);
        }
        lemma_sort_desc_ids(d);
        let t = sort_desc(d);
        let p = insert_pos_desc(t, s.last());
        lemma_insert_pos_range(t, s.last());
        let u = t.insert(p, s.last());
        assert forall|j: int| 0 <= j < u.len() implies uuid_parses(#[trigger] u[j].id) by {
            if j < p {
                assert(u[j] == t[j]);
            } else if j > p {
                assert(u[j] == t[j - 1]);
            }
        }
    }
}

/// Changing a record in place, its id kept, keeps the index usable and
/// every id found where it was.
pub proof fn law_update_keeps_index(s: Seq<RecordView>, current: Seq<char>, i: int, v: RecordView)
    requires
        index_wf(s, current),
        0 <= i < s.len(),
        v.id == s[i].id,
    ensures
        index_wf(s.update(i, v), current),
        forall|id: Seq<char>| #[trigger] position_of(s.update(i, v), id) == position_of(s, id),
{
    let u = s.update(i, v);
    assert forall|j: int| 0 <= j < s.len() implies (#[trigger] s[j]).id == u[j].id by {}
    assert forall|id: Seq<char>| #[trigger] position_of(u, id) == position_of(s, id) by {
        lemma_position_same_ids(s, u, id);
    }
    assert forall|j: int| 0 <= j < u.len() implies uuid_parses(#[trigger] u[j].id) by {
        assert(u[j].id == s[j].id);
    }
}

/// Adding a session with a UUID and making it current keeps the index
/// usable.
pub proof fn law_create_keeps_index(s: Seq<RecordView>, v: RecordView)
    requires
        ids_parse(s),
        uuid_parses(v.id),
    ensures
        index_wf(s.push(v), v.id),
{
    let u = s.push(v);
    lemma_listed_id_found(u, u.len() - 1);
    assert forall|j: int| 0 <= j < u.len() implies uuid_parses(#[trigger] u[j].id) by {
        if j < s.len() {
            assert(u[j] == s[j]);
        }
    }
}

/// Deleting one of several sessions and making the newest remaining one
/// current keeps the index usable.
pub proof fn law_delete_keeps_index(s: Seq<RecordView>, current: Seq<char>, i: int)
    requires
        index_wf(s, current),
        0 <= i < s.len(),
        s.len() > 1,
    ensures
        index_wf(sort_desc(s.remove(i)), sort_desc(s.remove(i))[0].id),
{
    let r = s.remove(i);
    assert forall|j: int| 0 <= j < r.len() implies uuid_parses(#[trigger] r[j].id) by {
        if j < i {
            assert(r[j] == s[j]);
        } else {
            assert(r[j] == s[j + 1]);
        }
    }
    lemma_sort_desc_ids(r);
    lemma_sort_desc_len(r);
    lemma_listed_id_found(sort_desc(r), 0);
}

/// The startup checks leave a usable index whenever every loaded id is a
/// UUID.
pub proof fn law_bootstrap_makes_index(
    old_sessions: Seq<RecordView>,
    old_current: Seq<char>,
    sessions: Seq<RecordView>,
    current: Seq<char>,
)
    requires
        first_invalid(old_sessions) is None,
        bootstrapped(old_sessions, old_current, sessions, current),
    ensures
        index_wf(sessions, current),
{
    lemma_first_invalid_none(old_sessions);
    law_bootstrap_keeps_current_listed(old_sessions, old_current, sessions, current);
    if old_sessions.len() == 0 || position_of(old_sessions, old_current) is None {
        assert(sessions.drop_last() == old_sessions);
        assert forall|j: int| 0 <= j < sessions.len() implies uuid_parses(#[trigger] sessions[j].id) by {
            if j < old_sessions.len() {
                assert(sessions[j] == old_sessions[j]);
            }
        }
    }
}

proof fn lemma_sort_desc_members(s: Seq<RecordView>)
    ensures
        sort_desc(s).len() == s.len(),
        forall|x: RecordView| #[trigger] sort_desc(s).contains(x) <==> s.contains(x),
    decreases s.len(),
{
    lemma_sort_desc_len(s);
    if s.len() > 0 {
        let d = s.drop_last();
        lemma_sort_desc_members(d);
        let t = sort_desc(d);
        let x0 = s.last();
        let p = insert_pos_desc(t, x0);
        lemma_insert_pos_range(t, x0);
        let u = t.insert(p, x0);
        assert forall|x: RecordView| #[trigger] u.contains(x) <==> s.contains(x) by {
            if u.contains(x) {
                let j = choose|j: int| 0 <= j < u.len() && u[j] == x;
                if j < p {
                    assert(t[j] == x);
                    assert(t.contains(x));
                    let k = choose|k: int| 0 <= k < d.len() && d[k] == x;
                    assert(s[k] == x);
                } else if j > p {
                    assert(t[j - 1] == x);
                    assert(t.contains(x));
                    let k = choose|k: int| 0 <= k < d.len() && d[k] == x;
                    assert(s[k] == x);
                } else {
                    assert(s[s.len() - 1] == x);
                }
            }
            if s.contains(x) {
                let k = choose|k: int| 0 <= k < s.len() && s[k] == x;
                if k == s.len() - 1 {
                    assert(u[p] == x);
                } else {
                    assert(d[k] == x);
                    assert(d.contains(x));
                    assert(sort_desc(d).contains(x));
                    assert(t.contains(x));
                    let j = choose|j: int| 0 <= j < t.len() && t[j] == x;
                    if j < p {
                        assert(u[j] == x);
                    } else {
                        assert(u[j + 1] == x);
                    }
                }
            }
        }
    }
}

/// No two sessions share an id.
pub open spec fn ids_distinct(s: Seq<RecordView>) -> bool {
    forall|i: int, j: int| 0 <= i < j < s.len() ==> #[trigger] s[i].id != #[trigger] s[j].id
}

/// Where ids are distinct, looking a session up gives the record the
/// listing holds under that id, and no record when the listing has none.
pub proof fn law_get_agrees_with_list(s: Seq<RecordView>, id: Seq<char>)
    requires
        ids_distinct(s),
    ensures
        match position_of(s, id) {
            Some(i) => sort_desc(s).contains(s[i]) && forall|j: int|
                0 <= j < sort_desc(s).len() && (#[trigger] sort_desc(s)[j]).id == id ==> sort_desc(s)[j] == s[i],
            None => forall|j: int| 0 <= j < sort_desc(s).len() ==> (#[trigger] sort_desc(s)[j]).id != id,
        },
{
    lemma_sort_desc_members(s);
    lemma_position_some(s, id);
    let t = sort_desc(s);
    match position_of(s, id) {
        Some(i) => {
            assert(s.contains(s[i]));
            assert forall|j: int| 0 <= j < t.len() && (#[trigger] t[j]).id == id implies t[j] == s[i] by {
                assert(t.contains(t[j]));
                let k = choose|k: int| 0 <= k < s.len() && s[k] == t[j];
                if k < i {
                    assert(s[k].id != s[i].id);
                } else if k > i {
                    assert(s[i].id != s[k].id);
                }
            }
        },
        None => {
            assert forall|j: int| 0 <= j < t.len() implies (#[trigger] t[j]).id != id by {
                assert(t.contains(t[j]));
                let k = choose|k: int| 0 <= k < s.len() && s[k] == t[j];
                lemma_listed_id_found(s, k);
            }
        },
    }
}

/// An emptied session file reads back as no messages.
pub proof fn law_cleared_file_reads_empty()
    ensures
        stored_history(lines(Seq::<char>::empty())) == Some(Seq::<(Seq<char>, Seq<char>)>::empty()),
{
    assert(lines(Seq::<char>::empty()).len() == 0);
}

// ── Session files ───────────────────────────────────────────────────────────

/// The JSON line a message is stored as:
/// `{"role":..,"content":..,"timestamp":..}`.
pub open spec fn session_line(role: Seq<char>, content: Seq<char>, timestamp: Seq<char>) -> Seq<char> {
    "{\"role\":"@ + quoted(role) + ",\"content\":"@ + quoted(content) + ",\"timestamp\":"@ + quoted(
        timestamp,
    ) + "}"@
}

/// The line for a message, newline included.
pub fn encode_session_line(m: &ChatMessage, timestamp: &str) -> (r: String)
    ensures
        r@ == session_line(m.role@, m.content@, timestamp@) + "\n"@,
{
    let mut out = String::from_str("{\"role\":");
    push_json_string(&mut out, m.role.as_str());
    out.append(",\"content\":");
    push_json_string(&mut out, m.content.as_str());
    out.append(",\"timestamp\":");
    push_json_string(&mut out, timestamp);
    out.append("}");
    out.append("\n");
    proof {
        assert(out@ =~= session_line(m.role@, m.content@, timestamp@) + "\n"@);
    }
    out
}

pub open spec fn str_of(v: JsonValue) -> Option<Seq<char>> {
    match v {
        JsonValue::Str(s, _) => Some(s@),
        _ => None,
    }
}

pub open spec fn str_at(v: JsonValue, key: Seq<char>) -> Option<Seq<char>> {
    match get_key(v, key) {
        Some(x) => str_of(x),
        None => None,
    }
}

/// A stored line read back as serde reads it: an object whose `role`,
/// `content` and `timestamp` are strings, or an array of exactly three
/// strings in that order; the role and content are kept.
pub open spec fn stored_message(v: JsonValue) -> Option<(Seq<char>, Seq<char>)> {
    match v {
        JsonValue::Object(_, _) => match (str_at(v, "role"@), str_at(v, "content"@), str_at(v, "timestamp"@)) {
            (Some(r), Some(c), Some(_)) => Some((r, c)),
            _ => None,
        },
        JsonValue::Array(items, _) => if items@.len() == 3 {
            match (str_of(items@[0]), str_of(items@[1]), str_of(items@[2])) {
                (Some(r), Some(c), Some(_)) => Some((r, c)),
                _ => None,
            }
        } else {
            None
        },
        _ => None,
    }
}

/// The messages of a session file, blank lines skipped; `None` when a line
/// is not a stored message.
pub open spec fn stored_history(ls: Seq<Seq<char>>) -> Option<Seq<(Seq<char>, Seq<char>)>>
    decreases ls.len(),
{
    if ls.len() == 0 {
        Some(Seq::empty())
    } else {
        match stored_history(ls.drop_last()) {
            None => None,
            Some(h) => if trim(ls.last()).len() == 0 {
                Some(h)
            } else {
                match json_parsed(ls.last()) {
                    Some(v) => match stored_message(v) {
                        Some(m) => Some(h.push(m)),
                        None => None,
                    },
                    None => None,
                }
            },
        }
    }
}

/// What to do with a session file after reading it.
#[derive(PartialEq, Eq, Structural, Clone, Copy)]
pub enum HistoryFile {
    /// Leave it.
    Keep,
    /// It is missing: create it empty.
    Create,
    /// It is malformed: empty it.
    Truncate,
}

pub open spec fn msg_pairs(s: Seq<ChatMessage>) -> Seq<(Seq<char>, Seq<char>)> {
    s.map_values(|m: ChatMessage| (m.role@, m.content@))
}

fn stored_message_of(v: &JsonValue) -> (r: Option<ChatMessage>)
    ensures
        match r {
            Some(m) => stored_message(*v) == Some((m.role@, m.content@)),
            None => stored_message(*v) is None,
        },
{
    match v {
        JsonValue::Object(_, _) => {
            let role = match v.get("role") {
                Some(JsonValue::Str(s, _)) => s,
                _ => return None,
            };
            let content = match v.get("content") {
                Some(JsonValue::Str(s, _)) => s,
                _ => return None,
            };
            match v.get("timestamp") {
                Some(JsonValue::Str(_, _)) => Some(ChatMessage { role: role.clone(), content: content.clone() }),
                _ => None,
            }
        },
        JsonValue::Array(items, _) => {
            if items.len() != 3 {
                return None;
            }
            match (&items[0], &items[1], &items[2]) {
                (JsonValue::Str(r, _), JsonValue::Str(c, _), JsonValue::Str(_, _)) => Some(
                    ChatMessage { role: r.clone(), content: c.clone() },
                ),
                _ => None,
            }
        },
        _ => None,
    }
}

fn stored_history_of(text: &str) -> (r: Option<Vec<ChatMessage>>)
    ensures
        match r {
            Some(h) => stored_history(lines(text@)) == Some(msg_pairs(h@)),
            None => stored_history(lines(text@)) is None,
        },
{
    let v = chars_of(text);
    let ls = lines_of(v.as_slice());
    let mut out: Vec<ChatMessage> = Vec::new();
    let mut i: usize = 0;
    while i < ls.len()
        invariant
            i <= ls@.len(),
            cviews(ls@) == lines(text@),
            stored_history(cviews(ls@).take(i as int)) == Some(msg_pairs(out@)),
        decreases ls.len() - i,
    {
        let ghost t = cviews(ls@).take(i + 1);
        proof {
            assert(t.drop_last() =~= cviews(ls@).take(i as int));
            assert(t.last() == ls@[i as int]@);
        }
        let line = string_from(ls[i].as_slice());
        let tl = trim_str(line.as_str());
        if !tl.as_str().is_empty() {
            let parsed = match parse_json(line.as_str()) {
                Ok(v) => v,
                Err(_) => {
                    proof {
                        lemma_history_prefix_none(cviews(ls@), i + 1);
                    }
                    return None;
                },
            };
            match stored_message_of(&parsed) {
                Some(m) => {
                    let ghost before = out@;
                    out.push(m);
                    proof {
                        assert(msg_pairs(out@) =~= msg_pairs(before).push((m.role@, m.content@)));
                    }
                },
                None => {
                    proof {
                        lemma_history_prefix_none(cviews(ls@), i + 1);
                    }
                    return None;
                },
            }
        }
        i = i + 1;
    }
    proof {
        assert(cviews(ls@).take(ls@.len() as int) =~= cviews(ls@));
    }
    Some(out)
}

proof fn lemma_history_prefix_none(ls: Seq<Seq<char>>, k: int)
    requires
        0 <= k <= ls.len(),
        stored_history(ls.take(k)) is None,
    ensures
        stored_history(ls) is None,
    decreases ls.len() - k,
{
    if k < ls.len() {
        assert(ls.take(k + 1).drop_last() =~= ls.take(k));
        lemma_history_prefix_none(ls, k + 1);
    } else {
        assert(ls.take(k) =~= ls);
    }
}

impl SessionManager {
    /// The history of a session given its file's text (`None` when the file
    /// is missing): the stored messages in order, and the message count
    /// recorded; a missing file is created and a malformed one emptied,
    /// both giving no messages.
    pub fn load_history(&mut self, session_id: &str, file: Option<&str>) -> (r: Result<
        (Vec<ChatMessage>, HistoryFile),
        SessionError,
    >)
        ensures
            old(self).wf() ==> final(self).wf(),
            final(self).dir() == old(self).dir(),
            final(self).index_file() == old(self).index_file(),
            final(self).version() == old(self).version(),
            final(self).current() == old(self).current(),
            !uuid_parses(session_id@) ==> (r matches Err(e) && e.message@ == invalid_id_msg(session_id@)
                && final(self).sessions() == old(self).sessions()),
            uuid_parses(session_id@) ==> match file {
                None => r matches Ok((h, action)) && h@.len() == 0 && action == HistoryFile::Create
                    && final(self).sessions() == old(self).sessions(),
                Some(text) => match stored_history(lines(text@)) {
                    None => r matches Ok((h, action)) && h@.len() == 0 && action == HistoryFile::Truncate
                        && final(self).sessions() == match position_of(old(self).sessions(), session_id@) {
                        Some(i) => old(self).sessions().update(
                            i,
                            RecordView { message_count: 0, ..old(self).sessions()[i] },
                        ),
                        None => old(self).sessions(),
                    },
                    Some(msgs) => r matches Ok((h, action)) && msg_pairs(h@) == msgs && action
                        == HistoryFile::Keep && final(self).sessions() == match position_of(
                        old(self).sessions(),
                        session_id@,
                    ) {
                        Some(i) => old(self).sessions().update(
                            i,
                            RecordView { message_count: h@.len() as usize, ..old(self).sessions()[i] },
                        ),
                        None => old(self).sessions(),
                    },
                },
            },
    {
        match validate_session_id(session_id) {
            Ok(()) => {},
            Err(e) => {
                return Err(e);
            },
        }
        let text = match file {
            Some(t) => t,
            None => {
                return Ok((Vec::new(), HistoryFile::Create));
            },
        };
        match stored_history_of(text) {
            None => {
                let _ = self.update_message_count(session_id, 0);
                Ok((Vec::new(), HistoryFile::Truncate))
            },
            Some(h) => {
                let _ = self.update_message_count(session_id, h.len());
                Ok((h, HistoryFile::Keep))
            },
        }
    }
}

} // verus!
