use vstd::prelude::*;

use crate::text::{str_eq, views};

verus! {

/// The most user messages a session may have waiting.
pub const MAX_QUEUED_MESSAGES_PER_SESSION: usize = 5;

/// A user message waiting for its session to be free.
#[derive(Debug)]
pub struct QueuedInput {
    pub id: String,
    pub content: String,
}

/// What became of a submitted message.
#[derive(Debug, PartialEq, Eq, Structural)]
pub enum SubmitOutcome {
    /// A run slot was reserved; the caller starts the run.
    Reserved,
    /// The message was queued.
    Queued,
}

/// The scheduling state of the gateway: which sessions have a run, which
/// are starting one, and the messages queued per session.
pub struct RunManager {
    next_run_id: u64,
    max_concurrent_sessions: usize,
    active: Vec<(String, u64)>,
    starting: Vec<String>,
    queues: Vec<(String, Vec<QueuedInput>)>,
}

/// A queued message as plain values: its id and content.
pub open spec fn item_view(q: QueuedInput) -> (Seq<char>, Seq<char>) {
    (q.id@, q.content@)
}

pub open spec fn item_views(s: Seq<QueuedInput>) -> Seq<(Seq<char>, Seq<char>)> {
    s.map_values(|q: QueuedInput| item_view(q))
}

pub open spec fn queue_view(e: (String, Vec<QueuedInput>)) -> (Seq<char>, Seq<(Seq<char>, Seq<char>)>) {
    (e.0@, item_views(e.1@))
}

/// No two elements are equal.
pub open spec fn distinct(s: Seq<Seq<char>>) -> bool {
    forall|i: int, j: int| 0 <= i < j < s.len() ==> #[trigger] s[i] != #[trigger] s[j]
}

/// The first position of `x` in `s`.
pub open spec fn first_pos(s: Seq<Seq<char>>, x: Seq<char>) -> Option<int>
    decreases s.len(),
{
    if s.len() == 0 {
        None
    } else {
        match first_pos(s.drop_last(), x) {
            Some(i) => Some(i),
            None => if s.last() == x {
                Some(s.len() - 1)
            } else {
                None
            },
        }
    }
}

pub proof fn lemma_first_pos(s: Seq<Seq<char>>, x: Seq<char>)
    ensures
        match first_pos(s, x) {
            Some(i) => 0 <= i < s.len() && s[i] == x && forall|j: int| 0 <= j < i ==> s[j] != x,
            None => !s.contains(x),
        },
    decreases s.len(),
{
    if s.len() > 0 {
        let t = s.drop_last();
        lemma_first_pos(t, x);
        match first_pos(t, x) {
            Some(i) => {
                assert(t[i] == s[i]);
                assert forall|j: int| 0 <= j < i implies s[j] != x by {
                    assert(t[j] == s[j]);
                }
            },
            None => {
                assert forall|j: int| 0 <= j < s.len() - 1 implies s[j] != x by {
                    assert(t[j] == s[j]);
                    if s[j] == x {
                        assert(t.contains(x));
                    }
                }
                if s.last() != x {
                    assert forall|j: int| 0 <= j < s.len() implies s[j] != x by {
                    }
                }
            },
        }
    }
}

proof fn lemma_first_pos_of_distinct(s: Seq<Seq<char>>, i: int)
    requires
        distinct(s),
        0 <= i < s.len(),
    ensures
        first_pos(s, s[i]) == Some(i),
{
    lemma_first_pos(s, s[i]);
    match first_pos(s, s[i]) {
        Some(k) => {
            if k != i {
                if k < i {
                    assert(s[k] != s[i]);
                }
            }
        },
        None => {},
    }
}

proof fn lemma_distinct_remove(s: Seq<Seq<char>>, i: int)
    requires
        distinct(s),
        0 <= i < s.len(),
    ensures
        distinct(s.remove(i)),
        forall|x: Seq<char>| s.remove(i).contains(x) <==> (s.contains(x) && x != s[i]),
{
    let t = s.remove(i);
    assert forall|a: int, b: int| 0 <= a < b < t.len() implies #[trigger] t[a] != #[trigger] t[b] by {
        let a0 = if a < i { a } else { a + 1 };
        let b0 = if b < i { b } else { b + 1 };
        assert(t[a] == s[a0]);
        assert(t[b] == s[b0]);
    }
    assert forall|x: Seq<char>| t.contains(x) <==> (s.contains(x) && x != s[i]) by {
        if t.contains(x) {
            let k = choose|k: int| 0 <= k < t.len() && t[k] == x;
            let k0 = if k < i { k } else { k + 1 };
            assert(s[k0] == x);
        }
        if s.contains(x) && x != s[i] {
            let k = choose|k: int| 0 <= k < s.len() && s[k] == x;
            if k < i {
                assert(t[k] == x);
            } else {
                assert(t[k - 1] == x);
            }
        }
    }
}

proof fn lemma_distinct_push(s: Seq<Seq<char>>, x: Seq<char>)
    requires
        distinct(s),
        !s.contains(x),
    ensures
        distinct(s.push(x)),
{
    let t = s.push(x);
    assert forall|a: int, b: int| 0 <= a < b < t.len() implies #[trigger] t[a] != #[trigger] t[b] by {
        if b == s.len() {
            assert(t[a] == s[a]);
        } else {
            assert(t[a] == s[a] && t[b] == s[b]);
        }
    }
}

/// The queue error message of a session.
pub open spec fn queue_full_msg(session_id: Seq<char>) -> Seq<char> {
    "Queue is full for session "@ + session_id + " (max 5 queued user messages)."@
}

impl RunManager {
    pub closed spec fn next_id(&self) -> u64 {
        self.next_run_id
    }

    pub closed spec fn max(&self) -> usize {
        self.max_concurrent_sessions
    }

    /// The sessions with a run and their run ids.
    pub closed spec fn runs(&self) -> Seq<(Seq<char>, u64)> {
        self.active@.map_values(|a: (String, u64)| (a.0@, a.1))
    }

    pub open spec fn active_ids(&self) -> Seq<Seq<char>> {
        self.runs().map_values(|a: (Seq<char>, u64)| a.0)
    }

    /// The sessions whose run is being started.
    pub closed spec fn starting(&self) -> Seq<Seq<char>> {
        views(self.starting@)
    }

    /// The queued messages of each session with any.
    pub closed spec fn queues(&self) -> Seq<(Seq<char>, Seq<(Seq<char>, Seq<char>)>)> {
        self.queues@.map_values(|e: (String, Vec<QueuedInput>)| queue_view(e))
    }

    pub open spec fn queue_keys(&self) -> Seq<Seq<char>> {
        self.queues().map_values(|e: (Seq<char>, Seq<(Seq<char>, Seq<char>)>)| e.0)
    }

    /// The messages queued for `s`.
    pub open spec fn queue_of(&self, s: Seq<char>) -> Seq<(Seq<char>, Seq<char>)> {
        match first_pos(self.queue_keys(), s) {
            Some(i) => self.queues()[i].1,
            None => Seq::empty(),
        }
    }

    /// `s` has a run or is starting one.
    pub open spec fn busy(&self, s: Seq<char>) -> bool {
        self.active_ids().contains(s) || self.starting().contains(s)
    }

    /// Runs under way or being started.
    pub open spec fn load(&self) -> int {
        (self.active_ids().len() + self.starting().len()) as int
    }

    /// The state's invariant: no session listed twice, no empty queue and
    /// none longer than the cap, no session both running and starting, and
    /// never more runs than the capacity.
    pub open spec fn wf(&self) -> bool {
        &&& distinct(self.active_ids())
        &&& distinct(self.starting())
        &&& distinct(self.queue_keys())
        &&& forall|i: int|
            0 <= i < self.queues().len() ==> 1 <= (#[trigger] self.queues()[i]).1.len()
                <= MAX_QUEUED_MESSAGES_PER_SESSION
        &&& forall|s: Seq<char>| !(self.active_ids().contains(s) && self.starting().contains(s))
        &&& self.load() <= self.max()
    }

    /// No runs and no queues; run ids start at 1.
    pub fn new(max_concurrent_sessions: usize) -> (r: Self)
        ensures
            r.wf(),
            r.next_id() == 1,
            r.max() == max_concurrent_sessions,
            r.runs().len() == 0,
            r.starting().len() == 0,
            r.queues().len() == 0,
    {
        let r = RunManager {
            next_run_id: 1,
            max_concurrent_sessions,
            active: Vec::new(),
            starting: Vec::new(),
            queues: Vec::new(),
        };
        proof {
            assert(r.active_ids().len() == 0);
            assert(r.starting() =~= Seq::<Seq<char>>::empty());
        }
        r
    }
}

proof fn lemma_first_pos_extend(s: Seq<Seq<char>>, x: Seq<char>, k: int, i: int)
    requires
        0 <= k <= s.len(),
        first_pos(s.take(k), x) == Some(i),
    ensures
        first_pos(s, x) == Some(i),
    decreases s.len() - k,
{
    if k < s.len() {
        let t = s.take(k + 1);
        assert(t.drop_last() == s.take(k));
        lemma_first_pos_extend(s, x, k + 1, i);
    } else {
        assert(s.take(k) == s);
    }
}

proof fn lemma_first_pos_push(s: Seq<Seq<char>>, x: Seq<char>, y: Seq<char>)
    requires
        x != y,
    ensures
        first_pos(s.push(y), x) == first_pos(s, x),
{
    assert(s.push(y).drop_last() == s);
}

fn item_copy(q: &QueuedInput) -> (r: QueuedInput)
    ensures
        item_view(r) == item_view(*q),
{
    QueuedInput { id: q.id.clone(), content: q.content.clone() }
}

impl RunManager {
    fn active_pos(&self, s: &str) -> (r: Option<usize>)
        ensures
            match r {
                Some(i) => first_pos(self.active_ids(), s@) == Some(i as int),
                None => first_pos(self.active_ids(), s@) is None,
            },
    {
        let ghost keys = self.active_ids();
        let mut i: usize = 0;
        while i < self.active.len()
            invariant
                i <= self.active.len(),
                keys == self.active_ids(),
                keys.len() == self.active@.len(),
                first_pos(keys.take(i as int), s@) is None,
            decreases self.active.len() - i,
        {
            proof {
                let t = keys.take(i + 1);
                assert(t.drop_last() == keys.take(i as int));
                assert(keys[i as int] == self.active@[i as int].0@);
            }
            if str_eq(self.active[i].0.as_str(), s) {
                proof {
                    lemma_first_pos_extend(keys, s@, i + 1, i as int);
                }
                return Some(i);
            }
            i = i + 1;
        }
        proof {
            assert(keys.take(i as int) == keys);
        }
        None
    }

    fn starting_pos(&self, s: &str) -> (r: Option<usize>)
        ensures
            match r {
                Some(i) => first_pos(self.starting(), s@) == Some(i as int),
                None => first_pos(self.starting(), s@) is None,
            },
    {
        let ghost keys = self.starting();
        let mut i: usize = 0;
        while i < self.starting.len()
            invariant
                i <= self.starting.len(),
                keys == self.starting(),
                keys.len() == self.starting@.len(),
                first_pos(keys.take(i as int), s@) is None,
            decreases self.starting.len() - i,
        {
            proof {
                let t = keys.take(i + 1);
                assert(t.drop_last() == keys.take(i as int));
                assert(keys[i as int] == self.starting@[i as int]@);
            }
            if str_eq(self.starting[i].as_str(), s) {
                proof {
                    lemma_first_pos_extend(keys, s@, i + 1, i as int);
                }
                return Some(i);
            }
            i = i + 1;
        }
        proof {
            assert(keys.take(i as int) == keys);
        }
        None
    }

    fn queue_pos(&self, s: &str) -> (r: Option<usize>)
        ensures
            match r {
                Some(i) => first_pos(self.queue_keys(), s@) == Some(i as int),
                None => first_pos(self.queue_keys(), s@) is None,
            },
    {
        let ghost keys = self.queue_keys();
        let mut i: usize = 0;
        while i < self.queues.len()
            invariant
                i <= self.queues.len(),
                keys == self.queue_keys(),
                keys.len() == self.queues@.len(),
                first_pos(keys.take(i as int), s@) is None,
            decreases self.queues.len() - i,
        {
            proof {
                let t = keys.take(i + 1);
                assert(t.drop_last() == keys.take(i as int));
                assert(keys[i as int] == self.queues@[i as int].0@);
            }
            if str_eq(self.queues[i].0.as_str(), s) {
                proof {
                    lemma_first_pos_extend(keys, s@, i + 1, i as int);
                }
                return Some(i);
            }
            i = i + 1;
        }
        proof {
            assert(keys.take(i as int) == keys);
        }
        None
    }

    /// Whether session `s` has a run or is starting one.
    pub fn is_busy(&self, s: &str) -> (r: bool)
        ensures
            r == self.busy(s@),
    {
        let a = self.active_pos(s);
        let b = self.starting_pos(s);
        proof {
            lemma_first_pos(self.active_ids(), s@);
            lemma_first_pos(self.starting(), s@);
        }
        a.is_some() || b.is_some()
    }

    /// The id of the run of session `s`, if it has one.
    pub fn run_id_of(&self, s: &str) -> (r: Option<u64>)
        ensures
            match first_pos(self.active_ids(), s@) {
                Some(i) => r == Some(self.runs()[i].1),
                None => r is None,
            },
    {
        match self.active_pos(s) {
            Some(i) => {
                proof {
                    lemma_first_pos(self.active_ids(), s@);
                }
                Some(self.active[i].1)
            },
            None => None,
        }
    }

    /// A copy of the messages queued for `s`.
    pub fn queue_items(&self, s: &str) -> (r: Vec<QueuedInput>)
        ensures
            item_views(r@) == self.queue_of(s@),
    {
        match self.queue_pos(s) {
            None => {
                let out: Vec<QueuedInput> = Vec::new();
                proof {
                    assert(item_views(out@) =~= Seq::<(Seq<char>, Seq<char>)>::empty());
                }
                out
            },
            Some(i) => {
                proof {
                    lemma_first_pos(self.queue_keys(), s@);
                }
                let q = &self.queues[i].1;
                let mut out: Vec<QueuedInput> = Vec::new();
                let mut k: usize = 0;
                while k < q.len()
                    invariant
                        k <= q.len(),
                        item_views(out@) == item_views(q@).take(k as int),
                    decreases q.len() - k,
                {
                    let ghost before = out@;
                    let c = item_copy(&q[k]);
                    out.push(c);
                    proof {
                        assert(item_views(out@) =~= item_views(before).push(item_view(c)));
                        assert(item_views(q@)[k as int] == item_view(q@[k as int]));
                        assert(item_views(out@) =~= item_views(q@).take(k + 1));
                    }
                    k = k + 1;
                }
                proof {
                    assert(item_views(q@).take(k as int) == item_views(q@));
                    assert(self.queues()[i as int] == queue_view(self.queues@[i as int]));
                }
                out
            },
        }
    }
}

fn queue_full_error(session_id: &str) -> (r: String)
    ensures
        r@ == queue_full_msg(session_id@),
{
    let mut m = String::from_str("Queue is full for session ");
    m.append(session_id);
    m.append(" (max 5 queued user messages).");
    m
}

impl RunManager {
    /// Takes a user message for `session_id`: reserves a run slot when the
    /// session is idle and capacity allows, else queues the message, unless
    /// the session's queue is full.
    pub fn reserve_or_queue_submission(&mut self, session_id: &str, content: String) -> (r: Result<
        SubmitOutcome,
        String,
    >)
        requires
            old(self).wf(),
        ensures
            final(self).wf(),
            final(self).next_id() == old(self).next_id(),
            final(self).max() == old(self).max(),
            final(self).runs() == old(self).runs(),
            (old(self).busy(session_id@) || old(self).load() >= old(self).max()) ==> if old(self).queue_of(session_id@).len() >= MAX_QUEUED_MESSAGES_PER_SESSION {
                &&& r matches Err(m) && m@ == queue_full_msg(session_id@)
                &&& final(self).starting() == old(self).starting()
                &&& final(self).queues() == old(self).queues()
            } else {
                &&& r matches Ok(SubmitOutcome::Queued)
                &&& final(self).starting() == old(self).starting()
                &&& final(self).queue_of(session_id@).len() == old(self).queue_of(session_id@).len() + 1
                &&& final(self).queue_of(session_id@).drop_last() == old(self).queue_of(session_id@)
                &&& final(self).queue_of(session_id@).last().1 == content@
                &&& forall|t: Seq<char>| t != session_id@ ==> final(self).queue_of(t) == old(self).queue_of(t)
            },
            !(old(self).busy(session_id@) || old(self).load() >= old(self).max()) ==> {
                &&& r matches Ok(SubmitOutcome::Reserved)
                &&& final(self).starting() == old(self).starting().push(session_id@)
                &&& final(self).queues() == old(self).queues()
            },
    {
        let busy = self.is_busy(session_id);
        proof {
            assert(self.active_ids().len() == self.active@.len());
            assert(self.starting().len() == self.starting@.len());
        }
        let at_capacity = self.active.len() + self.starting.len() >= self.max_concurrent_sessions;
        if !(busy || at_capacity) {
            let ghost old_starting = self.starting();
            self.starting.push(String::from_str(session_id));
            proof {
                assert(self.starting() =~= old_starting.push(session_id@));
                lemma_distinct_push(old_starting, session_id@);
                assert forall|t: Seq<char>| !(self.active_ids().contains(t) && self.starting().contains(t)) by {
                    if self.starting().contains(t) {
                        let k = choose|k: int| 0 <= k < self.starting().len() && self.starting()[k] == t;
                        if k < old_starting.len() {
                            assert(old_starting[k] == t);
                        }
                    }
                }
            }
            return Ok(SubmitOutcome::Reserved);
        }
        let ghost keys = self.queue_keys();
        let ghost qs = self.queues();
        match self.queue_pos(session_id) {
            Some(i) => {
                proof {
                    lemma_first_pos(keys, session_id@);
                    assert(qs[i as int] == queue_view(self.queues@[i as int]));
                    assert(self.queue_of(session_id@) == item_views(self.queues@[i as int].1@));
                }
                if self.queues[i].1.len() >= MAX_QUEUED_MESSAGES_PER_SESSION {
                    return Err(queue_full_error(session_id));
                }
                let item = QueuedInput { id: crate::session::new_uuid(), content };
                let ghost iv = item_view(item);
                let mut entry = self.queues.remove(i);
                let ghost old_items = item_views(entry.1@);
                entry.1.push(item);
                proof {
                    assert(item_views(entry.1@) =~= old_items.push(iv));
                }
                let ghost new_entry = queue_view(entry);
                self.queues.insert(i, entry);
                proof {
                    assert(self.queues() =~= qs.update(i as int, new_entry));
                    assert(self.queue_keys() =~= keys);
                    assert forall|t: Seq<char>| t != session_id@ implies self.queue_of(t) == old(self).queue_of(t) by {
                        lemma_first_pos(keys, t);
                        match first_pos(keys, t) {
                            Some(j) => {
                                assert(j != i);
                            },
                            None => {},
                        }
                    }
                    assert forall|k: int| 0 <= k < self.queues().len() implies 1 <= (
                    #[trigger] self.queues()[k]).1.len() <= MAX_QUEUED_MESSAGES_PER_SESSION by {
                        if k != i {
                            assert(self.queues()[k] == qs[k]);
                        }
                    }
                }
                Ok(SubmitOutcome::Queued)
            },
            None => {
                proof {
                    lemma_first_pos(keys, session_id@);
                }
                let item = QueuedInput { id: crate::session::new_uuid(), content };
                let ghost iv = item_view(item);
                let mut q: Vec<QueuedInput> = Vec::new();
                q.push(item);
                let entry = (String::from_str(session_id), q);
                proof {
                    assert(item_views(entry.1@) =~= seq![iv]);
                }
                let ghost new_entry = queue_view(entry);
                self.queues.push(entry);
                proof {
                    assert(self.queues() =~= qs.push(new_entry));
                    assert(self.queue_keys() =~= keys.push(session_id@));
                    lemma_distinct_push(keys, session_id@);
                    lemma_first_pos(self.queue_keys(), session_id@);
                    lemma_first_pos_of_distinct(self.queue_keys(), keys.len() as int);
                    assert forall|t: Seq<char>| t != session_id@ implies self.queue_of(t) == old(self).queue_of(t) by {
                        lemma_first_pos_push(keys, t, session_id@);
                        lemma_first_pos(keys, t);
                        match first_pos(keys, t) {
                            Some(j) => {
                                assert(self.queues()[j] == qs[j]);
                            },
                            None => {},
                        }
                    }
                    assert forall|k: int| 0 <= k < self.queues().len() implies 1 <= (
                    #[trigger] self.queues()[k]).1.len() <= MAX_QUEUED_MESSAGES_PER_SESSION by {
                        if k < qs.len() {
                            assert(self.queues()[k] == qs[k]);
                        }
                    }
                }
                Ok(SubmitOutcome::Queued)
            },
        }
    }
}

/// The first queue whose session neither runs nor is starting.
pub open spec fn first_ready(
    keys: Seq<Seq<char>>,
    active: Seq<Seq<char>>,
    starting: Seq<Seq<char>>,
) -> Option<int>
    decreases keys.len(),
{
    if keys.len() == 0 {
        None
    } else {
        match first_ready(keys.drop_last(), active, starting) {
            Some(i) => Some(i),
            None => if !active.contains(keys.last()) && !starting.contains(keys.last()) {
                Some(keys.len() - 1)
            } else {
                None
            },
        }
    }
}

proof fn lemma_first_ready_extend(
    keys: Seq<Seq<char>>,
    active: Seq<Seq<char>>,
    starting: Seq<Seq<char>>,
    k: int,
    i: int,
)
    requires
        0 <= k <= keys.len(),
        first_ready(keys.take(k), active, starting) == Some(i),
    ensures
        first_ready(keys, active, starting) == Some(i),
    decreases keys.len() - k,
{
    if k < keys.len() {
        let t = keys.take(k + 1);
        assert(t.drop_last() == keys.take(k));
        lemma_first_ready_extend(keys, active, starting, k + 1, i);
    } else {
        assert(keys.take(k) == keys);
    }
}

proof fn lemma_first_ready_range(keys: Seq<Seq<char>>, active: Seq<Seq<char>>, starting: Seq<Seq<char>>)
    ensures
        first_ready(keys, active, starting) matches Some(i) ==> 0 <= i < keys.len() && !active.contains(
            keys[i],
        ) && !starting.contains(keys[i]),
    decreases keys.len(),
{
    if keys.len() > 0 {
        lemma_first_ready_range(keys.drop_last(), active, starting);
        if let Some(i) = first_ready(keys.drop_last(), active, starting) {
            assert(keys.drop_last()[i] == keys[i]);
        }
    }
}

/// The ids of queued messages.
pub open spec fn item_ids(q: Seq<(Seq<char>, Seq<char>)>) -> Seq<Seq<char>> {
    q.map_values(|x: (Seq<char>, Seq<char>)| x.0)
}

fn run_error(prefix: &str, session_id: &str) -> (r: String)
    ensures
        r@ == prefix@ + session_id@,
{
    let mut m = String::from_str(prefix);
    m.append(session_id);
    m
}

fn item_pos(q: &Vec<QueuedInput>, id: &str) -> (r: Option<usize>)
    ensures
        match r {
            Some(k) => first_pos(item_ids(item_views(q@)), id@) == Some(k as int),
            None => first_pos(item_ids(item_views(q@)), id@) is None,
        },
{
    let ghost ids = item_ids(item_views(q@));
    let mut k: usize = 0;
    while k < q.len()
        invariant
            k <= q.len(),
            ids == item_ids(item_views(q@)),
            ids.len() == q@.len(),
            first_pos(ids.take(k as int), id@) is None,
        decreases q.len() - k,
    {
        proof {
            let t = ids.take(k + 1);
            assert(t.drop_last() == ids.take(k as int));
            assert(ids[k as int] == q@[k as int].id@);
        }
        if str_eq(q[k].id.as_str(), id) {
            proof {
                lemma_first_pos_extend(ids, id@, k + 1, k as int);
            }
            return Some(k);
        }
        k = k + 1;
    }
    proof {
        assert(ids.take(k as int) == ids);
    }
    None
}

impl RunManager {
    fn ready_pos(&self) -> (r: Option<usize>)
        ensures
            match r {
                Some(i) => first_ready(self.queue_keys(), self.active_ids(), self.starting()) == Some(
                    i as int,
                ),
                None => first_ready(self.queue_keys(), self.active_ids(), self.starting()) is None,
            },
    {
        let ghost keys = self.queue_keys();
        let mut i: usize = 0;
        while i < self.queues.len()
            invariant
                i <= self.queues.len(),
                keys == self.queue_keys(),
                keys.len() == self.queues@.len(),
                first_ready(keys.take(i as int), self.active_ids(), self.starting()) is None,
            decreases self.queues.len() - i,
        {
            proof {
                let t = keys.take(i + 1);
                assert(t.drop_last() == keys.take(i as int));
                assert(keys[i as int] == self.queues@[i as int].0@);
            }
            if !self.is_busy(self.queues[i].0.as_str()) {
                proof {
                    lemma_first_ready_extend(keys, self.active_ids(), self.starting(), i + 1, i as int);
                }
                return Some(i);
            }
            i = i + 1;
        }
        proof {
            assert(keys.take(i as int) == keys);
        }
        None
    }

    /// The queues without the one at `i`, as after it empties.
    proof fn lemma_queue_removed(&self, i: int, other: Self)
        requires
            self.wf(),
            0 <= i < self.queues().len(),
            other.queues() == self.queues().remove(i),
        ensures
            distinct(other.queue_keys()),
            forall|k: int|
                0 <= k < other.queues().len() ==> 1 <= (#[trigger] other.queues()[k]).1.len()
                    <= MAX_QUEUED_MESSAGES_PER_SESSION,
    {
        assert(other.queue_keys() =~= self.queue_keys().remove(i));
        lemma_distinct_remove(self.queue_keys(), i);
        assert forall|k: int| 0 <= k < other.queues().len() implies 1 <= (
        #[trigger] other.queues()[k]).1.len() <= MAX_QUEUED_MESSAGES_PER_SESSION by {
            if k < i {
                assert(other.queues()[k] == self.queues()[k]);
            } else {
                assert(other.queues()[k] == self.queues()[k + 1]);
            }
        }
    }

    /// Picks the next queued message that can start: when capacity allows,
    /// the oldest message of the first queue whose session is idle. Its
    /// session gets a run slot.
    pub fn next_queued_run(&mut self) -> (r: Option<(String, String)>)
        requires
            old(self).wf(),
        ensures
            final(self).wf(),
            final(self).next_id() == old(self).next_id(),
            final(self).max() == old(self).max(),
            final(self).runs() == old(self).runs(),
            old(self).load() >= old(self).max() ==> r is None && final(self).starting() == old(self).starting() && final(self).queues() == old(self).queues(),
            old(self).load() < old(self).max() ==> match first_ready(
                old(self).queue_keys(),
                old(self).active_ids(),
                old(self).starting(),
            ) {
                None => r is None && final(self).starting() == old(self).starting() && final(self).queues() == old(self).queues(),
                Some(i) => r matches Some((sid, content)) && sid@ == old(self).queues()[i].0
                    && content@ == old(self).queues()[i].1[0].1 && final(self).starting() == old(self).starting().push(sid@) && final(self).queues() == if old(self).queues()[i].1.len()
                    == 1 {
                    old(self).queues().remove(i)
                } else {
                    old(self).queues().update(i, (sid@, old(self).queues()[i].1.drop_first()))
                },
            },
    {
        proof {
            assert(self.active_ids().len() == self.active@.len());
            assert(self.starting().len() == self.starting@.len());
        }
        if self.active.len() + self.starting.len() >= self.max_concurrent_sessions {
            return None;
        }
        let ghost keys = self.queue_keys();
        let ghost qs = self.queues();
        let i = match self.ready_pos() {
            Some(i) => i,
            None => {
                return None;
            },
        };
        proof {
            lemma_first_ready_range(keys, self.active_ids(), self.starting());
            assert(qs[i as int] == queue_view(self.queues@[i as int]));
        }
        let ghost old_self_starting = self.starting();
        let mut entry = self.queues.remove(i);
        let ghost old_items = item_views(entry.1@);
        let first = entry.1.remove(0);
        proof {
            assert(item_views(entry.1@) =~= old_items.drop_first());
            assert(item_view(first) == old_items[0]);
        }
        let sid = entry.0.clone();
        if entry.1.len() > 0 {
            let ghost ne = queue_view(entry);
            self.queues.insert(i, entry);
            proof {
                assert(self.queues() =~= qs.update(i as int, ne));
                assert(self.queue_keys() =~= keys);
                assert forall|k: int| 0 <= k < self.queues().len() implies 1 <= (
                #[trigger] self.queues()[k]).1.len() <= MAX_QUEUED_MESSAGES_PER_SESSION by {
                    if k != i {
                        assert(self.queues()[k] == qs[k]);
                    }
                }
            }
        } else {
            proof {
                assert(self.queues() =~= qs.remove(i as int));
                old(self).lemma_queue_removed(i as int, *self);
            }
        }
        self.starting.push(sid.clone());
        proof {
            assert(self.starting() =~= old_self_starting.push(sid@));
            lemma_distinct_push(old_self_starting, sid@);
            assert forall|t: Seq<char>| !(self.active_ids().contains(t) && self.starting().contains(t)) by {
                if self.starting().contains(t) {
                    let k = choose|k: int| 0 <= k < self.starting().len() && self.starting()[k] == t;
                    if k < old_self_starting.len() {
                        assert(old_self_starting[k] == t);
                    }
                }
            }
        }
        Some((sid, first.content))
    }

    /// Drops queued messages of `session_id`: the one with id
    /// `queue_item_id`, or all of them. Tells whether anything was dropped.
    pub fn cancel_queued_inputs(&mut self, session_id: &str, queue_item_id: Option<&str>) -> (r: bool)
        requires
            old(self).wf(),
        ensures
            final(self).wf(),
            final(self).next_id() == old(self).next_id(),
            final(self).max() == old(self).max(),
            final(self).runs() == old(self).runs(),
            final(self).starting() == old(self).starting(),
            match first_pos(old(self).queue_keys(), session_id@) {
                None => !r && final(self).queues() == old(self).queues(),
                Some(qi) => {
                    let q = old(self).queues()[qi].1;
                    match queue_item_id {
                        None => r && final(self).queues() == old(self).queues().remove(qi),
                        Some(id) => match first_pos(item_ids(q), id@) {
                            None => !r && final(self).queues() == old(self).queues(),
                            Some(k) => r && final(self).queues() == if q.len() == 1 {
                                old(self).queues().remove(qi)
                            } else {
                                old(self).queues().update(qi, (session_id@, q.remove(k)))
                            },
                        },
                    }
                },
            },
    {
        let ghost keys = self.queue_keys();
        let ghost qs = self.queues();
        let qi = match self.queue_pos(session_id) {
            Some(qi) => qi,
            None => {
                return false;
            },
        };
        proof {
            lemma_first_pos(keys, session_id@);
            assert(qs[qi as int] == queue_view(self.queues@[qi as int]));
        }
        match queue_item_id {
            None => {
                let _ = self.queues.remove(qi);
                proof {
                    assert(self.queues() =~= qs.remove(qi as int));
                    old(self).lemma_queue_removed(qi as int, *self);
                }
                true
            },
            Some(id) => {
                let ghost q = qs[qi as int].1;
                let k = match item_pos(&self.queues[qi].1, id) {
                    Some(k) => k,
                    None => {
                        return false;
                    },
                };
                proof {
                    lemma_first_pos(item_ids(q), id@);
                }
                let mut entry = self.queues.remove(qi);
                let _ = entry.1.remove(k);
                proof {
                    assert(item_views(entry.1@) =~= q.remove(k as int));
                }
                if entry.1.len() > 0 {
                    let ghost ne = queue_view(entry);
                    self.queues.insert(qi, entry);
                    proof {
                        assert(self.queues() =~= qs.update(qi as int, ne));
                        assert(self.queue_keys() =~= keys);
                        assert forall|j: int| 0 <= j < self.queues().len() implies 1 <= (
                        #[trigger] self.queues()[j]).1.len() <= MAX_QUEUED_MESSAGES_PER_SESSION by {
                            if j != qi {
                                assert(self.queues()[j] == qs[j]);
                            }
                        }
                    }
                } else {
                    proof {
                        assert(self.queues() =~= qs.remove(qi as int));
                        old(self).lemma_queue_removed(qi as int, *self);
                    }
                }
                true
            },
        }
    }
}

impl RunManager {
    /// Whether the starting sessions lose `s`: they become `t`.
    proof fn lemma_starting_removed(&self, other: Self, i: int)
        requires
            self.wf(),
            0 <= i < self.starting().len(),
            other.starting() == self.starting().remove(i),
            other.active_ids() == self.active_ids(),
            other.max() == self.max(),
        ensures
            distinct(other.starting()),
            forall|t: Seq<char>| !(other.active_ids().contains(t) && other.starting().contains(t)),
            other.load() < self.load(),
    {
        lemma_distinct_remove(self.starting(), i);
    }

    /// Gives up the run slot `session_id` reserved.
    pub fn release_starting_slot(&mut self, session_id: &str)
        requires
            old(self).wf(),
        ensures
            final(self).wf(),
            final(self).next_id() == old(self).next_id(),
            final(self).max() == old(self).max(),
            final(self).runs() == old(self).runs(),
            final(self).queues() == old(self).queues(),
            final(self).starting() == match first_pos(old(self).starting(), session_id@) {
                Some(i) => old(self).starting().remove(i),
                None => old(self).starting(),
            },
    {
        match self.starting_pos(session_id) {
            Some(i) => {
                proof {
                    lemma_first_pos(old(self).starting(), session_id@);
                }
                let _ = self.starting.remove(i);
                proof {
                    assert(self.starting() =~= old(self).starting().remove(i as int));
                    old(self).lemma_starting_removed(*self, i as int);
                }
            },
            None => {},
        }
    }

    /// Hands out the next run id to the session that reserved a slot.
    pub fn allocate_run_id(&mut self, session_id: &str) -> (r: Result<u64, String>)
        requires
            old(self).wf(),
        ensures
            final(self).wf(),
            final(self).max() == old(self).max(),
            final(self).runs() == old(self).runs(),
            final(self).queues() == old(self).queues(),
            final(self).starting() == old(self).starting(),
            old(self).starting().contains(session_id@) ==> r == Ok::<u64, String>(old(self).next_id())
                && final(self).next_id() == if old(self).next_id() == u64::MAX {
                u64::MAX
            } else {
                (old(self).next_id() + 1) as u64
            },
            !old(self).starting().contains(session_id@) ==> (r matches Err(m) && m@
                == "run slot reservation missing for session "@ + session_id@) && final(self).next_id()
                == old(self).next_id(),
    {
        let found = self.starting_pos(session_id);
        proof {
            lemma_first_pos(self.starting(), session_id@);
        }
        if found.is_none() {
            return Err(run_error("run slot reservation missing for session ", session_id));
        }
        let id = self.next_run_id;
        self.next_run_id = self.next_run_id.saturating_add(1);
        Ok(id)
    }

    /// Turns the reserved slot of `session_id` into its run `run_id`; when
    /// the session already has a run, the slot is dropped and an error
    /// returned.
    pub fn activate_run(&mut self, session_id: &str, run_id: u64) -> (r: Result<(), String>)
        requires
            old(self).wf(),
            old(self).starting().contains(session_id@),
        ensures
            final(self).wf(),
            final(self).next_id() == old(self).next_id(),
            final(self).max() == old(self).max(),
            final(self).queues() == old(self).queues(),
            final(self).starting() == old(self).starting().remove(
                first_pos(old(self).starting(), session_id@)->0,
            ),
            old(self).active_ids().contains(session_id@) ==> (r matches Err(m) && m@
                == "active run already exists for session "@ + session_id@) && final(self).runs()
                == old(self).runs(),
            !old(self).active_ids().contains(session_id@) ==> r is Ok && final(self).runs() == old(
                self).runs().push((session_id@, run_id)),
    {
        proof {
            lemma_first_pos(old(self).starting(), session_id@);
            lemma_first_pos(old(self).active_ids(), session_id@);
        }
        let si = match self.starting_pos(session_id) {
            Some(i) => i,
            None => {
                return Err(run_error("run slot reservation missing for session ", session_id));
            },
        };
        let running = self.active_pos(session_id).is_some();
        let _ = self.starting.remove(si);
        proof {
            assert(self.starting() =~= old(self).starting().remove(si as int));
            old(self).lemma_starting_removed(*self, si as int);
        }
        if running {
            return Err(run_error("active run already exists for session ", session_id));
        }
        let ghost old_active = self.active_ids();
        let ghost mid = *self;
        self.active.push((String::from_str(session_id), run_id));
        proof {
            assert(self.runs() =~= old(self).runs().push((session_id@, run_id)));
            assert(self.active_ids() =~= old_active.push(session_id@));
            lemma_distinct_push(old_active, session_id@);
            lemma_distinct_remove(old(self).starting(), si as int);
            assert forall|t: Seq<char>| !(self.active_ids().contains(t) && self.starting().contains(t)) by {
                if self.active_ids().contains(t) {
                    let k = choose|k: int| 0 <= k < self.active_ids().len() && self.active_ids()[k] == t;
                    if k < old_active.len() {
                        assert(old_active[k] == t);
                        assert(old(self).active_ids().contains(t));
                    }
                }
            }
        }
        Ok(())
    }

    /// Ends run `run_id` of `session_id`, if it is the session's run.
    pub fn clear_active_run(&mut self, session_id: &str, run_id: u64)
        requires
            old(self).wf(),
        ensures
            final(self).wf(),
            final(self).next_id() == old(self).next_id(),
            final(self).max() == old(self).max(),
            final(self).queues() == old(self).queues(),
            final(self).starting() == old(self).starting(),
            final(self).runs() == match first_pos(old(self).active_ids(), session_id@) {
                Some(i) => if old(self).runs()[i].1 == run_id {
                    old(self).runs().remove(i)
                } else {
                    old(self).runs()
                },
                None => old(self).runs(),
            },
    {
        match self.active_pos(session_id) {
            Some(i) => {
                proof {
                    lemma_first_pos(old(self).active_ids(), session_id@);
                }
                if self.active[i].1 == run_id {
                    let _ = self.active.remove(i);
                    proof {
                        assert(self.runs() =~= old(self).runs().remove(i as int));
                        assert(self.active_ids() =~= old(self).active_ids().remove(i as int));
                        lemma_distinct_remove(old(self).active_ids(), i as int);
                    }
                }
            },
            None => {},
        }
    }

    /// Stops the run of `session_id` for `reason`: its queue is dropped and
    /// its run removed; gives the removed run's id and the assistant note to
    /// record in the session's history.
    pub fn stop_active_run(&mut self, session_id: &str, reason: &str) -> (r: Option<(u64, String)>)
        requires
            old(self).wf(),
        ensures
            final(self).wf(),
            final(self).next_id() == old(self).next_id(),
            final(self).max() == old(self).max(),
            final(self).starting() == old(self).starting(),
            final(self).queues() == match first_pos(old(self).queue_keys(), session_id@) {
                Some(i) => old(self).queues().remove(i),
                None => old(self).queues(),
            },
            match first_pos(old(self).active_ids(), session_id@) {
                Some(i) => (r matches Some((id, note)) && id == old(self).runs()[i].1 && note@ == stop_note(
                    reason@,
                )) && final(self).runs() == old(self).runs().remove(i),
                None => r is None && final(self).runs() == old(self).runs(),
            },
    {
        match self.queue_pos(session_id) {
            Some(qi) => {
                proof {
                    lemma_first_pos(old(self).queue_keys(), session_id@);
                }
                let _ = self.queues.remove(qi);
                proof {
                    assert(self.queues() =~= old(self).queues().remove(qi as int));
                    old(self).lemma_queue_removed(qi as int, *self);
                }
            },
            None => {},
        }
        let ghost mid_runs = self.runs();
        let ghost mid_ids = self.active_ids();
        match self.active_pos(session_id) {
            Some(i) => {
                proof {
                    lemma_first_pos(mid_ids, session_id@);
                }
                let removed = self.active.remove(i);
                proof {
                    assert(self.runs() =~= mid_runs.remove(i as int));
                    assert(self.active_ids() =~= mid_ids.remove(i as int));
                    lemma_distinct_remove(mid_ids, i as int);
                }
                Some((removed.1, stop_note_text(reason)))
            },
            None => None,
        }
    }
}

/// The note a stopped run leaves in the history: `Stopped by user.` when
/// the user cancelled it, else `Stopped: ` and the reason.
pub open spec fn stop_note(reason: Seq<char>) -> Seq<char> {
    if reason == "user_cancelled"@ {
        "Stopped by user."@
    } else {
        "Stopped: "@ + reason
    }
}

fn stop_note_text(reason: &str) -> (r: String)
    ensures
        r@ == stop_note(reason@),
{
    if crate::text::str_eq(reason, "user_cancelled") {
        String::from_str("Stopped by user.")
    } else {
        let mut m = String::from_str("Stopped: ");
        m.append(reason);
        m
    }
}

/// However messages arrive, no session ever has more than
/// `MAX_QUEUED_MESSAGES_PER_SESSION` messages waiting.
pub proof fn law_queue_capped(m: RunManager, s: Seq<char>)
    requires
        m.wf(),
    ensures
        m.queue_of(s).len() <= MAX_QUEUED_MESSAGES_PER_SESSION,
{
    lemma_first_pos(m.queue_keys(), s);
    match first_pos(m.queue_keys(), s) {
        Some(i) => {
            assert(m.queues()[i].1.len() <= MAX_QUEUED_MESSAGES_PER_SESSION);
        },
        None => {},
    }
}

/// Runs under way and runs being started never outnumber the configured
/// maximum of concurrent sessions.
pub proof fn law_load_within_capacity(m: RunManager)
    requires
        m.wf(),
    ensures
        m.active_ids().len() + m.starting().len() <= m.max(),
{
}

/// A session has at most one run, and a session with a run is not also
/// starting one.
pub proof fn law_one_run_per_session(m: RunManager, s: Seq<char>, i: int, j: int)
    requires
        m.wf(),
        0 <= i < j < m.active_ids().len(),
    ensures
        m.active_ids()[i] != m.active_ids()[j],
        m.active_ids().contains(s) ==> !m.starting().contains(s),
{
}

} // verus!
