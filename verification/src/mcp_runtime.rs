use vstd::prelude::*;

use crate::config::McpServerConfig;
use crate::text::str_eq;

verus! {

/// Where the connection to an MCP server stands.
#[derive(Debug, Clone, Copy, PartialEq, Eq, Structural)]
pub enum McpServerState {
    Pending,
    Connecting,
    Ready,
    Failed,
    Disabled,
}

/// A tool an MCP server offers.
#[derive(Debug)]
pub struct McpToolStatus {
    pub name: String,
    pub description: Option<String>,
}

/// The status of one MCP server.
#[derive(Debug)]
pub struct McpServerStatus {
    pub name: String,
    pub state: McpServerState,
    pub tool_count: usize,
    pub tools: Vec<McpToolStatus>,
    pub error: Option<String>,
}

/// The status of all MCP servers.
#[derive(Debug)]
pub struct McpStatusSnapshot {
    pub enabled: bool,
    pub servers: Vec<McpServerStatus>,
}

/// A server status as plain values.
pub struct StatusView {
    pub name: Seq<char>,
    pub state: McpServerState,
    pub tool_count: usize,
    pub tools: Seq<(Seq<char>, Option<Seq<char>>)>,
    pub error: Option<Seq<char>>,
}

pub open spec fn tool_view(t: McpToolStatus) -> (Seq<char>, Option<Seq<char>>) {
    (t.name@, crate::env::opt_view(t.description))
}

pub open spec fn tviews(s: Seq<McpToolStatus>) -> Seq<(Seq<char>, Option<Seq<char>>)> {
    s.map_values(|t: McpToolStatus| tool_view(t))
}

pub open spec fn sview(s: McpServerStatus) -> StatusView {
    StatusView {
        name: s.name@,
        state: s.state,
        tool_count: s.tool_count,
        tools: tviews(s.tools@),
        error: crate::env::opt_view(s.error),
    }
}

pub open spec fn sviews(s: Seq<McpServerStatus>) -> Seq<StatusView> {
    s.map_values(|x: McpServerStatus| sview(x))
}

/// The first status named `n`.
pub open spec fn status_position(s: Seq<StatusView>, n: Seq<char>) -> Option<int>
    decreases s.len(),
{
    if s.len() == 0 {
        None
    } else {
        match status_position(s.drop_last(), n) {
            Some(i) => Some(i),
            None => if s.last().name == n {
                Some(s.len() - 1)
            } else {
                None
            },
        }
    }
}

/// `s` with the status named like `v` replaced by `v`, or `v` added.
pub open spec fn upsert(s: Seq<StatusView>, v: StatusView) -> Seq<StatusView> {
    match status_position(s, v.name) {
        Some(i) => s.update(i, v),
        None => s.push(v),
    }
}

/// The status a configured server starts with.
pub open spec fn initial_status(enabled: bool, server: McpServerConfig) -> StatusView {
    StatusView {
        name: server.name@,
        state: if !enabled || !server.enabled {
            McpServerState::Disabled
        } else {
            McpServerState::Pending
        },
        tool_count: 0,
        tools: Seq::empty(),
        error: None,
    }
}

pub open spec fn initial_statuses(enabled: bool, servers: Seq<McpServerConfig>) -> Seq<StatusView>
    decreases servers.len(),
{
    if servers.len() == 0 {
        Seq::empty()
    } else {
        upsert(initial_statuses(enabled, servers.drop_last()), initial_status(enabled, servers.last()))
    }
}

/// The snapshot's servers: the status of each configured name in order,
/// then the statuses of names outside that order.
pub open spec fn ordered(order: Seq<Seq<char>>, s: Seq<StatusView>) -> Seq<StatusView>
    decreases order.len(),
{
    if order.len() == 0 {
        Seq::empty()
    } else {
        let init = ordered(order.drop_last(), s);
        match status_position(s, order.last()) {
            Some(i) => init.push(s[i]),
            None => init,
        }
    }
}

pub open spec fn extras(order: Seq<Seq<char>>, s: Seq<StatusView>) -> Seq<StatusView>
    decreases s.len(),
{
    if s.len() == 0 {
        Seq::empty()
    } else {
        let init = extras(order, s.drop_last());
        if order.contains(s.last().name) {
            init
        } else {
            init.push(s.last())
        }
    }
}

/// The statuses of the MCP servers; the caller publishes each snapshot.
pub struct McpStatusTable {
    enabled: bool,
    order: Vec<String>,
    statuses: Vec<McpServerStatus>,
}

/// The delay before connection attempt `attempt + 1`: doubling from one
/// second, then 15 and at most 30 seconds.
pub open spec fn retry_delay(attempt: u32) -> u64 {
    if attempt == 0 {
        1u64
    } else if attempt == 1 {
        2u64
    } else if attempt == 2 {
        4u64
    } else if attempt == 3 {
        8u64
    } else if attempt == 4 {
        15u64
    } else {
        30u64
    }
}

pub fn retry_delay_secs(attempt: u32) -> (r: u64)
    ensures
        r == retry_delay(attempt),
{
    match attempt {
        0 => 1,
        1 => 2,
        2 => 4,
        3 => 8,
        4 => 15,
        _ => 30,
    }
}

fn copy_tool(t: &McpToolStatus) -> (r: McpToolStatus)
    ensures
        tool_view(r) == tool_view(*t),
{
    McpToolStatus {
        name: t.name.clone(),
        description: match &t.description {
            Some(d) => Some(d.clone()),
            None => None,
        },
    }
}

impl McpServerStatus {
    /// A status with the same fields.
    pub fn duplicate(&self) -> (r: McpServerStatus)
        ensures
            sview(r) == sview(*self),
    {
        let mut tools: Vec<McpToolStatus> = Vec::new();
        let mut i: usize = 0;
        while i < self.tools.len()
            invariant
                i <= self.tools.len(),
                tviews(tools@) == tviews(self.tools@).take(i as int),
            decreases self.tools.len() - i,
        {
            let ghost before = tools@;
            let t = copy_tool(&self.tools[i]);
            tools.push(t);
            proof {
                assert(tools@ == before.push(t));
                assert(tviews(tools@) =~= tviews(before).push(tool_view(t)));
                assert(tviews(self.tools@)[i as int] == tool_view(self.tools@[i as int]));
                assert(tviews(tools@) =~= tviews(self.tools@).take(i + 1));
            }
            i = i + 1;
        }
        proof {
            assert(tviews(self.tools@).take(i as int)
                == tviews(self.tools@));
        }
        McpServerStatus {
            name: self.name.clone(),
            state: self.state,
            tool_count: self.tool_count,
            tools,
            error: match &self.error {
                Some(e) => Some(e.clone()),
                None => None,
            },
        }
    }
}

fn find_status(s: &Vec<McpServerStatus>, name: &str) -> (r: Option<usize>)
    ensures
        match r {
            Some(i) => status_position(sviews(s@), name@) == Some(i as int) && i < s@.len(),
            None => status_position(sviews(s@), name@) is None,
        },
{
    let mut i: usize = 0;
    while i < s.len()
        invariant
            i <= s.len(),
            status_position(sviews(s@).take(i as int), name@) is None,
        decreases s.len() - i,
    {
        proof {
            let t = sviews(s@).take(i + 1);
            assert(t.drop_last() == sviews(s@).take(i as int));
            assert(sviews(s@)[i as int] == sview(s@[i as int]));
        }
        if str_eq(s[i].name.as_str(), name) {
            proof {
                lemma_status_position_extend(sviews(s@), name@, i + 1, i as int);
            }
            return Some(i);
        }
        i = i + 1;
    }
    proof {
        assert(sviews(s@).take(i as int) == sviews(s@));
    }
    None
}

proof fn lemma_status_position_extend(s: Seq<StatusView>, n: Seq<char>, k: int, i: int)
    requires
        0 <= k <= s.len(),
        status_position(s.take(k), n) == Some(i),
    ensures
        status_position(s, n) == Some(i),
    decreases s.len() - k,
{
    if k < s.len() {
        let t = s.take(k + 1);
        assert(t.drop_last() == s.take(k));
        lemma_status_position_extend(s, n, k + 1, i);
    } else {
        assert(s.take(k) == s);
    }
}

fn upsert_status(s: &mut Vec<McpServerStatus>, v: McpServerStatus)
    ensures
        sviews(final(s)@) == upsert(sviews(old(s)@), sview(v)),
{
    let ghost before = s@;
    let ghost vv = sview(v);
    match find_status(s, v.name.as_str()) {
        Some(i) => {
            s.set(i, v);
            proof {
                assert(sviews(s@) =~= sviews(before).update(i as int, vv));
            }
        },
        None => {
            s.push(v);
            proof {
                assert(sviews(s@) =~= sviews(before).push(vv));
            }
        },
    }
}

impl McpStatusTable {
    pub closed spec fn enabled(&self) -> bool {
        self.enabled
    }

    pub closed spec fn order(&self) -> Seq<Seq<char>> {
        crate::text::views(self.order@)
    }

    pub closed spec fn statuses(&self) -> Seq<StatusView> {
        sviews(self.statuses@)
    }

    /// The statuses at start: every configured server pending, or disabled
    /// when MCP or the server is off; a later server of the same name
    /// replaces an earlier one.
    pub fn new(enabled: bool, servers: &Vec<McpServerConfig>) -> (r: Self)
        ensures
            r.enabled() == enabled,
            r.order() == servers@.map_values(|c: McpServerConfig| c.name@),
            r.statuses() == initial_statuses(enabled, servers@),
    {
        let mut order: Vec<String> = Vec::new();
        let mut statuses: Vec<McpServerStatus> = Vec::new();
        let mut i: usize = 0;
        while i < servers.len()
            invariant
                i <= servers.len(),
                crate::text::views(order@) == servers@.map_values(|c: McpServerConfig| c.name@).take(
                    i as int,
                ),
                sviews(statuses@) == initial_statuses(enabled, servers@.take(i as int)),
            decreases servers.len() - i,
        {
            let server = &servers[i];
            let ghost before = order@;
            let name = server.name.clone();
            order.push(name);
            proof {
                assert(crate::text::views(order@) =~= crate::text::views(before).push(server.name@));
                assert(crate::text::views(order@) =~= servers@.map_values(|c: McpServerConfig| c.name@).take(
                    i + 1,
                ));
                let t = servers@.take(i + 1);
                assert(t.drop_last() == servers@.take(i as int));
                assert(t.last() == *server);
            }
            let state = if !enabled || !server.enabled {
                McpServerState::Disabled
            } else {
                McpServerState::Pending
            };
            let st = McpServerStatus {
                name: server.name.clone(),
                state,
                tool_count: 0,
                tools: Vec::new(),
                error: None,
            };
            proof {
                assert(sview(st) == initial_status(enabled, *server)) by {
                    assert(tviews(st.tools@) =~= Seq::<
                        (Seq<char>, Option<Seq<char>>),
                    >::empty());
                }
            }
            upsert_status(&mut statuses, st);
            i = i + 1;
        }
        proof {
            assert(servers@.take(i as int) == servers@);
        }
        McpStatusTable { enabled, order, statuses }
    }

    /// Records the status of server `name`.
    pub fn set_status(
        &mut self,
        name: &str,
        state: McpServerState,
        tool_count: usize,
        tools: Vec<McpToolStatus>,
        error: Option<String>,
    )
        ensures
            final(self).enabled() == old(self).enabled(),
            final(self).order() == old(self).order(),
            final(self).statuses() == upsert(
                old(self).statuses(),
                StatusView {
                    name: name@,
                    state,
                    tool_count,
                    tools: tviews(tools@),
                    error: crate::env::opt_view(error),
                },
            ),
    {
        let st = McpServerStatus { name: String::from_str(name), state, tool_count, tools, error };
        upsert_status(&mut self.statuses, st);
    }

    /// The snapshot to publish: each configured server in order, then any
    /// other server that got a status.
    pub fn snapshot(&self) -> (r: McpStatusSnapshot)
        ensures
            r.enabled == self.enabled(),
            sviews(r.servers@) == ordered(self.order(), self.statuses()) + extras(
                self.order(),
                self.statuses(),
            ),
    {
        let mut servers: Vec<McpServerStatus> = Vec::new();
        let mut i: usize = 0;
        while i < self.order.len()
            invariant
                i <= self.order.len(),
                sviews(servers@) == ordered(self.order().take(i as int), self.statuses()),
            decreases self.order.len() - i,
        {
            proof {
                let t = self.order().take(i + 1);
                assert(t.drop_last() == self.order().take(i as int));
                assert(t.last() == self.order@[i as int]@);
            }
            match find_status(&self.statuses, self.order[i].as_str()) {
                Some(k) => {
                    let ghost before = servers@;
                    let d = self.statuses[k].duplicate();
                    servers.push(d);
                    proof {
                        assert(sviews(servers@) =~= sviews(before).push(sview(d)));
                    }
                },
                None => {},
            }
            i = i + 1;
        }
        proof {
            assert(self.order().take(i as int) == self.order());
        }
        let ghost first = sviews(servers@);
        let mut j: usize = 0;
        while j < self.statuses.len()
            invariant
                j <= self.statuses.len(),
                sviews(servers@) == first + extras(self.order(), self.statuses().take(j as int)),
            decreases self.statuses.len() - j,
        {
            proof {
                let t = self.statuses().take(j + 1);
                assert(t.drop_last() == self.statuses().take(j as int));
                assert(self.statuses()[j as int] == sview(self.statuses@[j as int]));
            }
            if !crate::text::contains_str(&self.order, self.statuses[j].name.as_str()) {
                let ghost before = servers@;
                let d = self.statuses[j].duplicate();
                servers.push(d);
                proof {
                    assert(sviews(servers@) =~= sviews(before).push(sview(d)));
                }
            }
            j = j + 1;
        }
        proof {
            assert(self.statuses().take(j as int) == self.statuses());
        }
        McpStatusSnapshot { enabled: self.enabled, servers }
    }
}

/// What follows one connection attempt to a server.
#[derive(Debug, Clone, Copy, PartialEq, Eq, Structural)]
pub enum ConnectStep {
    /// Connected: publish `Ready` and stop.
    Ready,
    /// Failed: publish `Failed`, wait `wait_secs`, then try again as
    /// attempt `attempt`.
    Retry { attempt: u32, wait_secs: u64 },
}

/// The step after an attempt, given how many attempts failed before it and
/// whether it connected: a failure counts one more failed attempt (at most
/// `u32::MAX`), and the wait is the delay for that count.
pub fn on_connect_outcome(failed_attempts: u32, connected: bool) -> (r: ConnectStep)
    ensures
        connected ==> r == ConnectStep::Ready,
        !connected ==> r == (ConnectStep::Retry {
            attempt: crate::agent::sat_add(failed_attempts, 1),
            wait_secs: retry_delay(crate::agent::sat_add(failed_attempts, 1)),
        }),
{
    if connected {
        return ConnectStep::Ready;
    }
    let next = failed_attempts.saturating_add(1);
    ConnectStep::Retry { attempt: next, wait_secs: retry_delay_secs(next) }
}

} // verus!
