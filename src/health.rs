//! Health of the MCP servers the primary provider relies on: what a probe's
//! observations mean, a time-limited cache of results, and summaries. The
//! probes themselves (files on disk, a command's exit status) are made by the
//! caller, which hands over what it observed.
use vstd::prelude::*;
use crate::text::{contains_str, has_substring};
use crate::types::{clone_opt, clone_strings};
use crate::conflict::strs;
use crate::router::phrases;

verus! {

/// How long a cached result stays valid, in milliseconds.
pub const CACHE_TTL_MS: u64 = 5000;

/// State of an MCP server.
#[derive(Debug, Clone, Copy, PartialEq, Eq, Structural)]
pub enum McpStatus {
    Online,
    Offline,
    Error,
}

/// The servers the checker knows how to probe.
#[derive(Debug, Clone, Copy, PartialEq, Eq, Structural)]
pub enum McpServer {
    Serena,
    DesktopCommander,
    Playwright,
}

/// Outcome of checking one server.
#[derive(Debug, Clone)]
pub struct McpHealthResult {
    pub name: String,
    pub port: u16,
    pub status: McpStatus,
    pub response_time_ms: Option<u64>,
    pub error: Option<String>,
    /// Features the server offers, when known.
    pub capabilities: Option<Vec<String>>,
}

/// The views of optional strings.
pub open spec fn caps_view(c: Option<Vec<String>>) -> Option<Seq<Seq<char>>> {
    match c {
        Some(v) => Some(strs(v@)),
        None => None,
    }
}

impl McpHealthResult {
    /// `self` and `o` hold the same values.
    pub open spec fn same_as(self, o: McpHealthResult) -> bool {
        &&& self.name == o.name
        &&& self.port == o.port
        &&& self.status == o.status
        &&& self.response_time_ms == o.response_time_ms
        &&& self.error == o.error
        &&& caps_view(self.capabilities) == caps_view(o.capabilities)
    }

    /// A field-for-field copy.
    pub fn clone_exact(&self) -> (r: McpHealthResult)
        ensures
            r.same_as(*self),
    {
        let caps = match &self.capabilities {
            Some(v) => Some(clone_strings(v)),
            None => None,
        };
        McpHealthResult {
            name: self.name.clone(),
            port: self.port,
            status: self.status,
            response_time_ms: self.response_time_ms,
            error: clone_opt(&self.error),
            capabilities: caps,
        }
    }
}

/// Display name of a server.
pub open spec fn server_name(s: McpServer) -> Seq<char> {
    match s {
        McpServer::Serena => "Serena"@,
        McpServer::DesktopCommander => "Desktop Commander"@,
        McpServer::Playwright => "Playwright"@,
    }
}

/// The server a display name stands for.
pub open spec fn server_named(name: Seq<char>) -> Option<McpServer> {
    if name == "Serena"@ {
        Some(McpServer::Serena)
    } else if name == "Desktop Commander"@ {
        Some(McpServer::DesktopCommander)
    } else if name == "Playwright"@ {
        Some(McpServer::Playwright)
    } else {
        None
    }
}

impl McpServer {
    /// The server a display name stands for.
    pub fn from_name(name: &str) -> (r: Option<McpServer>)
        ensures
            r == server_named(name@),
    {
        proof {
            reveal_strlit("Serena");
            reveal_strlit("Desktop Commander");
            reveal_strlit("Playwright");
        }
        if crate::text::same_str(name, "Serena") {
            Some(McpServer::Serena)
        } else if crate::text::same_str(name, "Desktop Commander") {
            Some(McpServer::DesktopCommander)
        } else if crate::text::same_str(name, "Playwright") {
            Some(McpServer::Playwright)
        } else {
            None
        }
    }

    /// Display name.
    pub fn name(&self) -> (r: &'static str)
        ensures
            r@ == server_name(*self),
    {
        match self {
            McpServer::Serena => "Serena",
            McpServer::DesktopCommander => "Desktop Commander",
            McpServer::Playwright => "Playwright",
        }
    }
}

/// A list of string literals as an owned list.
fn owned(v: &[&str]) -> (r: Vec<String>)
    ensures
        strs(r@) == phrases(v@),
{
    let mut out: Vec<String> = Vec::new();
    let mut k: usize = 0;
    while k < v.len()
        invariant
            k <= v@.len(),
            out@.len() == k,
            strs(out@) == phrases(v@.subrange(0, k as int)),
        decreases v.len() - k,
    {
        let item: &str = v[k];
        assert(item == v@[k as int]);
        let owned_item = String::from_str(item);
        assert(owned_item@ == item@);
        let ghost prev = out@;
        out.push(owned_item);
        assert forall|j: int| 0 <= j < k + 1 implies strs(out@)[j] == phrases(v@.subrange(0, k + 1))[j] by {
            if j < k {
                assert(out@[j] == prev[j]);
                assert(strs(prev)[j] == phrases(v@.subrange(0, k as int))[j]);
            } else {
                assert(out@[j] == owned_item);
            }
        }
        assert(strs(out@) =~= phrases(v@.subrange(0, k + 1)));
        k = k + 1;
    }
    assert(v@.subrange(0, v@.len() as int) =~= v@);
    out
}

/// An Online result for `name` with `caps`, answered in `elapsed_ms`.
fn online(name: &str, elapsed_ms: u64, caps: Option<Vec<String>>) -> (r: McpHealthResult)
    ensures
        r.name@ == name@,
        r.port == 0,
        r.status == McpStatus::Online,
        r.response_time_ms == Some(elapsed_ms),
        r.error.is_none(),
        r.capabilities == caps,
{
    McpHealthResult {
        name: String::from_str(name),
        port: 0,
        status: McpStatus::Online,
        response_time_ms: Some(elapsed_ms),
        error: None,
        capabilities: caps,
    }
}

/// An Offline result for `name` with error text `error`.
fn offline(name: &str, error: &str) -> (r: McpHealthResult)
    ensures
        r.name@ == name@,
        r.port == 0,
        r.status == McpStatus::Offline,
        r.response_time_ms.is_none(),
        r.error.is_some() && r.error.unwrap()@ == error@,
        r.capabilities.is_none(),
{
    McpHealthResult {
        name: String::from_str(name),
        port: 0,
        status: McpStatus::Offline,
        response_time_ms: None,
        error: Some(String::from_str(error)),
        capabilities: None,
    }
}

/// Result for Serena: Online when its project file exists, with symbolic
/// analysis and, if the file mentions python or typescript, multi-language
/// support (no capabilities when the file could not be read); Offline otherwise.
pub fn serena_result(project_file_exists: bool, project_file: Option<String>, elapsed_ms: u64) -> (r: McpHealthResult)
    ensures
        r.name@ == "Serena"@,
        r.port == 0,
        r.status == (if project_file_exists { McpStatus::Online } else { McpStatus::Offline }),
        project_file_exists ==> r.response_time_ms == Some(elapsed_ms) && r.error.is_none(),
        project_file_exists && project_file.is_none() ==> r.capabilities.is_none(),
        project_file_exists && project_file.is_some() ==> caps_view(r.capabilities) == Some(
            if has_substring(project_file.unwrap()@, "python"@) || has_substring(project_file.unwrap()@, "typescript"@) {
                seq!["symbolic_analysis"@, "multi_language"@]
            } else {
                seq!["symbolic_analysis"@]
            }),
        !project_file_exists ==> r.error.is_some() && r.error.unwrap()@
            == "Serena not configured - .serena/project.yml not found"@ && r.capabilities.is_none()
            && r.response_time_ms.is_none(),
{
    proof {
        reveal_strlit("Serena");
        reveal_strlit("python");
        reveal_strlit("typescript");
        reveal_strlit("symbolic_analysis");
        reveal_strlit("multi_language");
        reveal_strlit("Serena not configured - .serena/project.yml not found");
    }
    if project_file_exists {
        let caps = match project_file {
            Some(content) => {
                let multi = contains_str(content.as_str(), "python") || contains_str(content.as_str(), "typescript");
                let v = if multi {
                    owned(&["symbolic_analysis", "multi_language"])
                } else {
                    owned(&["symbolic_analysis"])
                };
                Some(v)
            },
            None => None,
        };
        online("Serena", elapsed_ms, caps)
    } else {
        offline("Serena", "Serena not configured - .serena/project.yml not found")
    }
}

/// Result for Desktop Commander: Online with its full feature list when its
/// command answered; else Online as merely configured when the settings file
/// mentions it; Offline otherwise.
pub fn desktop_commander_result(command_ok: bool, settings: Option<String>, elapsed_ms: u64) -> (r: McpHealthResult)
    ensures
        r.name@ == "Desktop Commander"@,
        r.port == 0,
        command_ok ==> r.status == McpStatus::Online && r.response_time_ms == Some(elapsed_ms) && caps_view(
            r.capabilities) == Some(seq!["file_operations"@, "process_management"@, "system_metrics"@]),
        !command_ok && settings.is_some() && has_substring(settings.unwrap()@, "desktop-commander"@)
            ==> r.status == McpStatus::Online && r.response_time_ms == Some(elapsed_ms)
            && caps_view(r.capabilities) == Some(seq!["configured"@]),
        !command_ok && !(settings.is_some() && has_substring(settings.unwrap()@, "desktop-commander"@))
            ==> r.status == McpStatus::Offline && r.error.is_some() && r.error.unwrap()@ == "Desktop Commander not available"@,
{
    proof {
        reveal_strlit("Desktop Commander");
        reveal_strlit("file_operations");
        reveal_strlit("process_management");
        reveal_strlit("system_metrics");
        reveal_strlit("desktop-commander");
        reveal_strlit("configured");
        reveal_strlit("Desktop Commander not available");
    }
    if command_ok {
        let caps = owned(&["file_operations", "process_management", "system_metrics"]);
        return online("Desktop Commander", elapsed_ms, Some(caps));
    }
    match settings {
        Some(content) => {
            if contains_str(content.as_str(), "desktop-commander") {
                return online("Desktop Commander", elapsed_ms, Some(owned(&["configured"])));
            }
        },
        None => {},
    }
    offline("Desktop Commander", "Desktop Commander not available")
}

/// Result for Playwright: Online with its feature list when the settings file
/// mentions it; Offline otherwise.
pub fn playwright_result(settings: Option<String>, elapsed_ms: u64) -> (r: McpHealthResult)
    ensures
        r.name@ == "Playwright"@,
        r.port == 0,
        settings.is_some() && has_substring(settings.unwrap()@, "playwright"@) ==> r.status == McpStatus::Online
            && r.response_time_ms == Some(elapsed_ms) && caps_view(r.capabilities) == Some(
            seq!["browser_automation"@, "screenshot"@, "navigation"@]),
        !(settings.is_some() && has_substring(settings.unwrap()@, "playwright"@)) ==> r.status == McpStatus::Offline
            && r.error.is_some() && r.error.unwrap()@ == "Playwright MCP not configured in settings.json"@,
{
    proof {
        reveal_strlit("Playwright");
        reveal_strlit("playwright");
        reveal_strlit("browser_automation");
        reveal_strlit("screenshot");
        reveal_strlit("navigation");
        reveal_strlit("Playwright MCP not configured in settings.json");
    }
    match settings {
        Some(content) => {
            if contains_str(content.as_str(), "playwright") {
                let caps = owned(&["browser_automation", "screenshot", "navigation"]);
                return online("Playwright", elapsed_ms, Some(caps));
            }
        },
        None => {},
    }
    offline("Playwright", "Playwright MCP not configured in settings.json")
}

/// Result for a server the checker does not know.
pub fn unknown_server_result(name: &str) -> (r: McpHealthResult)
    ensures
        r.name@ == name@,
        r.port == 0,
        r.status == McpStatus::Error,
        r.response_time_ms.is_none(),
        r.error.is_some() && r.error.unwrap()@ == "Unknown MCP server: "@ + name@,
        r.capabilities.is_none(),
{
    proof {
        reveal_strlit("Unknown MCP server: ");
    }
    McpHealthResult {
        name: String::from_str(name),
        port: 0,
        status: McpStatus::Error,
        response_time_ms: None,
        error: Some(String::from_str("Unknown MCP server: ").concat(name)),
        capabilities: None,
    }
}

/// How many results of `rs` are Online.
pub open spec fn count_online(rs: Seq<McpHealthResult>) -> nat
    decreases rs.len(),
{
    if rs.len() == 0 {
        0
    } else {
        count_online(rs.drop_last()) + if rs.last().status == McpStatus::Online { 1nat } else { 0nat }
    }
}

/// Number of Online results and number of results.
pub fn summarize(results: &Vec<McpHealthResult>) -> (r: (usize, usize))
    ensures
        r.0 as nat == count_online(results@),
        r.1 as nat == results@.len(),
{
    let mut online: usize = 0;
    let mut k: usize = 0;
    while k < results.len()
        invariant
            k <= results@.len(),
            online as nat == count_online(results@.subrange(0, k as int)),
            online <= k,
        decreases results.len() - k,
    {
        assert(results@.subrange(0, k + 1).drop_last() =~= results@.subrange(0, k as int));
        if results[k].status == McpStatus::Online {
            online = online + 1;
        }
        k = k + 1;
    }
    assert(results@.subrange(0, results@.len() as int) =~= results@);
    (online, results.len())
}

/// A check result read as "is it configured": the response time (0 when
/// unknown) for an Online server, else its error text ("Unknown error" when
/// there is none).
pub fn configured_outcome(result: McpHealthResult) -> (r: Result<u64, String>)
    ensures
        result.status == McpStatus::Online ==> r == Ok::<u64, String>(
            if result.response_time_ms.is_some() { result.response_time_ms.unwrap() } else { 0 }),
        result.status != McpStatus::Online && result.error.is_some() ==> r == Err::<u64, String>(result.error.unwrap()),
        result.status != McpStatus::Online && result.error.is_none() ==> r.is_err() && r.unwrap_err()@ == "Unknown error"@,
{
    match result.status {
        McpStatus::Online => Ok(
            match result.response_time_ms {
                Some(t) => t,
                None => 0,
            },
        ),
        _ => match result.error {
            Some(e) => Err(e),
            None => {
                proof {
                    reveal_strlit("Unknown error");
                }
                Err(String::from_str("Unknown error"))
            },
        },
    }
}

/// What a check of one server needs next.
pub enum CheckStep {
    /// A result young enough to reuse.
    Cached(McpHealthResult),
    /// The named server must be probed; its result then goes to `update_cache`.
    Probe(McpServer),
    /// The name is unknown; this is the result (already cached).
    Unknown(McpHealthResult),
}

/// Index of the last cache entry named `name`, or -1.
pub open spec fn cache_index(c: Seq<(String, McpHealthResult, u64)>, name: Seq<char>) -> int
    decreases c.len(),
{
    if c.len() == 0 {
        -1
    } else if c.last().0@ == name {
        c.len() - 1
    } else {
        cache_index(c.drop_last(), name)
    }
}

/// A cached entry made at `at` is still valid at `now`.
pub open spec fn fresh(at: u64, now: u64, ttl: u64) -> bool {
    at <= now && now - at < ttl
}

/// Checks MCP servers, remembering each result for a short while.
pub struct McpHealthChecker {
    hydra_path: String,
    cache: Vec<(String, McpHealthResult, u64)>,
    cache_ttl_ms: u64,
}

impl McpHealthChecker {
    /// Cache entries: name, result and the time it was stored.
    pub closed spec fn entries(&self) -> Seq<(String, McpHealthResult, u64)> {
        self.cache@
    }

    /// How long entries stay valid.
    pub closed spec fn ttl(&self) -> u64 {
        self.cache_ttl_ms
    }

    /// The project directory whose configuration is probed.
    pub closed spec fn project(&self) -> Seq<char> {
        self.hydra_path@
    }

    /// A checker for the project in `hydra_path`, with an empty cache.
    pub fn new(hydra_path: String) -> (r: McpHealthChecker)
        ensures
            r.entries().len() == 0,
            r.ttl() == CACHE_TTL_MS,
            r.project() == hydra_path@,
    {
        McpHealthChecker { hydra_path, cache: Vec::new(), cache_ttl_ms: CACHE_TTL_MS }
    }

    /// The project directory.
    pub fn hydra_path(&self) -> (r: &String)
        ensures
            r@ == self.project(),
    {
        &self.hydra_path
    }

    /// The result cached for `name`, if it is still valid at `now`.
    pub fn get_cached(&self, name: &str, now: u64) -> (r: Option<McpHealthResult>)
        ensures
            ({
                let i = cache_index(self.entries(), name@);
                &&& r.is_some() == (i >= 0 && fresh(self.entries()[i].2, now, self.ttl()))
                &&& r.is_some() ==> r.unwrap().same_as(self.entries()[i].1)
            }),
    {
        let ghost c = self.cache@;
        let mut i: usize = self.cache.len();
        assert(c.subrange(0, i as int) =~= c);
        while i > 0
            invariant
                c == self.cache@,
                i <= c.len(),
                cache_index(c, name@) == cache_index(c.subrange(0, i as int), name@),
            decreases i,
        {
            assert(c.subrange(0, i as int).drop_last() =~= c.subrange(0, i - 1));
            let e = &self.cache[i - 1];
            if crate::text::same_str(e.0.as_str(), name) {
                if e.2 <= now && now - e.2 < self.cache_ttl_ms {
                    return Some(e.1.clone_exact());
                }
                return None;
            }
            i = i - 1;
        }
        None
    }

    /// Stores `result` for `name` at `now`.
    pub fn update_cache(&mut self, name: &str, result: McpHealthResult, now: u64)
        ensures
            final(self).entries().len() == old(self).entries().len() + 1,
            final(self).entries().drop_last() == old(self).entries(),
            final(self).entries().last().0@ == name@,
            final(self).entries().last().1 == result,
            final(self).entries().last().2 == now,
            final(self).ttl() == old(self).ttl(),
            final(self).project() == old(self).project(),
    {
        self.cache.push((String::from_str(name), result, now));
        assert(self.cache@.drop_last() =~= old(self).cache@);
    }

    /// First half of checking `name` at `now`: a valid cached result, the
    /// server to probe, or, for an unknown name, the Error result, which is cached.
    pub fn check_server(&mut self, name: &str, now: u64) -> (r: CheckStep)
        ensures
            ({
                let i = cache_index(old(self).entries(), name@);
                let hit = i >= 0 && fresh(old(self).entries()[i].2, now, old(self).ttl());
                &&& hit ==> r is Cached && r->Cached_0.same_as(old(self).entries()[i].1)
                    && final(self).entries() == old(self).entries()
                &&& !hit && server_named(name@).is_some() ==> r == CheckStep::Probe(server_named(name@).unwrap())
                    && final(self).entries() == old(self).entries()
                &&& !hit && server_named(name@).is_none() ==> r is Unknown && r->Unknown_0.status == McpStatus::Error
                    && final(self).entries().len() == old(self).entries().len() + 1
                    && final(self).entries().last().0@ == name@
            }),
            final(self).ttl() == old(self).ttl(),
            final(self).project() == old(self).project(),
    {
        match self.get_cached(name, now) {
            Some(hit) => CheckStep::Cached(hit),
            None => match McpServer::from_name(name) {
                Some(s) => CheckStep::Probe(s),
                None => {
                    let result = unknown_server_result(name);
                    let copy = result.clone_exact();
                    self.update_cache(name, result, now);
                    CheckStep::Unknown(copy)
                },
            },
        }
    }
}

} // verus!
