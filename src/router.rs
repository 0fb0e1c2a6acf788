//! The task router: classifies free text into a task category and an optional
//! explicit directive, and maps them to a provider.
use vstd::prelude::*;
use crate::text::{contains_any, has_any, lower_of, lowercase, prefix_chars, take_chars};
use crate::types::CLIProvider;

verus! {

/// Number of characters of the text kept in a routing record.
pub const RECORDED_PREFIX: usize = 100;

/// Category of a request, as the keyword classifier sees it.
#[derive(Debug, Clone, Copy, PartialEq, Eq, Structural)]
pub enum TaskType {
    CodeGeneration,
    LongContextAnalysis,
    BackgroundTask,
    MultiLanguageCode,
    SymbolicAnalysis,
    SystemOperation,
    SecurityAudit,
    General,
}

/// An explicit routing directive, written `/witcher <name>` or as the bare name.
#[derive(Debug, Clone, Copy, PartialEq, Eq, Structural)]
pub enum WitcherSign {
    Aard,
    Igni,
    Yrden,
    Quen,
    Axii,
}

/// The categories in the order they are tried; the first whose vocabulary
/// matches wins.
pub open spec fn category_order() -> Seq<TaskType> {
    seq![
        TaskType::CodeGeneration,
        TaskType::LongContextAnalysis,
        TaskType::BackgroundTask,
        TaskType::SymbolicAnalysis,
        TaskType::SystemOperation,
        TaskType::SecurityAudit,
        TaskType::MultiLanguageCode,
    ]
}

/// The key phrases of a category.
pub open spec fn vocabulary(k: TaskType) -> Seq<Seq<char>> {
    match k {
        TaskType::CodeGeneration => seq![
            "napisz kod"@, "write code"@, "implement"@, "zaimplementuj"@, "create function"@,
            "stwórz funkcję"@, "add method"@, "dodaj metodę"@, "generate"@, "wygeneruj"@, "code"@, "kod"@,
        ],
        TaskType::LongContextAnalysis => seq![
            "całą bazę"@, "entire codebase"@, "all files"@, "wszystkie pliki"@, "full repository"@,
            "cały projekt"@, "analyze everything"@, "przeanalizuj wszystko"@, "deep dive"@, "comprehensive"@,
        ],
        TaskType::BackgroundTask => seq![
            "in background"@, "w tle"@, "async"@, "asynchronously"@, "później"@, "later"@, "schedule"@,
            "zaplanuj"@,
        ],
        TaskType::SymbolicAnalysis => seq![
            "find symbol"@, "znajdź symbol"@, "references"@, "referencje"@, "refactor"@, "rename"@,
            "zmień nazwę"@, "call graph"@,
        ],
        TaskType::SystemOperation => seq![
            "run command"@, "uruchom"@, "execute"@, "wykonaj"@, "terminal"@, "shell"@, "bash"@,
            "powershell"@, "install"@, "zainstaluj"@, "build"@, "zbuduj"@,
        ],
        TaskType::SecurityAudit => seq![
            "security"@, "bezpieczeństwo"@, "audit"@, "audyt"@, "vulnerability"@, "podatność"@,
            "pentest"@, "owasp"@,
        ],
        TaskType::MultiLanguageCode => seq![
            "python"@, "rust"@, "java"@, "kotlin"@, "swift"@, "go "@, "golang"@, "ruby"@, "php"@,
            "scala"@,
        ],
        TaskType::General => seq![],
    }
}

/// The first category of `order` whose vocabulary occurs in `lower`, else General.
pub open spec fn first_match(lower: Seq<char>, order: Seq<TaskType>) -> TaskType
    decreases order.len(),
{
    if order.len() == 0 {
        TaskType::General
    } else if has_any(lower, vocabulary(order[0])) {
        order[0]
    } else {
        first_match(lower, order.subrange(1, order.len() as int))
    }
}

/// Category of already lower-cased text.
pub open spec fn classify(lower: Seq<char>) -> TaskType {
    first_match(lower, category_order())
}

/// The directives in the order they are tried.
pub open spec fn sign_order() -> Seq<WitcherSign> {
    seq![WitcherSign::Aard, WitcherSign::Igni, WitcherSign::Yrden, WitcherSign::Quen, WitcherSign::Axii]
}

/// The phrases that invoke a directive.
pub open spec fn sign_phrases(s: WitcherSign) -> Seq<Seq<char>> {
    match s {
        WitcherSign::Aard => seq!["/witcher aard"@, "aard"@],
        WitcherSign::Igni => seq!["/witcher igni"@, "igni"@],
        WitcherSign::Yrden => seq!["/witcher yrden"@, "yrden"@],
        WitcherSign::Quen => seq!["/witcher quen"@, "quen"@],
        WitcherSign::Axii => seq!["/witcher axii"@, "axii"@],
    }
}

/// The first directive of `order` invoked in `lower`.
pub open spec fn first_sign(lower: Seq<char>, order: Seq<WitcherSign>) -> Option<WitcherSign>
    decreases order.len(),
{
    if order.len() == 0 {
        None
    } else if has_any(lower, sign_phrases(order[0])) {
        Some(order[0])
    } else {
        first_sign(lower, order.subrange(1, order.len() as int))
    }
}

/// Directive invoked in already lower-cased text.
pub open spec fn sign_in(lower: Seq<char>) -> Option<WitcherSign> {
    first_sign(lower, sign_order())
}

/// Provider assigned to a directive.
pub open spec fn sign_provider(s: WitcherSign) -> CLIProvider {
    match s {
        WitcherSign::Aard => CLIProvider::DeepSeek,
        WitcherSign::Igni => CLIProvider::Gemini,
        WitcherSign::Yrden => CLIProvider::Jules,
        WitcherSign::Quen => CLIProvider::Hydra,
        WitcherSign::Axii => CLIProvider::Hydra,
    }
}

/// Provider assigned to a category.
pub open spec fn task_provider(k: TaskType) -> CLIProvider {
    match k {
        TaskType::LongContextAnalysis => CLIProvider::Gemini,
        TaskType::BackgroundTask => CLIProvider::Jules,
        TaskType::MultiLanguageCode => CLIProvider::DeepSeek,
        _ => CLIProvider::Hydra,
    }
}

/// Provider chosen for a category and an optional directive: the directive wins.
pub open spec fn chosen(k: TaskType, s: Option<WitcherSign>) -> CLIProvider {
    match s {
        Some(s) => sign_provider(s),
        None => task_provider(k),
    }
}

/// The phrases of `v` as plain values.
pub open spec fn phrases(v: Seq<&str>) -> Seq<Seq<char>> {
    v.map_values(|p: &str| p@)
}

/// The key phrases of a category.
pub fn vocabulary_of(k: TaskType) -> (r: Vec<&'static str>)
    ensures
        phrases(r@) == vocabulary(k),
{
    let r: Vec<&'static str> = match k {
        TaskType::CodeGeneration => vec![
            "napisz kod", "write code", "implement", "zaimplementuj", "create function",
            "stwórz funkcję", "add method", "dodaj metodę", "generate", "wygeneruj", "code", "kod",
        ],
        TaskType::LongContextAnalysis => vec![
            "całą bazę", "entire codebase", "all files", "wszystkie pliki", "full repository",
            "cały projekt", "analyze everything", "przeanalizuj wszystko", "deep dive", "comprehensive",
        ],
        TaskType::BackgroundTask => vec![
            "in background", "w tle", "async", "asynchronously", "później", "later", "schedule",
            "zaplanuj",
        ],
        TaskType::SymbolicAnalysis => vec![
            "find symbol", "znajdź symbol", "references", "referencje", "refactor", "rename",
            "zmień nazwę", "call graph",
        ],
        TaskType::SystemOperation => vec![
            "run command", "uruchom", "execute", "wykonaj", "terminal", "shell", "bash",
            "powershell", "install", "zainstaluj", "build", "zbuduj",
        ],
        TaskType::SecurityAudit => vec![
            "security", "bezpieczeństwo", "audit", "audyt", "vulnerability", "podatność",
            "pentest", "owasp",
        ],
        TaskType::MultiLanguageCode => vec![
            "python", "rust", "java", "kotlin", "swift", "go ", "golang", "ruby", "php",
            "scala",
        ],
        TaskType::General => vec![],
    };
    assert(phrases(r@) =~= vocabulary(k));
    r
}

/// The phrases that invoke a directive.
pub fn sign_phrases_of(s: WitcherSign) -> (r: Vec<&'static str>)
    ensures
        phrases(r@) == sign_phrases(s),
{
    let r: Vec<&'static str> = match s {
        WitcherSign::Aard => vec!["/witcher aard", "aard"],
        WitcherSign::Igni => vec!["/witcher igni", "igni"],
        WitcherSign::Yrden => vec!["/witcher yrden", "yrden"],
        WitcherSign::Quen => vec!["/witcher quen", "quen"],
        WitcherSign::Axii => vec!["/witcher axii", "axii"],
    };
    assert(phrases(r@) =~= sign_phrases(s));
    r
}

/// Category of already lower-cased text: the first category, in the fixed
/// order, one of whose key phrases occurs in it; General when none does.
pub fn classify_lowered(lower: &str) -> (r: TaskType)
    ensures
        r == classify(lower@),
{
    let order: Vec<TaskType> = vec![
        TaskType::CodeGeneration,
        TaskType::LongContextAnalysis,
        TaskType::BackgroundTask,
        TaskType::SymbolicAnalysis,
        TaskType::SystemOperation,
        TaskType::SecurityAudit,
        TaskType::MultiLanguageCode,
    ];
    assert(order@ =~= category_order());
    assert(order@.subrange(0, order@.len() as int) =~= order@);
    let mut k: usize = 0;
    while k < order.len()
        invariant
            k <= order@.len(),
            classify(lower@) == first_match(lower@, order@.subrange(k as int, order@.len() as int)),
        decreases order.len() - k,
    {
        let ghost rest = order@.subrange(k as int, order@.len() as int);
        assert(rest[0] == order@[k as int]);
        assert(rest.subrange(1, rest.len() as int) =~= order@.subrange(k + 1, order@.len() as int));
        let vocab = vocabulary_of(order[k]);
        if contains_any(lower, vocab.as_slice()) {
            return order[k];
        }
        k = k + 1;
    }
    TaskType::General
}

/// Directive invoked in already lower-cased text: the first, in the fixed
/// order, whose `/witcher <name>` form or bare name occurs in it.
pub fn detect_sign_lowered(lower: &str) -> (r: Option<WitcherSign>)
    ensures
        r == sign_in(lower@),
{
    let order: Vec<WitcherSign> = vec![
        WitcherSign::Aard,
        WitcherSign::Igni,
        WitcherSign::Yrden,
        WitcherSign::Quen,
        WitcherSign::Axii,
    ];
    assert(order@ =~= sign_order());
    assert(order@.subrange(0, order@.len() as int) =~= order@);
    let mut k: usize = 0;
    while k < order.len()
        invariant
            k <= order@.len(),
            sign_in(lower@) == first_sign(lower@, order@.subrange(k as int, order@.len() as int)),
        decreases order.len() - k,
    {
        let ghost rest = order@.subrange(k as int, order@.len() as int);
        assert(rest[0] == order@[k as int]);
        assert(rest.subrange(1, rest.len() as int) =~= order@.subrange(k + 1, order@.len() as int));
        let ph = sign_phrases_of(order[k]);
        if contains_any(lower, ph.as_slice()) {
            return Some(order[k]);
        }
        k = k + 1;
    }
    None
}

/// Routing of already lower-cased text: provider, category and directive.
pub fn route_lowered(lower: &str) -> (r: (CLIProvider, TaskType, Option<WitcherSign>))
    ensures
        r.1 == classify(lower@),
        r.2 == sign_in(lower@),
        r.0 == chosen(r.1, r.2),
{
    let task = classify_lowered(lower);
    let sign = detect_sign_lowered(lower);
    let provider = match sign {
        Some(s) => WitcherRouter::route_by_sign(s),
        None => WitcherRouter::route_by_task_type(task),
    };
    (provider, task, sign)
}

/// A routing record.
#[derive(Debug, Clone)]
pub struct RouteDecision {
    /// The first characters of the routed text.
    pub prompt: String,
    pub detected_type: TaskType,
    pub routed_to: CLIProvider,
    pub timestamp: u64,
    /// Outcome of the execution, settable after the fact.
    pub success: bool,
}

/// Routing statistics.
#[derive(Debug, Clone)]
pub struct WitcherStats {
    pub total_routed: usize,
    pub successful: usize,
    /// For each provider, in declaration order, how many decisions chose it.
    pub by_provider: Vec<(CLIProvider, usize)>,
}

/// All providers in declaration order.
pub open spec fn all_providers() -> Seq<CLIProvider> {
    seq![
        CLIProvider::Hydra,
        CLIProvider::Gemini,
        CLIProvider::Jules,
        CLIProvider::DeepSeek,
        CLIProvider::Codex,
        CLIProvider::Grok,
        CLIProvider::Ollama,
    ]
}

/// Number of records of `h` marked successful.
pub open spec fn count_successful(h: Seq<RouteDecision>) -> nat
    decreases h.len(),
{
    if h.len() == 0 {
        0
    } else {
        count_successful(h.drop_last()) + if h.last().success { 1nat } else { 0nat }
    }
}

/// Number of records of `h` routed to `p`.
pub open spec fn count_routed(h: Seq<RouteDecision>, p: CLIProvider) -> nat
    decreases h.len(),
{
    if h.len() == 0 {
        0
    } else {
        count_routed(h.drop_last(), p) + if h.last().routed_to == p { 1nat } else { 0nat }
    }
}

/// Counts never exceed the number of records.
proof fn lemma_counts_bounded(h: Seq<RouteDecision>, p: CLIProvider)
    ensures
        count_successful(h) <= h.len(),
        count_routed(h, p) <= h.len(),
    decreases h.len(),
{
    if h.len() > 0 {
        lemma_counts_bounded(h.drop_last(), p);
    }
}

/// Chooses a provider for each request and keeps a record of every decision.
pub struct WitcherRouter {
    route_history: Vec<RouteDecision>,
}

impl WitcherRouter {
    /// The decisions so far, oldest first.
    pub closed spec fn history(&self) -> Seq<RouteDecision> {
        self.route_history@
    }

    /// A router with no decision recorded.
    pub fn new() -> (r: WitcherRouter)
        ensures
            r.history().len() == 0,
    {
        WitcherRouter { route_history: Vec::new() }
    }

    /// Provider assigned to a directive.
    pub fn route_by_sign(s: WitcherSign) -> (r: CLIProvider)
        ensures
            r == sign_provider(s),
    {
        match s {
            WitcherSign::Aard => CLIProvider::DeepSeek,
            WitcherSign::Igni => CLIProvider::Gemini,
            WitcherSign::Yrden => CLIProvider::Jules,
            WitcherSign::Quen => CLIProvider::Hydra,
            WitcherSign::Axii => CLIProvider::Hydra,
        }
    }

    /// Provider assigned to a category.
    pub fn route_by_task_type(k: TaskType) -> (r: CLIProvider)
        ensures
            r == task_provider(k),
    {
        match k {
            TaskType::CodeGeneration => CLIProvider::Hydra,
            TaskType::LongContextAnalysis => CLIProvider::Gemini,
            TaskType::BackgroundTask => CLIProvider::Jules,
            TaskType::MultiLanguageCode => CLIProvider::DeepSeek,
            TaskType::SymbolicAnalysis => CLIProvider::Hydra,
            TaskType::SystemOperation => CLIProvider::Hydra,
            TaskType::SecurityAudit => CLIProvider::Hydra,
            TaskType::General => CLIProvider::Hydra,
        }
    }

    /// Category of `prompt`, read from its lower-cased text.
    pub fn detect_task_type(&self, prompt: &str) -> (r: TaskType)
        ensures
            r == classify(lower_of(prompt@)),
    {
        let lower = lowercase(prompt);
        classify_lowered(lower.as_str())
    }

    /// Directive invoked in `prompt`, read from its lower-cased text.
    pub fn detect_witcher_sign(&self, prompt: &str) -> (r: Option<WitcherSign>)
        ensures
            r == sign_in(lower_of(prompt@)),
    {
        let lower = lowercase(prompt);
        detect_sign_lowered(lower.as_str())
    }

    /// Routes `prompt`: the category and directive are read from its
    /// lower-cased text, the directive, if any, picks the provider, and a
    /// record made at `now` is appended.
    pub fn route(&mut self, prompt: &str, now: u64) -> (r: (CLIProvider, TaskType, Option<WitcherSign>))
        ensures
            r.1 == classify(lower_of(prompt@)),
            r.2 == sign_in(lower_of(prompt@)),
            r.0 == chosen(r.1, r.2),
            final(self).history().len() == old(self).history().len() + 1,
            final(self).history().drop_last() == old(self).history(),
            final(self).history().last().prompt@ == take_chars(prompt@, RECORDED_PREFIX as nat),
            final(self).history().last().detected_type == r.1,
            final(self).history().last().routed_to == r.0,
            final(self).history().last().timestamp == now,
            final(self).history().last().success,
    {
        let lower = lowercase(prompt);
        let r = route_lowered(lower.as_str());
        self.route_history.push(RouteDecision {
            prompt: prefix_chars(prompt, RECORDED_PREFIX),
            detected_type: r.1,
            routed_to: r.0,
            timestamp: now,
            success: true,
        });
        assert(self.route_history@.drop_last() =~= old(self).route_history@);
        r
    }

    /// Sets the outcome of the most recent decision; nothing happens when there is none.
    pub fn mark_result(&mut self, success: bool)
        ensures
            old(self).history().len() == 0 ==> final(self).history() == old(self).history(),
            old(self).history().len() > 0 ==> final(self).history() == old(self).history().update(
                old(self).history().len() - 1,
                RouteDecision { success, ..old(self).history().last() },
            ),
    {
        match self.route_history.pop() {
            None => {},
            Some(last) => {
                let mut d = last;
                d.success = success;
                self.route_history.push(d);
                assert(self.route_history@ =~= old(self).route_history@.update(
                    old(self).route_history@.len() - 1,
                    RouteDecision { success, ..old(self).route_history@.last() },
                ));
            },
        }
    }

    /// Number of decisions, of those marked successful, and of those per provider.
    pub fn get_stats(&self) -> (r: WitcherStats)
        ensures
            r.total_routed as nat == self.history().len(),
            r.successful as nat == count_successful(self.history()),
            r.by_provider@.len() == all_providers().len(),
            forall|k: int| 0 <= k < r.by_provider@.len() ==> (#[trigger] r.by_provider@[k]).0 == all_providers()[k]
                && r.by_provider@[k].1 as nat == count_routed(self.history(), all_providers()[k]),
    {
        let h = &self.route_history;
        let mut successful: usize = 0;
        let mut k: usize = 0;
        while k < h.len()
            invariant
                k <= h@.len(),
                successful as nat == count_successful(h@.subrange(0, k as int)),
            decreases h.len() - k,
        {
            assert(h@.subrange(0, k + 1).drop_last() =~= h@.subrange(0, k as int));
            proof {
                lemma_counts_bounded(h@.subrange(0, k as int), CLIProvider::Hydra);
            }
            if h[k].success {
                successful = successful + 1;
            }
            k = k + 1;
        }
        assert(h@.subrange(0, h@.len() as int) =~= h@);
        let providers: Vec<CLIProvider> = vec![
            CLIProvider::Hydra,
            CLIProvider::Gemini,
            CLIProvider::Jules,
            CLIProvider::DeepSeek,
            CLIProvider::Codex,
            CLIProvider::Grok,
            CLIProvider::Ollama,
        ];
        assert(providers@ =~= all_providers());
        let mut by_provider: Vec<(CLIProvider, usize)> = Vec::new();
        let mut j: usize = 0;
        while j < providers.len()
            invariant
                providers@ == all_providers(),
                j <= providers@.len(),
                by_provider@.len() == j,
                forall|x: int| 0 <= x < j ==> (#[trigger] by_provider@[x]).0 == all_providers()[x]
                    && by_provider@[x].1 as nat == count_routed(h@, all_providers()[x]),
            decreases providers.len() - j,
        {
            let p = providers[j];
            let mut n: usize = 0;
            let mut k: usize = 0;
            while k < h.len()
                invariant
                    k <= h@.len(),
                    n as nat == count_routed(h@.subrange(0, k as int), p),
                decreases h.len() - k,
            {
                assert(h@.subrange(0, k + 1).drop_last() =~= h@.subrange(0, k as int));
                proof {
                    lemma_counts_bounded(h@.subrange(0, k as int), p);
                }
                if h[k].routed_to == p {
                    n = n + 1;
                }
                k = k + 1;
            }
            assert(h@.subrange(0, h@.len() as int) =~= h@);
            by_provider.push((p, n));
            j = j + 1;
        }
        WitcherStats { total_routed: h.len(), successful, by_provider }
    }

    /// Category and provider of the most recent decision, if any.
    pub fn last_decision(&self) -> (r: Option<(TaskType, CLIProvider)>)
        ensures
            r.is_none() == (self.history().len() == 0),
            r.is_some() ==> r.unwrap() == (self.history().last().detected_type, self.history().last().routed_to),
    {
        let n = self.route_history.len();
        if n == 0 {
            None
        } else {
            let d = &self.route_history[n - 1];
            Some((d.detected_type, d.routed_to))
        }
    }
}

impl Default for WitcherRouter {
    /// A router with no decision recorded.
    fn default() -> (r: WitcherRouter)
        ensures
            r.history().len() == 0,
    {
        WitcherRouter::new()
    }
}

} // verus!
