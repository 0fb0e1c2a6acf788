//! The shared data model: providers, request lifecycle, tabs and conflicts.
use vstd::prelude::*;

verus! {

/// Identifier of a tab.
pub type TabId = String;

/// Identifier of a tab's session.
pub type SessionId = String;

/// Identifier of a request, unique over the life of a queue.
pub type PromptId = u64;

/// The backend a tab or request is bound to.
#[derive(Debug, Clone, Copy, PartialEq, Eq, Structural, Hash)]
pub enum CLIProvider {
    Hydra,
    Gemini,
    Jules,
    DeepSeek,
    Codex,
    Grok,
    Ollama,
}

impl CLIProvider {
    /// Lower-case name of the provider.
    pub fn name(&self) -> (r: &'static str)
        ensures
            r@ == provider_name(*self),
    {
        match self {
            CLIProvider::Hydra => "hydra",
            CLIProvider::Gemini => "gemini",
            CLIProvider::Jules => "jules",
            CLIProvider::DeepSeek => "deepseek",
            CLIProvider::Codex => "codex",
            CLIProvider::Grok => "grok",
            CLIProvider::Ollama => "ollama",
        }
    }
}

/// Lower-case name of a provider.
pub open spec fn provider_name(p: CLIProvider) -> Seq<char> {
    match p {
        CLIProvider::Hydra => "hydra"@,
        CLIProvider::Gemini => "gemini"@,
        CLIProvider::Jules => "jules"@,
        CLIProvider::DeepSeek => "deepseek"@,
        CLIProvider::Codex => "codex"@,
        CLIProvider::Grok => "grok"@,
        CLIProvider::Ollama => "ollama"@,
    }
}

impl Default for CLIProvider {
    /// The primary provider.
    fn default() -> (r: CLIProvider)
        ensures
            r == CLIProvider::Hydra,
    {
        CLIProvider::Hydra
    }
}

/// Lifecycle state of a request.
#[derive(Debug, Clone, Copy, PartialEq, Eq, Structural)]
pub enum PromptStatus {
    Queued,
    Processing,
    Completed,
    Failed,
    Cancelled,
}

/// Priority of a request; `Critical` ranks highest.
#[derive(Debug, Clone, Copy, PartialEq, Eq, Structural, PartialOrd, Ord, Hash)]
pub enum PromptPriority {
    Low,
    Normal,
    High,
    Critical,
}

/// Numeric rank of a priority: Low 0, Normal 1, High 2, Critical 3.
pub open spec fn rank(p: PromptPriority) -> nat {
    match p {
        PromptPriority::Low => 0,
        PromptPriority::Normal => 1,
        PromptPriority::High => 2,
        PromptPriority::Critical => 3,
    }
}

impl PromptPriority {
    /// Numeric rank of this priority.
    pub fn rank(&self) -> (r: u8)
        ensures
            r as nat == rank(*self),
    {
        match self {
            PromptPriority::Low => 0,
            PromptPriority::Normal => 1,
            PromptPriority::High => 2,
            PromptPriority::Critical => 3,
        }
    }
}

impl Default for PromptPriority {
    /// Normal priority.
    fn default() -> (r: PromptPriority)
        ensures
            r == PromptPriority::Normal,
    {
        PromptPriority::Normal
    }
}

/// A request: one unit of work submitted to a tab.
#[derive(Debug, Clone)]
pub struct QueuedPrompt {
    pub id: PromptId,
    pub tab_id: TabId,
    pub session_id: SessionId,
    pub content: String,
    pub provider: CLIProvider,
    pub priority: PromptPriority,
    pub status: PromptStatus,
    /// Creation time, Unix milliseconds.
    pub created_at: u64,
    pub started_at: Option<u64>,
    pub completed_at: Option<u64>,
    pub response: Option<String>,
    pub error: Option<String>,
    /// Files this request may touch.
    pub affected_files: Vec<String>,
}

impl QueuedPrompt {
    /// A fresh Queued request of Normal priority created at `now`, with id
    /// `id`, which is to come from the queue's `allocate_id`.
    pub fn new(id: PromptId, tab_id: TabId, session_id: SessionId, content: String, provider: CLIProvider, now: u64) -> (r: QueuedPrompt)
        ensures
            r.id == id,
            r.tab_id == tab_id,
            r.session_id == session_id,
            r.content == content,
            r.provider == provider,
            r.priority == PromptPriority::Normal,
            r.status == PromptStatus::Queued,
            r.created_at == now,
            r.started_at.is_none(),
            r.completed_at.is_none(),
            r.response.is_none(),
            r.error.is_none(),
            r.affected_files@.len() == 0,
    {
        QueuedPrompt {
            id,
            tab_id,
            session_id,
            content,
            provider,
            priority: PromptPriority::Normal,
            status: PromptStatus::Queued,
            created_at: now,
            started_at: None,
            completed_at: None,
            response: None,
            error: None,
            affected_files: Vec::new(),
        }
    }

    /// `self` and `o` hold the same values, field for field.
    pub open spec fn same_as(self, o: QueuedPrompt) -> bool {
        &&& self.id == o.id
        &&& self.tab_id == o.tab_id
        &&& self.session_id == o.session_id
        &&& self.content == o.content
        &&& self.provider == o.provider
        &&& self.priority == o.priority
        &&& self.status == o.status
        &&& self.created_at == o.created_at
        &&& self.started_at == o.started_at
        &&& self.completed_at == o.completed_at
        &&& self.response == o.response
        &&& self.error == o.error
        &&& self.affected_files@ == o.affected_files@
    }

    /// A field-for-field copy.
    pub fn clone_exact(&self) -> (r: QueuedPrompt)
        ensures
            r.same_as(*self),
    {
        QueuedPrompt {
            id: self.id,
            tab_id: self.tab_id.clone(),
            session_id: self.session_id.clone(),
            content: self.content.clone(),
            provider: self.provider,
            priority: self.priority,
            status: self.status,
            created_at: self.created_at,
            started_at: self.started_at,
            completed_at: self.completed_at,
            response: clone_opt(&self.response),
            error: clone_opt(&self.error),
            affected_files: clone_strings(&self.affected_files),
        }
    }

    /// The same request with `priority`.
    pub fn with_priority(self, priority: PromptPriority) -> (r: QueuedPrompt)
        ensures
            r == (QueuedPrompt { priority, ..self }),
    {
        let mut p = self;
        p.priority = priority;
        p
    }

    /// The same request with `files` as the files it may touch.
    pub fn with_affected_files(self, files: Vec<String>) -> (r: QueuedPrompt)
        ensures
            r == (QueuedPrompt { affected_files: files, ..self }),
    {
        let mut p = self;
        p.affected_files = files;
        p
    }
}

/// One entry of a tab's conversation log.
#[derive(Debug, Clone)]
pub struct ConversationMessage {
    pub id: String,
    /// "user", "assistant" or "system".
    pub role: String,
    pub content: String,
    pub timestamp: u64,
    pub provider: CLIProvider,
}

/// An independent conversation context bound to one provider.
#[derive(Debug, Clone)]
pub struct TabSession {
    pub tab_id: TabId,
    pub session_id: SessionId,
    pub name: String,
    pub provider: CLIProvider,
    pub is_active: bool,
    pub created_at: u64,
    pub last_activity: u64,
    pub conversation: Vec<ConversationMessage>,
    /// Files currently being worked on in this tab.
    pub active_files: Vec<String>,
    /// Whether the provider may skip its permission prompts.
    pub yolo_mode: bool,
}

impl TabSession {
    /// A new active tab created at `now`, with session id "session_", the tab
    /// id, "_" and the creation time in decimal.
    pub fn new(tab_id: TabId, name: String, provider: CLIProvider, now: u64) -> (r: TabSession)
        ensures
            r.tab_id == tab_id,
            r.session_id@ == "session_"@ + tab_id@ + "_"@ + crate::text::decimal_of(now as nat),
            r.name == name,
            r.provider == provider,
            r.is_active,
            r.created_at == now,
            r.last_activity == now,
            r.conversation@.len() == 0,
            r.active_files@.len() == 0,
            r.yolo_mode,
    {
        proof {
            reveal_strlit("session_");
            reveal_strlit("_");
        }
        let prefix = String::from_str("session_").concat(tab_id.as_str()).concat("_");
        let session_id = crate::text::with_number(prefix.as_str(), now);
        TabSession {
            tab_id,
            session_id,
            name,
            provider,
            is_active: true,
            created_at: now,
            last_activity: now,
            conversation: Vec::new(),
            active_files: Vec::new(),
            yolo_mode: true,
        }
    }

    /// Appends a message with `role` and `content` at `now` and records the activity.
    pub fn add_message(&mut self, role: &str, content: &str, provider: CLIProvider, now: u64)
        ensures
            final(self).conversation@.len() == old(self).conversation@.len() + 1,
            final(self).conversation@.drop_last() == old(self).conversation@,
            final(self).conversation@.last().role@ == role@,
            final(self).conversation@.last().content@ == content@,
            final(self).conversation@.last().provider == provider,
            final(self).conversation@.last().timestamp == now,
            final(self).last_activity == now,
            final(self).tab_id == old(self).tab_id,
            final(self).session_id == old(self).session_id,
            final(self).name == old(self).name,
            final(self).provider == old(self).provider,
            final(self).active_files == old(self).active_files,
            final(self).created_at == old(self).created_at,
            final(self).is_active == old(self).is_active,
            final(self).yolo_mode == old(self).yolo_mode,
    {
        proof {
            reveal_strlit("msg_");
        }
        let n = self.conversation.len() as u64;
        let prefix = String::from_str("msg_").concat(self.tab_id.as_str()).concat("_");
        let id = crate::text::with_number(prefix.as_str(), n);
        self.conversation.push(
            ConversationMessage {
                id,
                role: String::from_str(role),
                content: String::from_str(content),
                timestamp: now,
                provider,
            },
        );
        assert(self.conversation@.drop_last() =~= old(self).conversation@);
        self.last_activity = now;
    }

    /// Replaces the tab's active files and records the activity at `now`.
    pub fn update_active_files(&mut self, files: Vec<String>, now: u64)
        ensures
            final(self).active_files == files,
            final(self).last_activity == now,
            final(self).conversation == old(self).conversation,
            final(self).tab_id == old(self).tab_id,
            final(self).name == old(self).name,
            final(self).provider == old(self).provider,
            final(self).session_id == old(self).session_id,
            final(self).created_at == old(self).created_at,
            final(self).is_active == old(self).is_active,
            final(self).yolo_mode == old(self).yolo_mode,
    {
        self.active_files = files;
        self.last_activity = now;
    }
}

/// Kind of a detected conflict.
#[derive(Debug, Clone, Copy, PartialEq, Eq, Structural)]
pub enum ConflictType {
    /// Two or more tabs are registered on the same file.
    ConcurrentEdit,
    /// The file changed on disk since its modification time was last recorded.
    ExternalChange,
    /// Reserved.
    UncommittedChanges,
}

/// A detected overlap of file interest between tabs, or an outside change.
#[derive(Debug, Clone)]
pub struct FileConflict {
    pub file_path: String,
    pub tabs_involved: Vec<TabId>,
    pub conflict_type: ConflictType,
    pub detected_at: u64,
}

/// Queue statistics. The "today" counters are cumulative since the queue was made.
#[derive(Debug, Clone, Copy, PartialEq, Eq, Structural)]
pub struct QueueStats {
    pub total_queued: usize,
    pub processing: usize,
    pub completed_today: usize,
    pub failed_today: usize,
    pub average_wait_ms: u64,
    pub average_process_ms: u64,
}

/// Summary of a tab for listing.
#[derive(Debug, Clone)]
pub struct TabInfo {
    pub tab_id: TabId,
    pub name: String,
    pub provider: CLIProvider,
    pub is_active: bool,
    pub has_unread: bool,
    pub message_count: usize,
    pub last_activity: u64,
    pub has_conflict: bool,
}

/// A copy of a message.
pub fn clone_message(m: &ConversationMessage) -> (r: ConversationMessage)
    ensures
        r == *m,
{
    ConversationMessage {
        id: m.id.clone(),
        role: m.role.clone(),
        content: m.content.clone(),
        timestamp: m.timestamp,
        provider: m.provider,
    }
}

/// A copy of a conversation log.
pub fn clone_messages(v: &Vec<ConversationMessage>) -> (r: Vec<ConversationMessage>)
    ensures
        r@ == v@,
{
    let mut out: Vec<ConversationMessage> = Vec::new();
    let mut k: usize = 0;
    while k < v.len()
        invariant
            k <= v@.len(),
            out@ == v@.subrange(0, k as int),
        decreases v.len() - k,
    {
        out.push(clone_message(&v[k]));
        assert(out@ =~= v@.subrange(0, k + 1));
        k = k + 1;
    }
    assert(out@ =~= v@);
    out
}

impl TabSession {
    /// `self` and `o` hold the same values, field for field.
    pub open spec fn same_as(self, o: TabSession) -> bool {
        &&& self.tab_id == o.tab_id
        &&& self.session_id == o.session_id
        &&& self.name == o.name
        &&& self.provider == o.provider
        &&& self.is_active == o.is_active
        &&& self.created_at == o.created_at
        &&& self.last_activity == o.last_activity
        &&& self.conversation@ == o.conversation@
        &&& self.active_files@ == o.active_files@
        &&& self.yolo_mode == o.yolo_mode
    }

    /// A field-for-field copy.
    pub fn clone_exact(&self) -> (r: TabSession)
        ensures
            r.same_as(*self),
    {
        TabSession {
            tab_id: self.tab_id.clone(),
            session_id: self.session_id.clone(),
            name: self.name.clone(),
            provider: self.provider,
            is_active: self.is_active,
            created_at: self.created_at,
            last_activity: self.last_activity,
            conversation: clone_messages(&self.conversation),
            active_files: clone_strings(&self.active_files),
            yolo_mode: self.yolo_mode,
        }
    }
}

/// A copy of an optional string.
pub fn clone_opt(s: &Option<String>) -> (r: Option<String>)
    ensures
        r == *s,
{
    match s {
        Some(t) => Some(t.clone()),
        None => None,
    }
}

/// A copy of a list of strings.
pub fn clone_strings(v: &Vec<String>) -> (r: Vec<String>)
    ensures
        r@ == v@,
{
    let mut out: Vec<String> = Vec::new();
    let mut k: usize = 0;
    while k < v.len()
        invariant
            k <= v@.len(),
            out@ == v@.subrange(0, k as int),
        decreases v.len() - k,
    {
        out.push(v[k].clone());
        assert(out@ =~= v@.subrange(0, k + 1));
        k = k + 1;
    }
    assert(out@ =~= v@);
    out
}

} // verus!
