use hydra_launcher::router::TaskType;
use hydra_launcher::session::SessionManager;
use hydra_launcher::types::{CLIProvider, ConflictType, PromptPriority};

#[test]
fn critical_request_dispatched_first() {
    let mut m = SessionManager::new("/p".to_string(), 1);
    let a = m.create_tab("A".to_string(), CLIProvider::Gemini, 0).tab_id;
    let _n = m.send_prompt(&a, "one".to_string(), PromptPriority::Normal, 1).unwrap();
    let c = m.send_prompt(&a, "two".to_string(), PromptPriority::Critical, 2).unwrap();
    let _l = m.send_prompt(&a, "three".to_string(), PromptPriority::Low, 3).unwrap();
    let first = m.next_dispatch(4).unwrap();
    assert_eq!(first.id, c);
    assert_eq!(first.content, "two");
}

#[test]
fn closing_a_tab_clears_its_conflicts() {
    let mut m = SessionManager::new(String::new(), 2);
    let a = m.create_tab("A".to_string(), CLIProvider::Gemini, 0).tab_id;
    let b = m.create_tab("B".to_string(), CLIProvider::Jules, 0).tab_id;
    m.register_tab_files(&a, vec!["shared.txt".to_string()], 1);
    m.register_tab_files(&b, vec!["shared.txt".to_string()], 2);
    let cs = m.get_conflicts();
    assert_eq!(cs.len(), 1);
    assert_eq!(cs[0].conflict_type, ConflictType::ConcurrentEdit);
    assert_eq!(cs[0].tabs_involved, vec![a.clone(), b.clone()]);
    assert!(m.get_tabs()[0].has_conflict);
    assert_eq!(m.get_tab_conflicts(&a).len(), 1);
    assert_eq!(m.close_tab(&a), Ok(()));
    assert!(m.get_conflicts().is_empty());
    assert!(m.get_tab_conflicts(&b).is_empty());
    assert_eq!(m.close_tab(&a), Ok(()));
    assert!(m.get_tab(&a).is_none());
}

#[test]
fn request_runs_on_the_routed_provider() {
    let mut m = SessionManager::new("/p".to_string(), 1);
    let a = m.create_tab("A".to_string(), CLIProvider::Gemini, 0).tab_id;
    m.send_prompt(&a, "refactor the login function".to_string(), PromptPriority::Normal, 1).unwrap();
    let p = m.next_dispatch(2).unwrap();
    assert_eq!(p.provider, CLIProvider::Hydra);
    m.record_outcome(&p, Ok("ok".to_string()), 3);
    m.send_prompt(&a, "/witcher yrden nightly".to_string(), PromptPriority::Normal, 4).unwrap();
    assert_eq!(m.next_dispatch(5).unwrap().provider, CLIProvider::Jules);
}

#[test]
fn refactor_request_routes_to_symbolic_analysis() {
    let mut m = SessionManager::new(String::new(), 1);
    let a = m.create_tab("A".to_string(), CLIProvider::Hydra, 0).tab_id;
    m.send_prompt(&a, "refactor the login function".to_string(), PromptPriority::Normal, 1).unwrap();
    assert_eq!(m.last_route(), Some((TaskType::SymbolicAnalysis, CLIProvider::Hydra)));
}

#[test]
fn busy_tab_waits_for_its_running_request() {
    let mut m = SessionManager::new(String::new(), 1);
    let a = m.create_tab("A".to_string(), CLIProvider::Gemini, 0).tab_id;
    m.send_prompt(&a, "first".to_string(), PromptPriority::Normal, 1).unwrap();
    let running = m.next_dispatch(2).unwrap();
    assert!(m.is_tab_busy(&a));
    m.send_prompt(&a, "second".to_string(), PromptPriority::Normal, 3).unwrap();
    assert!(m.next_dispatch(4).is_none());
    let (id, reply) = m.record_outcome(&running, Ok("answer".to_string()), 5);
    assert_eq!(id, running.id);
    assert_eq!(reply, "answer");
    let second = m.next_dispatch(6).unwrap();
    assert_eq!(second.content, "second");
}

#[test]
fn cancel_request_only_while_queued() {
    let mut m = SessionManager::new(String::new(), 1);
    let a = m.create_tab("A".to_string(), CLIProvider::Gemini, 0).tab_id;
    let b = m.create_tab("B".to_string(), CLIProvider::Gemini, 0).tab_id;
    let p1 = m.send_prompt(&a, "x".to_string(), PromptPriority::Normal, 1).unwrap();
    let p2 = m.send_prompt(&b, "y".to_string(), PromptPriority::Normal, 2).unwrap();
    let running = m.next_dispatch(3).unwrap();
    assert_eq!(running.id, p1);
    assert!(!m.cancel_prompt(p1));
    assert!(m.cancel_prompt(p2));
    m.record_outcome(&running, Err("down".to_string()), 4);
    assert!(m.next_dispatch(5).is_none());
}

#[test]
fn outcomes_update_conversation_and_stats() {
    let mut m = SessionManager::new(String::new(), 2);
    let tab = m.create_tab("Main".to_string(), CLIProvider::Hydra, 7);
    assert_eq!(tab.tab_id, "tab_0");
    assert_eq!(tab.session_id, "session_tab_0_7");
    assert!(SessionManager::needs_process(tab.provider));
    let a = tab.tab_id;
    m.send_prompt(&a, "hi".to_string(), PromptPriority::High, 10).unwrap();
    let p = m.next_dispatch(12).unwrap();
    let (_, reply) = m.record_outcome(&p, Ok("hello".to_string()), 20);
    assert_eq!(reply, "hello");
    let t = m.get_tab(&a).unwrap();
    assert_eq!(t.conversation.len(), 2);
    assert_eq!(t.conversation[0].role, "user");
    assert_eq!(t.conversation[0].content, "hi");
    assert_eq!(t.conversation[1].role, "assistant");
    assert_eq!(t.conversation[1].content, "hello");
    assert_eq!(t.conversation[1].id, "msg_tab_0_1");
    assert_eq!(t.last_activity, 20);
    m.send_prompt(&a, "again".to_string(), PromptPriority::High, 21).unwrap();
    let p = m.next_dispatch(22).unwrap();
    let (_, reply) = m.record_outcome(&p, Err("no binary".to_string()), 30);
    assert_eq!(reply, "Error: no binary");
    assert_eq!(m.get_tab(&a).unwrap().conversation.len(), 2);
    let s = m.get_queue_stats();
    assert_eq!(s.completed_today, 1);
    assert_eq!(s.failed_today, 1);
    assert_eq!(s.average_wait_ms, 1);
    assert_eq!(s.average_process_ms, 8);
}

#[test]
fn unknown_tab_errors() {
    let mut m = SessionManager::new(String::new(), 1);
    let missing = "tab_9".to_string();
    assert_eq!(m.send_prompt(&missing, "x".to_string(), PromptPriority::Low, 0), Err("Tab not found".to_string()));
    assert_eq!(m.rename_tab(&missing, "n".to_string()), Err("Tab not found".to_string()));
    assert!(m.get_tab(&missing).is_none());
    let a = m.create_tab("A".to_string(), CLIProvider::Ollama, 0).tab_id;
    assert_eq!(m.rename_tab(&a, "Renamed".to_string()), Ok(()));
    assert_eq!(m.get_tabs()[0].name, "Renamed");
    assert_eq!(m.get_tabs()[0].message_count, 0);
    assert!(!SessionManager::needs_process(CLIProvider::Ollama));
}

#[test]
fn unsupported_providers_report_an_error() {
    assert_eq!(
        SessionManager::unsupported_provider_error(CLIProvider::Codex),
        Some("Provider codex not implemented yet".to_string())
    );
    assert_eq!(
        SessionManager::unsupported_provider_error(CLIProvider::Grok),
        Some("Provider grok not implemented yet".to_string())
    );
    assert_eq!(SessionManager::unsupported_provider_error(CLIProvider::Jules), None);
}
