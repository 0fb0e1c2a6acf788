use hydra_launcher::queue::PromptQueue;
use hydra_launcher::types::{CLIProvider, PromptPriority, PromptStatus, QueuedPrompt};

fn add(q: &mut PromptQueue, tab: &str, priority: PromptPriority, at: u64) -> u64 {
    let id = q.allocate_id();
    let p = QueuedPrompt::new(id, tab.to_string(), format!("session_{}", tab), format!("text {}", at), CLIProvider::Hydra, at)
        .with_priority(priority);
    q.enqueue(p)
}

#[test]
fn highest_priority_first_then_earliest() {
    let mut q = PromptQueue::new(3);
    let a = add(&mut q, "A", PromptPriority::Normal, 1);
    let b = add(&mut q, "B", PromptPriority::Critical, 2);
    let c = add(&mut q, "C", PromptPriority::Normal, 0);
    let first = q.dequeue(10).unwrap();
    assert_eq!(first.id, b);
    assert_eq!(first.status, PromptStatus::Processing);
    assert_eq!(first.started_at, Some(10));
    assert_eq!(q.dequeue(11).unwrap().id, c);
    assert_eq!(q.dequeue(12).unwrap().id, a);
    assert!(q.dequeue(13).is_none());
}

#[test]
fn equal_priority_and_time_keeps_arrival_order() {
    let mut q = PromptQueue::new(2);
    let a = add(&mut q, "A", PromptPriority::High, 5);
    let b = add(&mut q, "B", PromptPriority::High, 5);
    assert_eq!(q.dequeue(6).unwrap().id, a);
    assert_eq!(q.dequeue(6).unwrap().id, b);
}

#[test]
fn one_running_request_per_tab() {
    let mut q = PromptQueue::new(4);
    let a1 = add(&mut q, "A", PromptPriority::Critical, 1);
    let a2 = add(&mut q, "A", PromptPriority::Critical, 2);
    let b1 = add(&mut q, "B", PromptPriority::Low, 3);
    assert_eq!(q.dequeue(5).unwrap().id, a1);
    assert!(q.is_tab_busy(&"A".to_string()));
    assert_eq!(q.dequeue(5).unwrap().id, b1);
    assert!(q.dequeue(5).is_none());
    assert!(q.complete(a1, "done".to_string(), 8));
    assert!(!q.is_tab_busy(&"A".to_string()));
    assert_eq!(q.dequeue(9).unwrap().id, a2);
}

#[test]
fn running_requests_stay_within_the_cap() {
    let mut q = PromptQueue::new(1);
    let a = add(&mut q, "A", PromptPriority::Normal, 1);
    add(&mut q, "B", PromptPriority::Normal, 2);
    assert_eq!(q.dequeue(3).unwrap().id, a);
    assert!(q.dequeue(3).is_none());
    assert_eq!(q.get_stats().processing, 1);
    assert!(q.fail(a, "boom".to_string(), 4));
    assert!(q.dequeue(5).is_some());
    let mut none = PromptQueue::new(0);
    add(&mut none, "A", PromptPriority::Normal, 1);
    assert!(none.dequeue(1).is_none());
}

#[test]
fn cancel_only_waiting_requests_once() {
    let mut q = PromptQueue::new(1);
    let a = add(&mut q, "A", PromptPriority::Normal, 1);
    let b = add(&mut q, "B", PromptPriority::Normal, 2);
    assert_eq!(q.dequeue(3).unwrap().id, a);
    assert!(!q.cancel(a));
    assert!(q.cancel(b));
    assert!(!q.cancel(b));
    assert!(!q.cancel(99));
    assert!(q.complete(a, "ok".to_string(), 4));
    assert!(q.dequeue(5).is_none());
}

#[test]
fn cancel_tab_keeps_running_and_other_tabs() {
    let mut q = PromptQueue::new(2);
    let a1 = add(&mut q, "A", PromptPriority::Normal, 1);
    add(&mut q, "A", PromptPriority::Normal, 2);
    let b1 = add(&mut q, "B", PromptPriority::Normal, 3);
    assert_eq!(q.dequeue(4).unwrap().id, a1);
    q.cancel_tab(&"A".to_string());
    assert_eq!(q.get_stats().total_queued, 1);
    assert_eq!(q.get_tab_prompts(&"A".to_string()).len(), 1);
    assert_eq!(q.get_processing(&"A".to_string()).unwrap().id, a1);
    assert_eq!(q.dequeue(5).unwrap().id, b1);
}

#[test]
fn position_counts_requests_ahead() {
    let mut q = PromptQueue::new(1);
    let a = add(&mut q, "A", PromptPriority::Low, 1);
    let b = add(&mut q, "B", PromptPriority::High, 2);
    let c = add(&mut q, "C", PromptPriority::High, 3);
    assert_eq!(q.get_position(b), Some(0));
    assert_eq!(q.get_position(c), Some(1));
    assert_eq!(q.get_position(a), Some(2));
    q.dequeue(4);
    assert_eq!(q.get_position(b), None);
    assert_eq!(q.get_position(c), Some(0));
    assert_eq!(q.get_position(77), None);
}

#[test]
fn stats_average_over_finished_requests() {
    let mut q = PromptQueue::new(2);
    let a = add(&mut q, "A", PromptPriority::Normal, 100);
    let b = add(&mut q, "B", PromptPriority::Normal, 100);
    q.dequeue(110);
    q.dequeue(130);
    assert!(q.complete(a, "r".to_string(), 150));
    assert!(q.fail(b, "e".to_string(), 160));
    assert!(!q.complete(a, "again".to_string(), 170));
    let s = q.get_stats();
    assert_eq!(s.total_queued, 0);
    assert_eq!(s.processing, 0);
    assert_eq!(s.completed_today, 1);
    assert_eq!(s.failed_today, 1);
    assert_eq!(s.average_wait_ms, (10 + 30) / 2);
    assert_eq!(s.average_process_ms, (40 + 30) / 2);
    let empty = PromptQueue::new(1).get_stats();
    assert_eq!(empty.average_wait_ms, 0);
}

#[test]
fn ids_are_fresh_and_sequential() {
    let mut q = PromptQueue::new(1);
    let a = add(&mut q, "A", PromptPriority::Normal, 1);
    let b = add(&mut q, "A", PromptPriority::Normal, 1);
    assert_ne!(a, b);
    assert_eq!(b, a + 1);
    assert!(q.can_allocate());
}

#[test]
fn history_holds_at_most_one_hundred() {
    let mut q = PromptQueue::new(1);
    for i in 0..105u64 {
        let id = add(&mut q, "A", PromptPriority::Normal, i);
        assert_eq!(q.dequeue(i).unwrap().id, id);
        assert!(q.complete(id, "ok".to_string(), i));
    }
    assert_eq!(q.get_stats().completed_today, 105);
}

#[test]
fn enqueue_resets_the_request_and_keeps_its_id() {
    let mut q = PromptQueue::new(1);
    let id = q.allocate_id();
    let mut p = QueuedPrompt::new(id, "A".to_string(), "s".to_string(), "x".to_string(), CLIProvider::Gemini, 3);
    p.response = Some("stale".to_string());
    p.status = PromptStatus::Failed;
    assert_eq!(q.enqueue(p), id);
    let listed = q.get_tab_prompts(&"A".to_string());
    assert_eq!(listed.len(), 1);
    assert_eq!(listed[0].id, id);
    assert_eq!(listed[0].status, PromptStatus::Queued);
    assert_eq!(listed[0].response, None);
}

#[test]
fn tab_prompts_come_in_enqueue_order() {
    let mut q = PromptQueue::new(1);
    let p0 = add(&mut q, "A", PromptPriority::Low, 1);
    assert_eq!(q.dequeue(2).unwrap().id, p0);
    let p1 = add(&mut q, "A", PromptPriority::Normal, 3);
    let p2 = add(&mut q, "B", PromptPriority::Normal, 4);
    let p3 = add(&mut q, "A", PromptPriority::Critical, 5);
    let ids: Vec<u64> = q.get_tab_prompts(&"A".to_string()).iter().map(|p| p.id).collect();
    assert_eq!(ids, vec![p0, p1, p3]);
    assert_eq!(q.get_tab_prompts(&"B".to_string())[0].id, p2);
    assert!(q.get_tab_prompts(&"C".to_string()).is_empty());
}

#[test]
fn position_ignores_arrival_among_equal_requests() {
    let mut q = PromptQueue::new(1);
    let a = add(&mut q, "A", PromptPriority::Normal, 7);
    let b = add(&mut q, "B", PromptPriority::Normal, 7);
    assert_eq!(q.get_position(a), Some(0));
    assert_eq!(q.get_position(b), Some(0));
}

#[test]
fn failed_request_has_no_response() {
    let mut q = PromptQueue::new(1);
    let a = add(&mut q, "A", PromptPriority::Normal, 1);
    q.dequeue(2);
    assert!(q.fail(a, "bad".to_string(), 3));
    assert!(!q.is_tab_busy(&"A".to_string()));
    assert_eq!(q.get_stats().failed_today, 1);
}
