use hydra_launcher::health::{
    configured_outcome, desktop_commander_result, playwright_result, serena_result, summarize,
    unknown_server_result, CheckStep, McpHealthChecker, McpHealthResult, McpServer, McpStatus,
};

fn check(checker: &mut McpHealthChecker, name: &str, now: u64) -> McpHealthResult {
    match checker.check_server(name, now) {
        CheckStep::Cached(r) => r,
        CheckStep::Unknown(r) => r,
        CheckStep::Probe(server) => {
            assert_eq!(server, McpServer::Serena);
            let r = serena_result(false, None, 0);
            checker.update_cache(name, r.clone(), now);
            r
        },
    }
}

#[test]
fn test_mcp_checker_caching() {
    let mut checker = McpHealthChecker::new("/nowhere".to_string());
    let result1 = check(&mut checker, "Serena", 1000);
    let result2 = check(&mut checker, "Serena", 1001);
    assert_eq!(result1.status, result2.status);
}

#[test]
fn cache_expires_after_its_lifetime() {
    let mut checker = McpHealthChecker::new("/p".to_string());
    assert!(matches!(checker.check_server("Playwright", 0), CheckStep::Probe(McpServer::Playwright)));
    checker.update_cache("Playwright", playwright_result(Some("playwright".to_string()), 3), 0);
    assert!(matches!(checker.check_server("Playwright", 4999), CheckStep::Cached(_)));
    assert!(checker.get_cached("Playwright", 4999).is_some());
    assert!(checker.get_cached("Playwright", 5000).is_none());
    assert!(matches!(checker.check_server("Playwright", 5000), CheckStep::Probe(McpServer::Playwright)));
    assert_eq!(checker.hydra_path(), "/p");
}

#[test]
fn unknown_server_is_an_error() {
    let mut checker = McpHealthChecker::new(String::new());
    match checker.check_server("Nope", 0) {
        CheckStep::Unknown(r) => {
            assert_eq!(r.status, McpStatus::Error);
            assert_eq!(r.error, Some("Unknown MCP server: Nope".to_string()));
        },
        _ => panic!("expected an unknown server"),
    }
    assert!(matches!(checker.check_server("Nope", 1), CheckStep::Cached(_)));
    assert_eq!(unknown_server_result("X").name, "X");
    assert_eq!(McpServer::from_name("Desktop Commander"), Some(McpServer::DesktopCommander));
    assert_eq!(McpServer::from_name("serena"), None);
    assert_eq!(McpServer::Playwright.name(), "Playwright");
}

#[test]
fn serena_reads_its_project_file() {
    let off = serena_result(false, None, 9);
    assert_eq!(off.status, McpStatus::Offline);
    assert_eq!(off.error, Some("Serena not configured - .serena/project.yml not found".to_string()));
    let on = serena_result(true, Some("language: rust".to_string()), 9);
    assert_eq!(on.status, McpStatus::Online);
    assert_eq!(on.response_time_ms, Some(9));
    assert_eq!(on.capabilities, Some(vec!["symbolic_analysis".to_string()]));
    let multi = serena_result(true, Some("languages: [python]".to_string()), 1);
    assert_eq!(multi.capabilities, Some(vec!["symbolic_analysis".to_string(), "multi_language".to_string()]));
    assert_eq!(serena_result(true, None, 1).capabilities, None);
}

#[test]
fn desktop_commander_and_playwright() {
    let ok = desktop_commander_result(true, None, 4);
    assert_eq!(ok.status, McpStatus::Online);
    assert_eq!(ok.capabilities.unwrap().len(), 3);
    let configured = desktop_commander_result(false, Some("{\"desktop-commander\": {}}".to_string()), 4);
    assert_eq!(configured.capabilities, Some(vec!["configured".to_string()]));
    let off = desktop_commander_result(false, Some("{}".to_string()), 4);
    assert_eq!(off.status, McpStatus::Offline);
    assert_eq!(off.error, Some("Desktop Commander not available".to_string()));
    assert_eq!(playwright_result(None, 1).status, McpStatus::Offline);
    assert_eq!(playwright_result(Some("playwright".to_string()), 1).status, McpStatus::Online);
}

#[test]
fn summaries_and_configured_outcomes() {
    let results = vec![
        serena_result(true, None, 2),
        playwright_result(None, 1),
        desktop_commander_result(true, None, 3),
    ];
    assert_eq!(summarize(&results), (2, 3));
    assert_eq!(summarize(&Vec::new()), (0, 0));
    assert_eq!(configured_outcome(serena_result(true, None, 2)), Ok(2));
    assert_eq!(
        configured_outcome(playwright_result(None, 1)),
        Err("Playwright MCP not configured in settings.json".to_string())
    );
    let mut bare = unknown_server_result("Y");
    bare.error = None;
    assert_eq!(configured_outcome(bare), Err("Unknown error".to_string()));
}
