use hydra_launcher::router::{classify_lowered, detect_sign_lowered, TaskType, WitcherRouter, WitcherSign};
use hydra_launcher::types::CLIProvider;

#[test]
fn test_code_generation_routing() {
    let mut router = WitcherRouter::new();
    let (provider, task_type, _) = router.route("Proszę napisz kod do sortowania tablicy", 0);
    assert_eq!(task_type, TaskType::CodeGeneration);
    assert_eq!(provider, CLIProvider::Hydra);
}

#[test]
fn test_long_context_routing() {
    let mut router = WitcherRouter::new();
    let (provider, task_type, _) = router.route("Przeanalizuj całą bazę projektu", 0);
    assert_eq!(task_type, TaskType::LongContextAnalysis);
    assert_eq!(provider, CLIProvider::Gemini);
}

#[test]
fn test_witcher_sign_routing() {
    let mut router = WitcherRouter::new();
    let (provider, _, sign) = router.route("/witcher igni analyze", 0);
    assert_eq!(sign, Some(WitcherSign::Igni));
    assert_eq!(provider, CLIProvider::Gemini);
}

#[test]
fn route_lower_cases_before_matching() {
    let mut router = WitcherRouter::new();
    let (provider, task_type, sign) = router.route("REFACTOR the parser", 5);
    assert_eq!(task_type, TaskType::SymbolicAnalysis);
    assert_eq!(sign, None);
    assert_eq!(provider, CLIProvider::Hydra);
    assert_eq!(router.detect_task_type("Run In Background please"), TaskType::BackgroundTask);
    assert_eq!(router.detect_witcher_sign("Use YRDEN here"), Some(WitcherSign::Yrden));
}

#[test]
fn classification_follows_the_fixed_order() {
    assert_eq!(classify_lowered("write code and refactor"), TaskType::CodeGeneration);
    assert_eq!(classify_lowered("deep dive later"), TaskType::LongContextAnalysis);
    assert_eq!(classify_lowered("schedule a rename"), TaskType::BackgroundTask);
    assert_eq!(classify_lowered("find symbol in the shell"), TaskType::SymbolicAnalysis);
    assert_eq!(classify_lowered("open a terminal for the audit"), TaskType::SystemOperation);
    assert_eq!(classify_lowered("owasp scan in python"), TaskType::SecurityAudit);
    assert_eq!(classify_lowered("a kotlin question"), TaskType::MultiLanguageCode);
    assert_eq!(classify_lowered("hello there"), TaskType::General);
    assert_eq!(classify_lowered(""), TaskType::General);
}

#[test]
fn directive_overrides_category() {
    let mut router = WitcherRouter::new();
    let (provider, task_type, sign) = router.route("aard: write code for sorting", 1);
    assert_eq!(task_type, TaskType::CodeGeneration);
    assert_eq!(sign, Some(WitcherSign::Aard));
    assert_eq!(provider, CLIProvider::DeepSeek);
    assert_eq!(detect_sign_lowered("/witcher quen now"), Some(WitcherSign::Quen));
    assert_eq!(detect_sign_lowered("axii"), Some(WitcherSign::Axii));
    assert_eq!(detect_sign_lowered("nothing here"), None);
}

#[test]
fn providers_by_category_and_directive() {
    assert_eq!(WitcherRouter::route_by_task_type(TaskType::BackgroundTask), CLIProvider::Jules);
    assert_eq!(WitcherRouter::route_by_task_type(TaskType::MultiLanguageCode), CLIProvider::DeepSeek);
    assert_eq!(WitcherRouter::route_by_task_type(TaskType::SecurityAudit), CLIProvider::Hydra);
    assert_eq!(WitcherRouter::route_by_sign(WitcherSign::Yrden), CLIProvider::Jules);
    assert_eq!(WitcherRouter::route_by_sign(WitcherSign::Axii), CLIProvider::Hydra);
}

#[test]
fn mark_result_tags_only_the_last_decision() {
    let mut router = WitcherRouter::new();
    router.mark_result(false);
    assert_eq!(router.get_stats().total_routed, 0);
    router.route("write code", 1);
    router.route("deep dive", 2);
    router.mark_result(false);
    let stats = router.get_stats();
    assert_eq!(stats.total_routed, 2);
    assert_eq!(stats.successful, 1);
    assert_eq!(stats.by_provider.len(), 7);
    assert_eq!(stats.by_provider[0], (CLIProvider::Hydra, 1));
    assert_eq!(stats.by_provider[1], (CLIProvider::Gemini, 1));
    assert_eq!(stats.by_provider[2], (CLIProvider::Jules, 0));
    assert_eq!(router.last_decision(), Some((TaskType::LongContextAnalysis, CLIProvider::Gemini)));
}
