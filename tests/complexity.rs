use hydra_launcher::complexity::{analyze_complexity, complexity_score, count_words, route_by_complexity, route_prompt};

#[test]
fn words_are_runs_of_non_space() {
    assert_eq!(count_words(""), 0);
    assert_eq!(count_words("   "), 0);
    assert_eq!(count_words("one"), 1);
    assert_eq!(count_words("  two\twords\n"), 2);
    assert_eq!(count_words("a b  c"), 3);
}

#[test]
fn scores_in_half_points() {
    assert_eq!(analyze_complexity("hello"), 1);
    assert_eq!(analyze_complexity("multiple"), 2);
    assert_eq!(analyze_complexity("Detailed API"), 2);
    assert_eq!(analyze_complexity("Design a system"), 5);
    assert_eq!(analyze_complexity("production"), 4);
    let long = "w ".repeat(25);
    assert_eq!(analyze_complexity(&long), 2);
    let longer = "w ".repeat(61);
    assert_eq!(analyze_complexity(&longer), 3);
    assert_eq!(complexity_score(0, "multiple detailed system integration security authentication database api"), 5);
}

#[test]
fn routing_by_complexity() {
    assert_eq!(route_prompt("hi", true), ("ollama", "llama3.2:1b"));
    assert_eq!(route_prompt("hi", false), ("gemini", ""));
    assert_eq!(route_prompt("write a function", true), ("ollama", "llama3.2:1b"));
    assert_eq!(route_prompt("write a function", false), ("gemini", ""));
    assert_eq!(route_by_complexity(3, 20, true, true), ("ollama", "qwen2.5-coder:1.5b"));
    assert_eq!(route_by_complexity(4, 20, true, true), ("gemini", ""));
    assert_eq!(route_by_complexity(4, 20, false, true), ("gemini", ""));
    assert_eq!(route_by_complexity(2, 20, false, true), ("ollama", "llama3.2:3b"));
    assert_eq!(route_by_complexity(2, 20, false, false), ("gemini", ""));
}
