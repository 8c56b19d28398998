use kiacha_kernel::analyzer::{ThreatAnalyzer, ThreatLevel};
use kiacha_kernel::tokenizer::SimpleTokenizer;
use kiacha_kernel::{app_name, version};
use kiacha_kernel::resources::snapshot_from;
use kiacha_kernel::wasm_runtime::render_run_result;

#[test]
fn tokenizer_splits_and_folds() {
    let t = SimpleTokenizer::new();
    assert_eq!(
        t.tokenize("Hello, how are you?"),
        vec!["hello,".to_string(), "how".to_string(), "are".to_string(), "you?".to_string()]
    );
    assert_eq!(t.tokenize(""), Vec::<String>::new());
    assert_eq!(t.tokenize("   "), Vec::<String>::new());
    assert_eq!(t.tokenize("  ONE\ttwo\nThree  "), vec![
        "one".to_string(),
        "two".to_string(),
        "three".to_string()
    ]);
}

#[test]
fn analyzer_grades_behaviour() {
    assert_eq!(
        ThreatAnalyzer::analyze_behavior("p", "spawns a worm in memory"),
        ThreatLevel::Critical
    );
    assert_eq!(
        ThreatAnalyzer::analyze_behavior("p", "tries to inject code"),
        ThreatLevel::High
    );
    assert_eq!(ThreatAnalyzer::analyze_behavior("p", "reads its own config"), ThreatLevel::Low);
    // Grading is case-insensitive: matching happens on folded text.
    assert_eq!(ThreatAnalyzer::analyze_behavior("p", "WORM detected"), ThreatLevel::Critical);
    assert_eq!(ThreatAnalyzer::analyze_behavior("p", "KeyLogger shim"), ThreatLevel::High);
}

#[test]
fn risk_score_is_scaled_and_capped() {
    assert_eq!(ThreatAnalyzer::calculate_risk_score(&ThreatLevel::Critical, 2, 3), 6);
    assert_eq!(ThreatAnalyzer::calculate_risk_score(&ThreatLevel::High, 4, 1), 3);
    assert_eq!(ThreatAnalyzer::calculate_risk_score(&ThreatLevel::Medium, 1, 1), 0);
    assert_eq!(ThreatAnalyzer::calculate_risk_score(&ThreatLevel::Info, 1000, 1000), 0);
    assert_eq!(ThreatAnalyzer::calculate_risk_score(&ThreatLevel::Critical, 10, 100), 100);
}

#[test]
fn library_identity() {
    assert_eq!(version(), "0.1.0");
    assert_eq!(app_name(), "kiacha_kernel");
}

#[test]
fn snapshot_percentage_formula() {
    let s = snapshot_from(50, 1000, 250);
    assert_eq!(s.cpu_usage_pct, 50);
    assert_eq!(s.memory_total_bytes, 1000);
    assert_eq!(s.memory_used_bytes, 250);
    assert_eq!(s.memory_used_pct, 25);
    assert_eq!(snapshot_from(0, 0, 5).memory_used_pct, 0);
    assert_eq!(snapshot_from(0, 3, 1).memory_used_pct, 33);
    assert_eq!(snapshot_from(0, 10, 20).memory_used_pct, 100);
}

#[test]
fn sandbox_result_rendering() {
    assert_eq!(render_run_result(7), "WASM result: 7");
    assert_eq!(render_run_result(0), "WASM result: 0");
    assert_eq!(render_run_result(-12), "WASM result: -12");
    assert_eq!(render_run_result(i32::MIN), "WASM result: -2147483648");
    assert_eq!(render_run_result(i32::MAX), "WASM result: 2147483647");
}
