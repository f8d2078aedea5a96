use inference_bridge::model_load::{benchmark_crash_error, benchmark_crash_tail};

#[test]
fn crash_tail_keeps_the_last_eighty_lines() {
    let stderr: Vec<String> = (0..100).map(|i| format!("line {i}")).collect();
    let text = benchmark_crash_tail(&stderr, Some("exit code: 1"), Some("/logs/crash.txt"));
    let expected_tail = (20..100).map(|i| format!("line {i}")).collect::<Vec<_>>().join("\n");
    assert_eq!(text, format!("Exit: exit code: 1. Crash report: /logs/crash.txt\n{expected_tail}"));
}

#[test]
fn crash_tail_without_output() {
    assert_eq!(
        benchmark_crash_tail(&vec!["  ".to_string()], None, None),
        "Exit: unknown. Crash report: not written\nNo llama-server stderr was captured."
    );
    assert_eq!(
        benchmark_crash_error("details"),
        "llama-server crashed during benchmark.\ndetails"
    );
}
