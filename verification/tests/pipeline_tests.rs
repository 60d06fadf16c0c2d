use backend::pipeline::{
    after_rewrites, check_termination, flag_value, hook_step, print_help, timeout, update_best, wants_help, AfterRewrites, AsmCandidate, Finish, Progress, StopKind,
};

fn args_of(xs: &[&str]) -> Vec<String> {
    xs.iter().map(|s| s.to_string()).collect()
}

#[test]
fn help_is_printed_without_input_or_output() {
    assert!(wants_help(&args_of(&["act", "--input", "a.hlo"])));
    assert!(wants_help(&args_of(&["act", "--output", "a.py"])));
    assert!(wants_help(&args_of(&["act", "--input", "a.hlo", "--output", "a.py", "--help"])));
    assert!(!wants_help(&args_of(&["act", "--input", "a.hlo", "--output", "a.py"])));
}

#[test]
fn flag_values_follow_their_flag() {
    let args = args_of(&["act", "--input", "a.hlo", "--output", "a.py", "--log"]);
    assert_eq!(flag_value(&args, "--input"), Some(Some("a.hlo".to_string())));
    assert_eq!(flag_value(&args, "--output"), Some(Some("a.py".to_string())));
    assert_eq!(flag_value(&args, "--log"), Some(None));
    assert_eq!(flag_value(&args, "--missing"), None);
    let twice = args_of(&["act", "--input", "first", "--input", "second"]);
    assert_eq!(flag_value(&twice, "--input"), Some(Some("first".to_string())));
}

#[test]
fn usage_names_the_program() {
    let h = print_help("cargo");
    assert!(h.starts_with("Usage: cargo run -- --input <hlo_path> --output <asm_path> [--log <log_dir>]\n\nDescription:\n"));
    let h2 = print_help("./backend");
    assert!(h2.starts_with("Usage: ./backend --input <hlo_path> --output <asm_path> [--log <log_dir>]\n"));
    assert!(h2.ends_with("               (optional, defaults to /tmp/log if not provided)\n\n"));
    assert_eq!(h2.lines().count(), 16);
}

#[test]
fn search_stops_after_saturation() {
    let best = Some(AsmCandidate { path: "/tmp/log/0.py".to_string(), cost: 40, timestamp_ns: 100 });
    assert_eq!(check_termination(&None, 5, 3, 1000), Progress::Continue(1000));
    assert_eq!(check_termination(&best, 250, 3, 1000), Progress::Continue(300));
    assert_eq!(check_termination(&best, 300, 3, 1000), Progress::Continue(300));
    assert_eq!(check_termination(&best, 301, 3, 1000), Progress::Stop);
    assert_eq!(check_termination(&best, 250, 30, 1000), Progress::Continue(1000));
    for later in [302u128, 999, 5000] {
        assert_eq!(check_termination(&best, later, 3, 1000), Progress::Stop);
    }
}

#[test]
fn timeout_keeps_the_best_kernel() {
    let best = Some(AsmCandidate { path: "/tmp/log/3.py".to_string(), cost: 7, timestamp_ns: 10 });
    assert_eq!(timeout(&best, 11, 10), Finish::CopyBest("/tmp/log/3.py".to_string()));
    assert_eq!(timeout(&None, 11, 10), Finish::NoResult);
    assert_eq!(timeout(&best, 10, 10), Finish::TooEarly);
}

#[test]
fn best_kernel_is_the_cheapest_seen_first() {
    let mut best: Option<AsmCandidate> = None;
    assert!(update_best(&mut best, "a".to_string(), 50, 1));
    assert!(!update_best(&mut best, "b".to_string(), 50, 2));
    assert!(update_best(&mut best, "c".to_string(), 20, 3));
    assert!(!update_best(&mut best, "d".to_string(), 30, 4));
    let b = best.unwrap();
    assert_eq!((b.path.as_str(), b.cost, b.timestamp_ns), ("c", 20, 3));
}

#[test]
fn the_hook_extracts_every_few_iterations() {
    assert_eq!(hook_step(0, 3, 5), None);
    assert_eq!(hook_step(1, 3, 5), None);
    assert_eq!(hook_step(3, 3, 5), Some((5, 6)));
    assert_eq!(hook_step(6, 3, 6), Some((6, 7)));
    assert_eq!(hook_step(7, 3, 7), None);
    assert_eq!(hook_step(1, 1, 0), Some((0, 1)));
}

#[test]
fn each_stop_of_the_runner_has_its_reaction() {
    assert_eq!(after_rewrites(StopKind::TimeLimit), AfterRewrites::Finish);
    assert_eq!(after_rewrites(StopKind::NodeLimit), AfterRewrites::ExtractUntilTimeLimit);
    assert_eq!(after_rewrites(StopKind::Saturated), AfterRewrites::ExtractUntilTimeLimit);
    assert_eq!(after_rewrites(StopKind::IterationLimit), AfterRewrites::Fail);
    assert_eq!(after_rewrites(StopKind::Other), AfterRewrites::Fail);
}
