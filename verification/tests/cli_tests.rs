use bench_rust::cli::{plan_invocation, report_prefix, usage_line, Invocation};

fn args_of(tokens: &[&str]) -> Vec<Vec<u8>> {
    tokens.iter().map(|t| t.as_bytes().to_vec()).collect()
}

#[test]
fn well_formed_invocation_runs() {
    let plan = plan_invocation(&args_of(&["bench-rust", "--timeout", "7", "--mp", "2"]));
    match plan {
        Invocation::Run { timeout_secs, workers } => {
            assert_eq!(timeout_secs, 7);
            assert_eq!(workers, 2);
        }
        _ => panic!("expected a run"),
    }
}

#[test]
fn flag_tokens_are_positional_only() {
    // Any tokens in the flag positions are accepted; only count and the
    // numeric positions matter.
    let plan = plan_invocation(&args_of(&["bench-rust", "x", "0", "y", "1"]));
    match plan {
        Invocation::Run { timeout_secs, workers } => {
            assert_eq!(timeout_secs, 0);
            assert_eq!(workers, 1);
        }
        _ => panic!("expected a run"),
    }
}

#[test]
fn wrong_argument_count_prints_usage() {
    assert!(matches!(
        plan_invocation(&args_of(&["bench-rust", "--timeout"])),
        Invocation::Usage
    ));
    assert!(matches!(plan_invocation(&args_of(&["bench-rust"])), Invocation::Usage));
    assert!(matches!(
        plan_invocation(&args_of(&["bench-rust", "--timeout", "7", "--mp", "2", "extra"])),
        Invocation::Usage
    ));
}

#[test]
fn help_flag_prints_usage() {
    assert!(matches!(
        plan_invocation(&args_of(&["bench-rust", "--help", "7", "--mp", "2"])),
        Invocation::Usage
    ));
}

#[test]
fn usage_line_is_exact() {
    assert_eq!(usage_line(), "usage: bench-rust --timeout <sec> --mp <n-cores>");
}

#[test]
fn report_prefix_is_exact() {
    assert_eq!(report_prefix(), "-- Operations performed: ");
}

#[test]
fn non_numeric_timeout_is_malformed() {
    assert!(matches!(
        plan_invocation(&args_of(&["bench-rust", "--timeout", "abc", "--mp", "2"])),
        Invocation::Malformed
    ));
}

#[test]
fn non_numeric_worker_count_is_malformed() {
    assert!(matches!(
        plan_invocation(&args_of(&["bench-rust", "--timeout", "5", "--mp", "x"])),
        Invocation::Malformed
    ));
}

#[test]
fn oversized_timeout_is_malformed() {
    assert!(matches!(
        plan_invocation(&args_of(&["bench-rust", "--timeout", "18446744073709551616", "--mp", "2"])),
        Invocation::Malformed
    ));
}
