use aceman::migration::{ledger_versions, parse_version, MigrationDescriptor, MigrationError, MigrationRegistry};
use aceman::runner::{Direction, MigrationRunner, RunState, StepOutcome};

const A: u64 = 1602334616;
const B: u64 = 1602335590;
const C: u64 = 1602336010;

fn desc(version: u64, table: &str) -> MigrationDescriptor {
    MigrationDescriptor {
        version,
        name: format!("{}_create_{}", version, table),
        forward_sql: format!("CREATE TABLE {} ();", table),
        backward_sql: format!("DROP TABLE {};", table),
    }
}

fn registry() -> MigrationRegistry {
    MigrationRegistry::new(vec![desc(A, "operators"), desc(B, "operator_emails"), desc(C, "operator_logs")])
        .unwrap()
}

/// Drives a run against a simulated database: `ledger` holds the applied
/// versions and `tables` the schema. The step for `fail_at` fails before it
/// commits. Returns the versions executed, in order.
fn drive(
    mut run: MigrationRunner,
    ledger: &mut Vec<u64>,
    tables: &mut Vec<String>,
    fail_at: Option<u64>,
) -> (Vec<u64>, Result<Option<u64>, MigrationError>) {
    let mut executed = Vec::new();
    while let Some(step) = run.next_step() {
        let d = step.descriptor;
        executed.push(d.version);
        if Some(d.version) == fail_at {
            run.record(StepOutcome::Failed { cause: "syntax error".to_string() });
            continue;
        }
        let table = d.name.splitn(3, '_').nth(2).unwrap().to_string();
        match step.direction {
            Direction::Up => {
                tables.push(table);
                ledger.push(d.version);
            }
            Direction::Down => {
                tables.retain(|t| *t != table);
                ledger.retain(|v| *v != d.version);
            }
        }
        run.record(StepOutcome::Committed);
    }
    (executed, run.finish())
}

#[test]
fn registry_rejects_duplicate_versions() {
    let r = MigrationRegistry::new(vec![desc(A, "a"), desc(B, "b"), desc(A, "c")]);
    assert!(matches!(r, Err(MigrationError::DuplicateVersion { version }) if version == A));
}

#[test]
fn registry_rejects_unsorted_descriptors() {
    let r = MigrationRegistry::new(vec![desc(B, "b"), desc(A, "a")]);
    assert!(matches!(r, Err(MigrationError::OutOfOrder { version }) if version == A));
}

#[test]
fn registry_accepts_empty_and_sorted() {
    assert_eq!(MigrationRegistry::new(vec![]).unwrap().len(), 0);
    assert_eq!(registry().len(), 3);
}

#[test]
fn resolve_finds_positions_and_rejects_unknown() {
    let reg = registry();
    assert_eq!(reg.resolve(B).unwrap(), 1);
    assert!(matches!(reg.resolve(42), Err(MigrationError::UnknownVersion { version: 42 })));
}

#[test]
fn descriptors_between_is_half_open() {
    let reg = registry();
    let between: Vec<u64> = reg.descriptors_between(Some(A), Some(C)).iter().map(|d| d.version).collect();
    assert_eq!(between, vec![B, C]);
    let all: Vec<u64> = reg.descriptors_between(None, None).iter().map(|d| d.version).collect();
    assert_eq!(all, vec![A, B, C]);
    assert!(reg.descriptors_between(Some(C), None).is_empty());
    let below: Vec<u64> = reg.descriptors_between(None, Some(B)).iter().map(|d| d.version).collect();
    assert_eq!(below, vec![A, B]);
}

#[test]
fn current_version_reads_the_ledger() {
    let reg = registry();
    assert_eq!(reg.current_version(&vec![]).unwrap(), None);
    assert_eq!(reg.current_version(&vec![B, A]).unwrap(), Some(B));
    assert_eq!(reg.current_version(&vec![A, B, C]).unwrap(), Some(C));
}

#[test]
fn ledger_with_gap_or_unknown_version_is_a_violation() {
    let reg = registry();
    assert!(matches!(
        reg.current_version(&vec![A, C]),
        Err(MigrationError::LedgerInvariantViolation { .. })
    ));
    assert!(matches!(
        reg.current_version(&vec![A, 7]),
        Err(MigrationError::LedgerInvariantViolation { version: 7 })
    ));
    assert!(matches!(
        MigrationRunner::start_up(&reg, &vec![B], None),
        Err(MigrationError::LedgerInvariantViolation { .. })
    ));
}

#[test]
fn up_from_a_to_c_applies_b_then_c() {
    let reg = registry();
    let mut ledger = vec![A];
    let mut tables = vec!["operators".to_string()];
    let run = MigrationRunner::start_up(&reg, &ledger, Some(C)).unwrap();
    let (executed, result) = drive(run, &mut ledger, &mut tables, None);
    assert_eq!(executed, vec![B, C]);
    assert_eq!(result.unwrap(), Some(C));
    assert_eq!(ledger, vec![A, B, C]);
}

#[test]
fn up_to_current_version_is_a_no_op() {
    let reg = registry();
    let ledger = vec![A, B];
    assert!(matches!(
        MigrationRunner::start_up(&reg, &ledger, Some(B)),
        Err(MigrationError::NoMigrationsToRun)
    ));
    assert!(matches!(
        MigrationRunner::start_up(&reg, &ledger, Some(A)),
        Err(MigrationError::NoMigrationsToRun)
    ));
    assert!(matches!(
        MigrationRunner::start_up(&reg, &vec![A, B, C], None),
        Err(MigrationError::NoMigrationsToRun)
    ));
    assert_eq!(ledger, vec![A, B]);
}

#[test]
fn up_to_v_leaves_exactly_the_versions_up_to_v() {
    let reg = registry();
    let mut ledger = vec![];
    let mut tables = vec![];
    let run = MigrationRunner::start_up(&reg, &ledger, Some(B)).unwrap();
    let (executed, result) = drive(run, &mut ledger, &mut tables, None);
    assert_eq!(executed, vec![A, B]);
    assert_eq!(result.unwrap(), Some(B));
    assert_eq!(ledger, vec![A, B]);
    assert_eq!(reg.current_version(&ledger).unwrap(), Some(B));
}

#[test]
fn unknown_targets_fail_and_leave_the_ledger_alone() {
    let reg = registry();
    let ledger = vec![A];
    assert!(matches!(
        MigrationRunner::start_up(&reg, &ledger, Some(99)),
        Err(MigrationError::UnknownVersion { version: 99 })
    ));
    assert!(matches!(
        MigrationRunner::start_down(&reg, &ledger, Some(99)),
        Err(MigrationError::UnknownVersion { version: 99 })
    ));
    assert_eq!(ledger, vec![A]);
}

#[test]
fn failure_of_b_halts_before_c() {
    let reg = registry();
    let mut ledger = vec![A];
    let mut tables = vec!["operators".to_string()];
    let run = MigrationRunner::start_up(&reg, &ledger, Some(C)).unwrap();
    let (executed, result) = drive(run, &mut ledger, &mut tables, Some(B));
    assert_eq!(executed, vec![B]);
    assert!(matches!(
        result,
        Err(MigrationError::StepExecutionFailure { version, ref cause }) if version == B && cause == "syntax error"
    ));
    assert_eq!(ledger, vec![A]);
    assert_eq!(tables, vec!["operators".to_string()]);
}

#[test]
fn failure_of_c_after_b_committed_keeps_b() {
    let reg = registry();
    let mut ledger = vec![A];
    let mut tables = vec!["operators".to_string()];
    let run = MigrationRunner::start_up(&reg, &ledger, Some(C)).unwrap();
    let (executed, result) = drive(run, &mut ledger, &mut tables, Some(C));
    assert_eq!(executed, vec![B, C]);
    assert!(matches!(result, Err(MigrationError::StepExecutionFailure { version, .. }) if version == C));
    assert_eq!(ledger, vec![A, B]);
}

#[test]
fn connection_loss_is_reported_distinctly() {
    let reg = registry();
    let mut run = MigrationRunner::start_up(&reg, &vec![], None).unwrap();
    let step = run.next_step().unwrap();
    assert_eq!(step.descriptor.version, A);
    run.record(StepOutcome::ConnectionLost { cause: "reset".to_string() });
    assert!(run.next_step().is_none());
    assert_eq!(run.current_version(), None);
    assert!(matches!(run.finish(), Err(MigrationError::ConnectionFailure { version, .. }) if version == A));
}

#[test]
fn up_then_down_to_the_start_round_trips() {
    let reg = registry();
    let mut ledger = vec![];
    let mut tables: Vec<String> = vec![];
    let run = MigrationRunner::start_up(&reg, &ledger, None).unwrap();
    let (up, result) = drive(run, &mut ledger, &mut tables, None);
    assert_eq!(up, vec![A, B, C]);
    assert_eq!(result.unwrap(), Some(C));
    assert_eq!(tables.len(), 3);
    let run = MigrationRunner::start_down(&reg, &ledger, None).unwrap();
    assert_eq!(run.direction(), Direction::Down);
    let (down, result) = drive(run, &mut ledger, &mut tables, None);
    assert_eq!(down, vec![C, B, A]);
    assert_eq!(result.unwrap(), None);
    assert!(ledger.is_empty());
    assert!(tables.is_empty());
}

#[test]
fn down_to_a_version_reverts_the_later_ones_newest_first() {
    let reg = registry();
    let mut ledger = vec![A, B, C];
    let mut tables = vec![];
    let run = MigrationRunner::start_down(&reg, &ledger, Some(A)).unwrap();
    let (down, result) = drive(run, &mut ledger, &mut tables, None);
    assert_eq!(down, vec![C, B]);
    assert_eq!(result.unwrap(), Some(A));
    assert_eq!(ledger, vec![A]);
    assert!(matches!(
        MigrationRunner::start_down(&reg, &ledger, Some(B)),
        Err(MigrationError::NoMigrationsToRun)
    ));
    assert!(matches!(
        MigrationRunner::start_down(&reg, &vec![], None),
        Err(MigrationError::NoMigrationsToRun)
    ));
}

#[test]
fn finished_run_reports_done_state() {
    let reg = registry();
    let mut run = MigrationRunner::start_up(&reg, &vec![A, B], None).unwrap();
    assert_eq!(run.next_step().unwrap().descriptor.version, C);
    run.record(StepOutcome::Committed);
    assert_eq!(run.current_version(), Some(C));
    assert!(run.next_step().is_none());
    assert_eq!(run.finish().unwrap(), Some(C));
    let _ = RunState::Done;
}

#[test]
fn version_texts_are_parsed() {
    assert_eq!(parse_version("1602334616"), Some(1602334616));
    assert_eq!(parse_version("1602334616_create_operators"), Some(1602334616));
    assert_eq!(parse_version("007_x"), Some(7));
    assert_eq!(parse_version("18446744073709551615"), Some(u64::MAX));
    assert_eq!(parse_version("18446744073709551616"), None);
    assert_eq!(parse_version(""), None);
    assert_eq!(parse_version("_1"), None);
    assert_eq!(parse_version("12a"), None);
    assert_eq!(parse_version("v12"), None);
}

#[test]
fn descriptors_and_ledger_rows_take_versions_from_names() {
    let d = MigrationDescriptor::from_name(
        "1602335590_create_operator_emails".to_string(),
        "CREATE".to_string(),
        "DROP".to_string(),
    )
    .unwrap();
    assert_eq!(d.version, B);
    assert!(matches!(
        MigrationDescriptor::from_name("create".to_string(), String::new(), String::new()),
        Err(MigrationError::MalformedVersion)
    ));
    let rows = vec!["1602334616_create_operators".to_string(), "1602335590".to_string()];
    assert_eq!(ledger_versions(&rows).unwrap(), vec![A, B]);
    assert!(matches!(
        ledger_versions(&vec!["x".to_string()]),
        Err(MigrationError::MalformedVersion)
    ));
}
