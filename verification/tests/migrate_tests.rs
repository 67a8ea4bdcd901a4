use doclayer::error::DocumentStoreError;
use doclayer::error::DocumentStoreResult;
use doclayer::migrate::MigrateOp;
use doclayer::migrate::Migration;
use doclayer::migrate::MigrationDirection;
use doclayer::migrate::MigrationRunner;
use doclayer::migrate::RevisionGraph;
use doclayer::query::Query;
use doclayer::store::InMemoryStore;
use doclayer::value::Value;

struct Step {
    name: &'static str,
    prev: Option<&'static str>,
}

fn log_marker(op: &mut MigrateOp, marker: String) -> DocumentStoreResult<()> {
    let n = op.query("log", &Query::new())?.len() as u128;
    op.insert("log", vec![(n + 1, Value::Text(marker))])
}

fn log_entries(store: &InMemoryStore) -> Vec<String> {
    store
        .query_documents(&Query::new(), "log")
        .unwrap()
        .into_iter()
        .map(|v| match v {
            Value::Text(s) => s,
            _ => panic!("log entries are strings"),
        })
        .collect()
}

impl Migration for Step {
    fn id(&self) -> String {
        self.name.to_string()
    }

    fn previous_id(&self) -> Option<String> {
        self.prev.map(|p| p.to_string())
    }

    fn up(&self, op: &mut MigrateOp) -> DocumentStoreResult<()> {
        log_marker(op, format!("{}-up", self.name))
    }

    fn down(&self, op: &mut MigrateOp) -> DocumentStoreResult<()> {
        log_marker(op, format!("{}-down", self.name))
    }
}

fn three_steps() -> Vec<Step> {
    vec![
        Step { name: "A", prev: None },
        Step { name: "B", prev: Some("A") },
        Step { name: "C", prev: Some("B") },
    ]
}

fn step_links() -> Vec<(String, Option<String>)> {
    three_steps()
        .iter()
        .map(|s| (s.name.to_string(), s.prev.map(|p| p.to_string())))
        .collect()
}

#[test]
fn upgrade_applies_up_in_order_and_persists_the_target() {
    let runner = MigrationRunner::new(three_steps());
    let mut store = InMemoryStore::new();
    runner.upgrade_to(&mut store, "C").unwrap();
    assert_eq!(store.current_revision_id(), Some("C".to_string()));
    assert_eq!(
        log_entries(&store),
        vec!["A-up".to_string(), "B-up".to_string(), "C-up".to_string()]
    );
}

#[test]
fn downgrade_applies_down_in_order_and_persists_the_target() {
    let runner = MigrationRunner::new(three_steps());
    let mut store = InMemoryStore::new();
    runner.upgrade_to(&mut store, "C").unwrap();
    runner.downgrade_to(&mut store, "A").unwrap();
    assert_eq!(store.current_revision_id(), Some("A".to_string()));
    assert_eq!(
        log_entries(&store)[3..],
        [
            "C-down".to_string(),
            "B-down".to_string(),
            "A-down".to_string()
        ]
    );
}

#[test]
fn upgrade_without_a_revision_starts_at_the_tail() {
    let runner = MigrationRunner::new(three_steps());
    let mut store = InMemoryStore::new();
    runner.upgrade(&mut store).unwrap();
    assert_eq!(store.current_revision_id(), Some("C".to_string()));
}

#[test]
fn unreachable_target_fails_with_a_migration_error() {
    let runner = MigrationRunner::new(three_steps());
    let mut store = InMemoryStore::new();
    let err = runner.upgrade_to(&mut store, "Z").unwrap_err();
    // the detail names both endpoints: the effective start and the target
    assert!(matches!(err, DocumentStoreError::Migration(ref d) if d == "no path from A to Z"));
    // a downgrade cannot move forward along the chain
    store.set_revision_id("A").unwrap();
    let err = runner.downgrade_to(&mut store, "C").unwrap_err();
    assert!(matches!(err, DocumentStoreError::Migration(ref d) if d == "no path from A to C"));
}

#[test]
fn revision_graph_resolves_forward_and_backward_paths() {
    let graph = RevisionGraph::new(&step_links());
    assert_eq!(
        graph.find_up_path("A", "C"),
        Some(vec!["A".to_string(), "B".to_string(), "C".to_string()])
    );
    assert_eq!(
        graph.find_down_path("C", "A"),
        Some(vec!["C".to_string(), "B".to_string(), "A".to_string()])
    );
    assert_eq!(graph.find_up_path("C", "A"), None);
    assert_eq!(graph.find_down_path("A", "C"), None);
    assert_eq!(graph.find_up_path("B", "B"), Some(vec!["B".to_string()]));
    assert_eq!(
        graph.find_path("A", "B", &MigrationDirection::Up),
        Some(vec!["A".to_string(), "B".to_string()])
    );
}

#[test]
fn graph_paths_follow_branches() {
    let links = vec![
        ("A".to_string(), None),
        ("B1".to_string(), Some("A".to_string())),
        ("B2".to_string(), Some("A".to_string())),
        ("C".to_string(), Some("B2".to_string())),
    ];
    let graph = RevisionGraph::new(&links);
    assert_eq!(
        graph.find_up_path("A", "C"),
        Some(vec!["A".to_string(), "B2".to_string(), "C".to_string()])
    );
    assert_eq!(graph.find_up_path("B1", "C"), None);
}

#[test]
fn failing_step_aborts_and_keeps_the_last_completed_revision() {
    struct Failing {
        name: &'static str,
        prev: Option<&'static str>,
        fail_up: bool,
    }
    impl Migration for Failing {
        fn id(&self) -> String {
            self.name.to_string()
        }

        fn previous_id(&self) -> Option<String> {
            self.prev.map(|p| p.to_string())
        }

        fn up(&self, op: &mut MigrateOp) -> DocumentStoreResult<()> {
            if self.fail_up {
                Err(DocumentStoreError::Backend("step failed".to_string()))
            } else {
                log_marker(op, format!("{}-up", self.name))
            }
        }

        fn down(&self, _op: &mut MigrateOp) -> DocumentStoreResult<()> {
            Ok(())
        }
    }
    let runner = MigrationRunner::new(vec![
        Failing { name: "A", prev: None, fail_up: false },
        Failing { name: "B", prev: Some("A"), fail_up: true },
        Failing { name: "C", prev: Some("B"), fail_up: false },
    ]);
    let mut store = InMemoryStore::new();
    let err = runner.upgrade_to(&mut store, "C").unwrap_err();
    assert!(matches!(err, DocumentStoreError::Backend(_)));
    // the walk stopped at the failing step: the first step completed and was
    // persisted, the later ones never ran
    assert_eq!(store.current_revision_id(), Some("A".to_string()));
    assert_eq!(log_entries(&store), vec!["A-up".to_string()]);
}
