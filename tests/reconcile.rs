use beeline::{reconcile, schedule, Datapoint, EditableDatapoint, Number, Operation};

const T1: i64 = 1_600_000_000;
const T2: i64 = 1_600_086_400;

fn number(v: f64) -> Number {
    Number { bits: v.to_bits(), text: v.to_string() }
}

fn point(id: &str, t: i64, v: f64, comment: Option<&str>) -> Datapoint {
    Datapoint {
        id: id.to_string(),
        timestamp: t,
        value: number(v),
        comment: comment.map(|c| c.to_string()),
    }
}

fn row(id: Option<&str>, t: i64, v: f64, comment: &str) -> EditableDatapoint {
    EditableDatapoint {
        id: id.map(|s| s.to_string()),
        timestamp: Some(t),
        value: Some(number(v)),
        comment: Some(comment.to_string()),
    }
}

fn before() -> Vec<Datapoint> {
    vec![point("a", T1, 1.0, Some("first")), point("b", T2, 2.0, None)]
}

fn unchanged() -> Vec<EditableDatapoint> {
    vec![row(Some("a"), T1, 1.0, "first"), row(Some("b"), T2, 2.0, "")]
}

#[test]
fn unchanged_table_asks_for_nothing() {
    let plan = reconcile(&before(), &unchanged());
    assert!(plan.operations.is_empty());
    assert!(plan.orphans.is_empty());
}

#[test]
fn rows_from_datapoints_ask_for_nothing() {
    let b = before();
    let after: Vec<EditableDatapoint> = b.iter().map(EditableDatapoint::from).collect();
    let plan = reconcile(&b, &after);
    assert!(plan.operations.is_empty());
    assert!(plan.orphans.is_empty());
}

#[test]
fn changed_value_gives_one_update() {
    let mut after = unchanged();
    after[0] = row(Some("a"), T1, 5.0, "first");
    let plan = reconcile(&before(), &after);
    assert_eq!(plan.operations.len(), 1);
    match &plan.operations[0] {
        Operation::Update { id, timestamp, value, comment } => {
            assert_eq!(id, "a");
            assert_eq!(*timestamp, Some(T1));
            assert_eq!(value.as_ref().map(|n| n.bits), Some(5.0f64.to_bits()));
            assert_eq!(comment.as_deref(), Some("first"));
        }
        _ => panic!("expected an update"),
    }
    assert!(plan.orphans.is_empty());
}

#[test]
fn changed_timestamp_and_comment_give_updates() {
    let after = vec![row(Some("a"), T1 + 1, 1.0, "first"), row(Some("b"), T2, 2.0, "note")];
    let plan = reconcile(&before(), &after);
    assert_eq!(plan.operations.len(), 2);
    assert!(matches!(&plan.operations[0], Operation::Update { id, .. } if id == "a"));
    assert!(matches!(&plan.operations[1], Operation::Update { id, .. } if id == "b"));
}

#[test]
fn negative_zero_equals_zero() {
    let b = vec![point("a", T1, 0.0, None)];
    let after = vec![row(Some("a"), T1, -0.0, "")];
    assert!(reconcile(&b, &after).operations.is_empty());
}

#[test]
fn omitted_row_is_deleted() {
    let after = vec![row(Some("a"), T1, 1.0, "first")];
    let plan = reconcile(&before(), &after);
    assert_eq!(plan.operations.len(), 1);
    assert!(matches!(&plan.operations[0], Operation::Delete { id } if id == "b"));
}

#[test]
fn empty_table_deletes_everything() {
    let plan = reconcile(&before(), &Vec::new());
    assert_eq!(plan.operations.len(), 2);
    assert!(matches!(&plan.operations[0], Operation::Delete { id } if id == "a"));
    assert!(matches!(&plan.operations[1], Operation::Delete { id } if id == "b"));
}

#[test]
fn row_without_id_is_created() {
    let mut after = unchanged();
    after.push(row(None, T2 + 60, 3.5, "new"));
    let plan = reconcile(&before(), &after);
    assert_eq!(plan.operations.len(), 1);
    match &plan.operations[0] {
        Operation::Create { timestamp, value, comment } => {
            assert_eq!(*timestamp, Some(T2 + 60));
            assert_eq!(value.bits, 3.5f64.to_bits());
            assert_eq!(comment.as_deref(), Some("new"));
        }
        _ => panic!("expected a creation"),
    }
}

#[test]
fn row_without_value_is_created_as_zero() {
    let after = vec![EditableDatapoint { id: None, timestamp: None, value: None, comment: None }];
    let plan = reconcile(&Vec::new(), &after);
    match &plan.operations[0] {
        Operation::Create { value, .. } => {
            assert_eq!(value.bits, 0);
            assert_eq!(value.text, "0");
        }
        _ => panic!("expected a creation"),
    }
}

#[test]
fn unknown_id_is_an_orphan() {
    let mut after = unchanged();
    after.push(row(Some("z"), T1, 9.0, "stray"));
    let plan = reconcile(&before(), &after);
    assert_eq!(plan.orphans, vec!["z".to_string()]);
    assert!(plan.operations.is_empty());
}

#[test]
fn duplicate_rows_are_each_compared() {
    let after = vec![
        row(Some("a"), T1, 7.0, "first"),
        row(Some("a"), T1, 8.0, "first"),
        row(Some("b"), T2, 2.0, ""),
    ];
    let plan = reconcile(&before(), &after);
    assert_eq!(plan.operations.len(), 2);
    assert!(plan.operations.iter().all(|o| matches!(o, Operation::Update { id, .. } if id == "a")));
}

#[test]
fn schedule_sends_deletions_last() {
    let ops = vec![
        Operation::Delete { id: "x".to_string() },
        Operation::Create { timestamp: Some(T1), value: number(1.0), comment: None },
        Operation::Delete { id: "y".to_string() },
        Operation::Update { id: "a".to_string(), timestamp: None, value: None, comment: None },
    ];
    let order = schedule(&ops);
    assert_eq!(order.len(), 4);
    assert!(matches!(&order[0], Operation::Create { .. }));
    assert!(matches!(&order[1], Operation::Update { id, .. } if id == "a"));
    assert!(matches!(&order[2], Operation::Delete { id } if id == "x"));
    assert!(matches!(&order[3], Operation::Delete { id } if id == "y"));
}
