use dozer::aggregation::{AggregateKind, AggregationOperator};
use dozer::errors::AggregationError;
use dozer::fields::{DateField, DecimalField, Field};
use dozer::records::{fields_eq, Operation, Record};

fn rec(values: Vec<Field>) -> Record {
    Record::new(None, values)
}

fn max_processor() -> AggregationOperator {
    // rows: [id, group, measure, aggregate]
    AggregationOperator::new(AggregateKind::Max, vec![1], 2, 4)
}

fn row(group: &str, measure: Field) -> Vec<Field> {
    vec![
        Field::Int(0),
        Field::String(group.to_string()),
        measure.clone(),
        measure,
    ]
}

fn out_row(group: &str, value: Field) -> Vec<Field> {
    vec![Field::String(group.to_string()), value]
}

fn assert_insert(op: &Operation, values: Vec<Field>) {
    match op {
        Operation::Insert { new } => assert!(fields_eq(&new.values, &values)),
        _ => panic!("expected an insert delta"),
    }
}

fn assert_update(op: &Operation, old_values: Vec<Field>, new_values: Vec<Field>) {
    match op {
        Operation::Update { old, new } => {
            assert!(fields_eq(&old.values, &old_values));
            assert!(fields_eq(&new.values, &new_values));
        }
        _ => panic!("expected an update delta"),
    }
}

fn assert_delete(op: &Operation, values: Vec<Field>) {
    match op {
        Operation::Delete { old } => assert!(fields_eq(&old.values, &values)),
        _ => panic!("expected a delete delta"),
    }
}

/// Drive the shared MAX scenario with a given measure constructor:
/// values 100, 50 and 200 across the Italy and Singapore groups.
fn run_max_scenario(mk: &dyn Fn(i64) -> Field) {
    let mut p = max_processor();

    // Insert 100 for segment Italy -> MAX = 100
    let out = p
        .aggregate(&Operation::Insert {
            new: rec(row("Italy", mk(100))),
        })
        .unwrap_or_else(|_e| panic!("Error executing aggregate"));
    assert_eq!(out.len(), 1);
    assert_insert(&out[0], out_row("Italy", mk(100)));

    // Insert another 100 for Italy -> MAX stays 100, update still emitted
    let out = p
        .aggregate(&Operation::Insert {
            new: rec(row("Italy", mk(100))),
        })
        .unwrap_or_else(|_e| panic!("Error executing aggregate"));
    assert_eq!(out.len(), 1);
    assert_update(&out[0], out_row("Italy", mk(100)), out_row("Italy", mk(100)));

    // Insert 50 for Singapore -> new group
    let out = p
        .aggregate(&Operation::Insert {
            new: rec(row("Singapore", mk(50))),
        })
        .unwrap_or_else(|_e| panic!("Error executing aggregate"));
    assert_eq!(out.len(), 1);
    assert_insert(&out[0], out_row("Singapore", mk(50)));

    // Move the 50-row from Singapore to Italy: the new group's delta
    // first, then the old group dies
    let out = p
        .aggregate(&Operation::Update {
            old: rec(row("Singapore", mk(50))),
            new: rec(row("Italy", mk(50))),
        })
        .unwrap_or_else(|_e| panic!("Error executing aggregate"));
    assert_eq!(out.len(), 2);
    assert_update(&out[0], out_row("Italy", mk(100)), out_row("Italy", mk(100)));
    assert_delete(&out[1], out_row("Singapore", mk(50)));

    // Raise one Italy row from 100 to 200
    let out = p
        .aggregate(&Operation::Update {
            old: rec(row("Italy", mk(100))),
            new: rec(row("Italy", mk(200))),
        })
        .unwrap_or_else(|_e| panic!("Error executing aggregate"));
    assert_eq!(out.len(), 1);
    assert_update(&out[0], out_row("Italy", mk(100)), out_row("Italy", mk(200)));

    // Delete the 200 row -> MAX falls back to 100
    let out = p
        .aggregate(&Operation::Delete {
            old: rec(row("Italy", mk(200))),
        })
        .unwrap_or_else(|_e| panic!("Error executing aggregate"));
    assert_eq!(out.len(), 1);
    assert_update(&out[0], out_row("Italy", mk(200)), out_row("Italy", mk(100)));

    // Delete the 50 row -> MAX stays 100
    let out = p
        .aggregate(&Operation::Delete {
            old: rec(row("Italy", mk(50))),
        })
        .unwrap_or_else(|_e| panic!("Error executing aggregate"));
    assert_eq!(out.len(), 1);
    assert_update(&out[0], out_row("Italy", mk(100)), out_row("Italy", mk(100)));

    // Delete the last row -> the group dies
    let out = p
        .aggregate(&Operation::Delete {
            old: rec(row("Italy", mk(100))),
        })
        .unwrap_or_else(|_e| panic!("Error executing aggregate"));
    assert_eq!(out.len(), 1);
    assert_delete(&out[0], out_row("Italy", mk(100)));
}

#[test]
fn test_max_aggregation_int() {
    run_max_scenario(&|v| Field::Int(v));
}

#[test]
fn test_max_aggregation_decimal() {
    run_max_scenario(&|v| Field::Decimal(DecimalField { num: v, scale: 0 }));
}

#[test]
fn test_max_aggregation_timestamp() {
    run_max_scenario(&|v| Field::Timestamp(v));
}

/// Order-preserving bit encoding of an IEEE double, as the library's
/// Float fields carry it.
fn float_bits(x: f64) -> u64 {
    let b = x.to_bits();
    if b & 0x8000_0000_0000_0000 != 0 {
        !b
    } else {
        b | 0x8000_0000_0000_0000
    }
}

#[test]
fn test_max_aggregation_float() {
    run_max_scenario(&|v| Field::Float(float_bits(v as f64)));
}

#[test]
fn test_max_aggregation_date() {
    // 2015-10-04, 2015-10-08 and 2015-10-16 stand in for 50, 100 and 200
    let date = |v: i64| {
        let day = match v {
            50 => 4,
            100 => 8,
            200 => 16,
            _ => panic!("unexpected scenario value"),
        };
        Field::Date(DateField {
            year: 2015,
            month: 10,
            day,
        })
    };
    run_max_scenario(&date);
}

#[test]
fn test_min_aggregation_int() {
    let mut p = AggregationOperator::new(AggregateKind::Min, vec![1], 2, 4);
    p.aggregate(&Operation::Insert {
        new: rec(row("Italy", Field::Int(100))),
    })
    .unwrap();
    let out = p
        .aggregate(&Operation::Insert {
            new: rec(row("Italy", Field::Int(50))),
        })
        .unwrap();
    assert_update(
        &out[0],
        out_row("Italy", Field::Int(100)),
        out_row("Italy", Field::Int(50)),
    );
    let out = p
        .aggregate(&Operation::Delete {
            old: rec(row("Italy", Field::Int(50))),
        })
        .unwrap();
    assert_update(
        &out[0],
        out_row("Italy", Field::Int(50)),
        out_row("Italy", Field::Int(100)),
    );
}

#[test]
fn test_sum_aggregation() {
    let mut p = AggregationOperator::new(AggregateKind::Sum, vec![1], 2, 4);
    let out = p
        .aggregate(&Operation::Insert {
            new: rec(row("Italy", Field::Int(100))),
        })
        .unwrap();
    assert_insert(&out[0], out_row("Italy", Field::Int(100)));
    let out = p
        .aggregate(&Operation::Insert {
            new: rec(row("Italy", Field::Int(50))),
        })
        .unwrap();
    assert_update(
        &out[0],
        out_row("Italy", Field::Int(100)),
        out_row("Italy", Field::Int(150)),
    );
    let out = p
        .aggregate(&Operation::Update {
            old: rec(row("Italy", Field::Int(50))),
            new: rec(row("Italy", Field::Int(70))),
        })
        .unwrap();
    assert_update(
        &out[0],
        out_row("Italy", Field::Int(150)),
        out_row("Italy", Field::Int(170)),
    );
    let out = p
        .aggregate(&Operation::Delete {
            old: rec(row("Italy", Field::Int(100))),
        })
        .unwrap();
    assert_update(
        &out[0],
        out_row("Italy", Field::Int(170)),
        out_row("Italy", Field::Int(70)),
    );
    // the state always equals a from-scratch recomputation: 70 left
    let out = p
        .aggregate(&Operation::Delete {
            old: rec(row("Italy", Field::Int(70))),
        })
        .unwrap();
    assert_delete(&out[0], out_row("Italy", Field::Int(70)));
}

#[test]
fn test_count_aggregation() {
    let mut p = AggregationOperator::new(AggregateKind::Count, vec![1], 2, 4);
    let out = p
        .aggregate(&Operation::Insert {
            new: rec(row("Italy", Field::Int(7))),
        })
        .unwrap();
    assert_insert(&out[0], out_row("Italy", Field::UInt(1)));
    let out = p
        .aggregate(&Operation::Insert {
            new: rec(row("Italy", Field::Int(9))),
        })
        .unwrap();
    assert_update(
        &out[0],
        out_row("Italy", Field::UInt(1)),
        out_row("Italy", Field::UInt(2)),
    );
    let out = p
        .aggregate(&Operation::Delete {
            old: rec(row("Italy", Field::Int(7))),
        })
        .unwrap();
    assert_update(
        &out[0],
        out_row("Italy", Field::UInt(2)),
        out_row("Italy", Field::UInt(1)),
    );
}

#[test]
fn test_avg_aggregation_truncates() {
    let mut p = AggregationOperator::new(AggregateKind::Avg, vec![1], 2, 4);
    p.aggregate(&Operation::Insert {
        new: rec(row("Italy", Field::Int(7))),
    })
    .unwrap();
    let out = p
        .aggregate(&Operation::Insert {
            new: rec(row("Italy", Field::Int(4))),
        })
        .unwrap();
    // (7 + 4) / 2 truncates toward zero
    assert_update(
        &out[0],
        out_row("Italy", Field::Int(7)),
        out_row("Italy", Field::Int(5)),
    );
}

#[test]
fn test_aggregation_type_mismatch() {
    let mut p = max_processor();
    let r = p.aggregate(&Operation::Insert {
        new: rec(row("Italy", Field::String("not a measure".to_string()))),
    });
    assert_eq!(r.unwrap_err(), AggregationError::TypeMismatch);
    let mut s = AggregationOperator::new(AggregateKind::Sum, vec![1], 2, 4);
    let r = s.aggregate(&Operation::Insert {
        new: rec(row("Italy", Field::UInt(3))),
    });
    assert_eq!(r.unwrap_err(), AggregationError::TypeMismatch);
}

#[test]
fn test_aggregation_sum_overflow() {
    let mut p = AggregationOperator::new(AggregateKind::Sum, vec![1], 2, 4);
    p.aggregate(&Operation::Insert {
        new: rec(row("Italy", Field::Int(i64::MAX))),
    })
    .unwrap();
    let r = p.aggregate(&Operation::Insert {
        new: rec(row("Italy", Field::Int(1))),
    });
    assert_eq!(r.unwrap_err(), AggregationError::Overflow);
    // the failed delta mutated nothing: the group still reports its sum
    let out = p
        .aggregate(&Operation::Insert {
            new: rec(row("Italy", Field::Int(-1))),
        })
        .unwrap();
    assert_update(
        &out[0],
        out_row("Italy", Field::Int(i64::MAX)),
        out_row("Italy", Field::Int(i64::MAX - 1)),
    );
}

#[test]
fn test_max_mixed_variants_rejected() {
    let mut p = max_processor();
    p.aggregate(&Operation::Insert {
        new: rec(row("Italy", Field::Int(1))),
    })
    .unwrap();
    let r = p.aggregate(&Operation::Insert {
        new: rec(row("Italy", Field::UInt(2))),
    });
    assert_eq!(r.unwrap_err(), AggregationError::TypeMismatch);
}

#[test]
fn test_update_into_fresh_group() {
    let mut p = max_processor();
    p.aggregate(&Operation::Insert {
        new: rec(row("Italy", Field::Int(100))),
    })
    .unwrap();
    // the row moves to a group that does not exist yet: the new group's
    // insert comes first, then the old group's delete
    let out = p
        .aggregate(&Operation::Update {
            old: rec(row("Italy", Field::Int(100))),
            new: rec(row("Norway", Field::Int(100))),
        })
        .unwrap();
    assert_eq!(out.len(), 2);
    assert_insert(&out[0], out_row("Norway", Field::Int(100)));
    assert_delete(&out[1], out_row("Italy", Field::Int(100)));
}
