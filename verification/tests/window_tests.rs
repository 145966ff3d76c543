use dozer::errors::WindowError;
use dozer::fields::Field;
use dozer::records::{fields_eq, Operation, Record};
use dozer::window::{assign_windows, Forwarder, WindowProcessor, WindowType, DEFAULT_PORT_HANDLE};

fn rec(values: Vec<Field>) -> Record {
    Record::new(None, values)
}

#[test]
fn test_tumbling_assignment() {
    let w = WindowType::Tumbling {
        column: 1,
        interval: 100,
    };
    let r = rec(vec![Field::Int(7), Field::Timestamp(250)]);
    let rows = assign_windows(&w, &r).unwrap();
    // one window, tiled at multiples of the interval
    assert_eq!(rows.len(), 1);
    assert!(fields_eq(
        &rows[0].values,
        &vec![
            Field::Int(7),
            Field::Timestamp(250),
            Field::Timestamp(200),
            Field::Timestamp(300),
        ],
    ));
}

#[test]
fn test_tumbling_negative_timestamp() {
    let w = WindowType::Tumbling {
        column: 0,
        interval: 100,
    };
    let rows = assign_windows(&w, &rec(vec![Field::Timestamp(-30)])).unwrap();
    assert_eq!(rows.len(), 1);
    assert!(fields_eq(
        &rows[0].values,
        &vec![
            Field::Timestamp(-30),
            Field::Timestamp(-100),
            Field::Timestamp(0),
        ],
    ));
}

#[test]
fn test_hop_assignment() {
    let w = WindowType::Hop {
        column: 0,
        hop_size: 50,
        interval: 100,
    };
    let rows = assign_windows(&w, &rec(vec![Field::Timestamp(120)])).unwrap();
    // the windows [50, 150) and [100, 200) both hold 120
    assert_eq!(rows.len(), 2);
    assert!(fields_eq(
        &rows[0].values,
        &vec![
            Field::Timestamp(120),
            Field::Timestamp(50),
            Field::Timestamp(150),
        ],
    ));
    assert!(fields_eq(
        &rows[1].values,
        &vec![
            Field::Timestamp(120),
            Field::Timestamp(100),
            Field::Timestamp(200),
        ],
    ));
}

#[test]
fn test_window_errors() {
    let w = WindowType::Tumbling {
        column: 0,
        interval: 0,
    };
    assert_eq!(
        assign_windows(&w, &rec(vec![Field::Timestamp(1)])).unwrap_err(),
        WindowError::InvalidInterval
    );

    let w = WindowType::Tumbling {
        column: 5,
        interval: 10,
    };
    assert_eq!(
        assign_windows(&w, &rec(vec![Field::Timestamp(1)])).unwrap_err(),
        WindowError::InvalidColumn
    );

    let w = WindowType::Tumbling {
        column: 0,
        interval: 10,
    };
    assert_eq!(
        assign_windows(&w, &rec(vec![Field::Int(1)])).unwrap_err(),
        WindowError::TypeMismatch
    );
    assert_eq!(
        assign_windows(&w, &rec(vec![Field::Timestamp(i64::MAX)])).unwrap_err(),
        WindowError::RangeOverflow
    );
}

#[test]
fn test_processor_insert_and_delete() {
    let w = WindowType::Tumbling {
        column: 0,
        interval: 100,
    };
    let mut p = WindowProcessor::new("win".to_string(), w, None);
    let mut fw = Forwarder::new();

    p.process(
        DEFAULT_PORT_HANDLE,
        Operation::Insert {
            new: rec(vec![Field::Timestamp(10)]),
        },
        &mut fw,
    )
    .unwrap();
    assert_eq!(fw.sent.len(), 1);
    assert_eq!(fw.sent[0].1, DEFAULT_PORT_HANDLE);
    match &fw.sent[0].0 {
        Operation::Insert { new } => assert!(fields_eq(
            &new.values,
            &vec![
                Field::Timestamp(10),
                Field::Timestamp(0),
                Field::Timestamp(100),
            ],
        )),
        _ => panic!("expected an insert delta"),
    }

    p.process(
        DEFAULT_PORT_HANDLE,
        Operation::Delete {
            old: rec(vec![Field::Timestamp(10)]),
        },
        &mut fw,
    )
    .unwrap();
    assert_eq!(fw.sent.len(), 2);
    assert!(matches!(&fw.sent[1].0, Operation::Delete { .. }));
}

#[test]
fn test_processor_update_splits() {
    let w = WindowType::Tumbling {
        column: 0,
        interval: 100,
    };
    let mut p = WindowProcessor::new("win".to_string(), w, None);
    let mut fw = Forwarder::new();
    p.process(
        DEFAULT_PORT_HANDLE,
        Operation::Update {
            old: rec(vec![Field::Timestamp(10)]),
            new: rec(vec![Field::Timestamp(110)]),
        },
        &mut fw,
    )
    .unwrap();
    // the retraction of the old row comes first, then the insertion
    assert_eq!(fw.sent.len(), 2);
    match &fw.sent[0].0 {
        Operation::Delete { old } => assert!(fields_eq(
            &old.values,
            &vec![
                Field::Timestamp(10),
                Field::Timestamp(0),
                Field::Timestamp(100),
            ],
        )),
        _ => panic!("expected a delete delta first"),
    }
    match &fw.sent[1].0 {
        Operation::Insert { new } => assert!(fields_eq(
            &new.values,
            &vec![
                Field::Timestamp(110),
                Field::Timestamp(100),
                Field::Timestamp(200),
            ],
        )),
        _ => panic!("expected an insert delta second"),
    }
}

#[test]
fn test_processor_batch_rebatches() {
    let w = WindowType::Hop {
        column: 0,
        hop_size: 50,
        interval: 100,
    };
    let mut p = WindowProcessor::new("win".to_string(), w, None);
    let mut fw = Forwarder::new();
    p.process(
        DEFAULT_PORT_HANDLE,
        Operation::BatchInsert {
            new: vec![
                rec(vec![Field::Timestamp(120)]),
                rec(vec![Field::Timestamp(10)]),
            ],
        },
        &mut fw,
    )
    .unwrap();
    // one outbound batch holding every translated row
    assert_eq!(fw.sent.len(), 1);
    match &fw.sent[0].0 {
        Operation::BatchInsert { new } => assert_eq!(new.len(), 4),
        _ => panic!("expected one batch delta"),
    }
    // a failing record leaves nothing forwarded
    let mut fw2 = Forwarder::new();
    let r = p.process(
        DEFAULT_PORT_HANDLE,
        Operation::BatchInsert {
            new: vec![rec(vec![Field::Int(3)])],
        },
        &mut fw2,
    );
    assert_eq!(r.unwrap_err(), WindowError::TypeMismatch);
    assert_eq!(fw2.sent.len(), 0);
}

#[test]
fn test_processor_commit_is_stateless() {
    let w = WindowType::Tumbling {
        column: 0,
        interval: 100,
    };
    let p = WindowProcessor::new("win".to_string(), w, None);
    assert!(p.commit().is_ok());
}

#[test]
fn test_hop_gap_produces_no_window() {
    // hops of 100 with an interval of 10 leave gaps: 115 falls in none
    let w = WindowType::Hop {
        column: 0,
        hop_size: 100,
        interval: 10,
    };
    let rows = assign_windows(&w, &rec(vec![Field::Timestamp(115)])).unwrap();
    assert_eq!(rows.len(), 0);
    let rows = assign_windows(&w, &rec(vec![Field::Timestamp(105)])).unwrap();
    assert_eq!(rows.len(), 1);
}
