use dozer::errors::ExecutionError;
use dozer::fields::{Field, FieldType};
use dozer::records::{fields_eq, get_primary_key, FieldDefinition, IndexDefinition, Operation,
    Record, Schema};
use dozer::sink::{
    open_or_create_cache, ApiEndpoint, ApiEvent, ApiIndex, CacheManager, CacheSink,
    CacheSinkFactory, CacheSinkSettings, Epoch, NotificationChannel,
};
use dozer::window::DEFAULT_PORT_HANDLE;

fn field_def(name: &str, typ: FieldType) -> FieldDefinition {
    FieldDefinition {
        name: name.to_string(),
        typ,
        nullable: false,
    }
}

fn film_schema() -> Schema {
    Schema {
        identifier: None,
        fields: vec![
            field_def("film_id", FieldType::Int),
            field_def("film_name", FieldType::String),
        ],
        primary_index: vec![0],
    }
}

fn endpoint(name: &str, pk: Option<Vec<&str>>) -> ApiEndpoint {
    ApiEndpoint {
        name: name.to_string(),
        path: format!("/{}", name),
        index: pk.map(|names| ApiIndex {
            primary_key: names.into_iter().map(|n| n.to_string()).collect(),
        }),
    }
}

fn settings() -> CacheSinkSettings {
    CacheSinkSettings::new("api".to_string(), None, None)
}

fn film(id: i64, name: &str) -> Record {
    Record::new(None, vec![Field::Int(id), Field::String(name.to_string())])
}

fn epoch(seq: u64, txn_seq: u64) -> Epoch {
    Epoch {
        seq,
        node: "".to_string(),
        txn_seq,
        timestamp: 0,
    }
}

fn build_sink(name: &str, notifier: Option<NotificationChannel>) -> CacheSink {
    let factory = CacheSinkFactory::new(endpoint(name, None), notifier, settings()).unwrap();
    let mut manager = CacheManager::new();
    factory.build(&mut manager, &film_schema()).unwrap()
}

#[test]
fn update_record_when_primary_changes() {
    let mut sink = build_sink("example", None);

    let initial_values = vec![Field::Int(1), Field::String("Film name old".to_string())];
    let updated_values = vec![
        Field::Int(2),
        Field::String("Film name updated".to_string()),
    ];

    let insert_operation = Operation::Insert {
        new: Record::new(None, initial_values.clone()),
    };
    let update_operation = Operation::Update {
        old: Record::new(None, initial_values.clone()),
        new: Record::new(None, updated_values.clone()),
    };

    sink.process(DEFAULT_PORT_HANDLE, insert_operation).unwrap();
    sink.commit(&epoch(0, 0)).unwrap();

    let key = get_primary_key(&sink.cache.schema.primary_index, &initial_values);
    let record = sink.cache.get(&key).unwrap();
    assert!(fields_eq(&record.values, &initial_values));

    sink.process(DEFAULT_PORT_HANDLE, update_operation).unwrap();
    sink.commit(&epoch(0, 1)).unwrap();

    // the primary key made of the old values resolves no longer
    let key = get_primary_key(&sink.cache.schema.primary_index, &initial_values);
    assert!(sink.cache.get(&key).is_err());

    // the primary key made of the updated values finds the new record
    let key = get_primary_key(&sink.cache.schema.primary_index, &updated_values);
    let record = sink.cache.get(&key).unwrap();
    assert!(fields_eq(&record.values, &updated_values));
}

#[test]
fn test_sink_notifications() {
    let mut sink = build_sink("films", Some(NotificationChannel::new(16)));

    sink.process(
        DEFAULT_PORT_HANDLE,
        Operation::Insert {
            new: film(1, "one"),
        },
    )
    .unwrap();
    sink.process(
        DEFAULT_PORT_HANDLE,
        Operation::Update {
            old: film(1, "one"),
            new: film(1, "uno"),
        },
    )
    .unwrap();
    sink.process(
        DEFAULT_PORT_HANDLE,
        Operation::Delete {
            old: film(1, "uno"),
        },
    )
    .unwrap();

    let messages = sink.notifier.as_mut().unwrap().drain();
    assert_eq!(messages.len(), 3);
    assert_eq!(messages[0].endpoint, "films");
    match &messages[0].api_event {
        ApiEvent::Insert { record, .. } => {
            assert!(fields_eq(&record.values, &film(1, "one").values));
            assert_eq!(record.version, Some(0));
        }
        _ => panic!("expected an insert event"),
    }
    match &messages[1].api_event {
        ApiEvent::Update { old, new } => {
            assert_eq!(old.version, Some(0));
            assert_eq!(new.version, Some(1));
        }
        _ => panic!("expected an update event"),
    }
    match &messages[2].api_event {
        ApiEvent::Delete { version, .. } => assert_eq!(*version, 1),
        _ => panic!("expected a delete event"),
    }
}

#[test]
fn test_sink_full_channel_is_hard_error() {
    let mut sink = build_sink("films", Some(NotificationChannel::new(1)));
    sink.process(
        DEFAULT_PORT_HANDLE,
        Operation::Insert {
            new: film(1, "one"),
        },
    )
    .unwrap();
    let r = sink.process(
        DEFAULT_PORT_HANDLE,
        Operation::Insert {
            new: film(2, "two"),
        },
    );
    assert!(matches!(r, Err(ExecutionError::NotificationChannelFull)));
}

#[test]
fn test_sink_insert_failure_names_endpoint() {
    let mut sink = build_sink("films", None);
    sink.process(
        DEFAULT_PORT_HANDLE,
        Operation::Insert {
            new: film(1, "one"),
        },
    )
    .unwrap();
    let r = sink.process(
        DEFAULT_PORT_HANDLE,
        Operation::Insert {
            new: film(1, "one again"),
        },
    );
    match r {
        Err(ExecutionError::SinkError(dozer::errors::SinkError::CacheInsertFailed {
            endpoint,
            ..
        })) => assert_eq!(endpoint, "films"),
        _ => panic!("expected a wrapped duplicate-key failure"),
    }
}

#[test]
fn test_factory_configured_primary_key() {
    // the endpoint names its key; the upstream schema has none
    let mut schema = film_schema();
    schema.primary_index = vec![];
    let factory = CacheSinkFactory::new(
        endpoint("films", Some(vec!["film_id"])),
        None,
        settings(),
    )
    .unwrap();
    let (out_schema, defs) = factory.get_output_schema(&schema).unwrap();
    assert_eq!(out_schema.primary_index, vec![0]);
    // int column: one ordered index; string column: ordered plus token
    assert_eq!(defs.len(), 3);
    assert!(matches!(&defs[0], IndexDefinition::SortedInverted(c) if c == &vec![0]));
    assert!(matches!(&defs[1], IndexDefinition::SortedInverted(c) if c == &vec![1]));
    assert!(matches!(&defs[2], IndexDefinition::FullText(1)));
}

#[test]
fn test_factory_unknown_key_column() {
    let factory = CacheSinkFactory::new(
        endpoint("films", Some(vec!["no_such_column"])),
        None,
        settings(),
    )
    .unwrap();
    match factory.get_output_schema(&film_schema()) {
        Err(ExecutionError::FieldNotFound(n)) => assert_eq!(n, "no_such_column"),
        _ => panic!("expected an unknown-column failure"),
    }
}

#[test]
fn test_factory_mismatched_primary_key() {
    // upstream computed film_id; the endpoint insists on film_name
    let factory = CacheSinkFactory::new(
        endpoint("films", Some(vec!["film_name"])),
        None,
        settings(),
    )
    .unwrap();
    match factory.get_output_schema(&film_schema()) {
        Err(ExecutionError::MismatchPrimaryKey {
            endpoint_name,
            expected,
            actual,
        }) => {
            assert_eq!(endpoint_name, "films");
            assert_eq!(expected, vec!["film_id".to_string()]);
            assert_eq!(actual, vec!["film_name".to_string()]);
        }
        _ => panic!("expected a mismatched-key failure"),
    }
}

#[test]
fn test_factory_prepare_and_ports() {
    let factory = CacheSinkFactory::new(endpoint("films", None), None, settings()).unwrap();
    assert_eq!(factory.get_input_ports(), vec![DEFAULT_PORT_HANDLE]);
    assert!(factory.prepare(&film_schema()).is_ok());
}

#[test]
fn test_manager_aliases() {
    let mut manager = CacheManager::new();
    let cache = open_or_create_cache(
        &mut manager,
        &"films".to_string(),
        film_schema(),
        vec![IndexDefinition::SortedInverted(vec![0])],
    )
    .unwrap();
    assert_eq!(cache.name, "films");
    assert_eq!(manager.resolve(&"films".to_string()), "films");
    // an alias can be remapped without relocating data
    manager
        .create_alias(&"films".to_string(), &"movies".to_string())
        .unwrap();
    assert_eq!(manager.resolve(&"movies".to_string()), "films");
    assert_eq!(manager.resolve(&"elsewhere".to_string()), "elsewhere");
}

#[test]
fn test_sink_delete_failure_names_endpoint() {
    let mut sink = build_sink("films", None);
    let r = sink.process(
        DEFAULT_PORT_HANDLE,
        Operation::Delete {
            old: film(9, "missing"),
        },
    );
    match r {
        Err(ExecutionError::SinkError(dozer::errors::SinkError::CacheDeleteFailed {
            endpoint,
            ..
        })) => assert_eq!(endpoint, "films"),
        _ => panic!("expected a wrapped not-found failure"),
    }
}

#[test]
fn test_sink_update_failure_names_endpoint() {
    let mut sink = build_sink("films", None);
    let r = sink.process(
        DEFAULT_PORT_HANDLE,
        Operation::Update {
            old: film(9, "missing"),
            new: film(9, "still missing"),
        },
    );
    match r {
        Err(ExecutionError::SinkError(dozer::errors::SinkError::CacheUpdateFailed {
            endpoint,
            ..
        })) => assert_eq!(endpoint, "films"),
        _ => panic!("expected a wrapped not-found failure"),
    }
}
