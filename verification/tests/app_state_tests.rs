use dozer::app_state::{
    apply_run_request, broadcast_response, current_response, endpoint_logs, get_contract,
    ApiConfig, AppGrpcOptions, BroadcastType, BuildStatus, Contract,
    DozerAndContract, EndpointConfig, EndpointKind, EndpointLogKind, GrpcApiOptions,
    RestApiOptions, RunRequest, SourceConfig, UiConfig,
};
use dozer::config::{
    get_buffer_size, get_cache_manager_options, get_commit_size, get_commit_time_threshold,
    get_default_max_num_records, get_error_threshold, get_executor_options, ApiOptions,
    AppConfigOptions, Config,
};
use dozer::errors::AppUIError;
use dozer::index::tokenize;

fn api_config() -> ApiConfig {
    ApiConfig {
        rest: RestApiOptions {
            host: None,
            port: None,
            cors: None,
            enabled: None,
            enable_sql: None,
        },
        grpc: GrpcApiOptions {
            host: None,
            port: None,
            cors: None,
            web: None,
            enabled: None,
        },
        app_grpc: AppGrpcOptions {
            port: None,
            host: None,
        },
        pgwire_enabled: None,
        api_security: None,
    }
}

fn ui_config() -> UiConfig {
    UiConfig {
        app_name: "orders_app".to_string(),
        sql: None,
        sources: vec![
            SourceConfig {
                name: "orders".to_string(),
                connection: "pg_main".to_string(),
            },
            SourceConfig {
                name: "customers".to_string(),
                connection: "pg_main".to_string(),
            },
            SourceConfig {
                name: "clicks".to_string(),
                connection: "events".to_string(),
            },
        ],
        sinks: vec![
            EndpointConfig {
                table_name: "orders_by_day".to_string(),
                kind: EndpointKind::Api,
            },
            EndpointConfig {
                table_name: "audit".to_string(),
                kind: EndpointKind::Clickhouse("ch://local".to_string()),
            },
        ],
        api: api_config(),
        home_dir: None,
        cache_dir: None,
    }
}

#[test]
fn test_get_contract() {
    assert_eq!(get_contract(&None).unwrap_err(), AppUIError::NotInitialized);
    let without = Some(DozerAndContract {
        config: ui_config(),
        contract: None,
    });
    assert_eq!(
        get_contract(&without).unwrap_err(),
        AppUIError::NotInitialized
    );
    let with = Some(DozerAndContract {
        config: ui_config(),
        contract: Some(Contract {
            version: 2,
            endpoints: vec!["orders_by_day".to_string()],
        }),
    });
    let c = get_contract(&with).unwrap();
    assert_eq!(c.version, 2);
}

#[test]
fn test_broadcast_responses() {
    let current = current_response(&None, None, false, None);
    let r = broadcast_response(BroadcastType::Start, current);
    assert!(r.app_ui.is_none());
    assert_eq!(r.build.as_ref().unwrap().status, BuildStatus::BuildStart);
    assert!(r.build.unwrap().message.is_none());

    let current = current_response(&None, None, false, None);
    let r = broadcast_response(BroadcastType::Failed("boom".to_string()), current);
    assert_eq!(r.build.as_ref().unwrap().status, BuildStatus::BuildFailed);
    assert_eq!(r.build.unwrap().message.unwrap(), "boom");

    let current = current_response(&None, None, true, Some("late".to_string()));
    let r = broadcast_response(BroadcastType::Success, current);
    assert!(r.build.is_none());
    let ui = r.app_ui.unwrap();
    assert!(ui.running);
    assert_eq!(ui.error_message.unwrap(), "late");
}

#[test]
fn test_current_response_summary() {
    let held = Some(DozerAndContract {
        config: ui_config(),
        contract: None,
    });
    let r = current_response(&held, None, false, None);
    assert!(r.initialized);
    let app = r.app.unwrap();
    assert_eq!(app.app_name, "orders_app");
    // the two sources on one connection count once
    assert_eq!(app.connections.len(), 2);
    assert!(app.connections.contains(&"pg_main".to_string()));
    assert!(app.connections.contains(&"events".to_string()));
    assert_eq!(
        app.endpoints,
        vec!["orders_by_day".to_string(), "audit".to_string()]
    );
    assert!(!app.enable_api_security);

    // a master secret in the environment switches security on
    let held = Some(DozerAndContract {
        config: ui_config(),
        contract: None,
    });
    let r = current_response(&held, Some("master-key".to_string()), false, None);
    assert!(r.app.unwrap().enable_api_security);
}

#[test]
fn test_apply_run_request_sql() {
    let mut config = ui_config();
    apply_run_request(
        &mut config,
        RunRequest::Sql {
            sql: "select 1".to_string(),
            output_tables: vec!["t1".to_string(), "t2".to_string()],
        },
        &"/tmp_scratch".to_string(),
    );
    assert_eq!(config.sql.as_deref(), Some("select 1"));
    assert_eq!(config.sinks.len(), 2);
    assert!(matches!(config.sinks[0].kind, EndpointKind::Api));
    assert_eq!(config.sinks[0].table_name, "t1");
    assert_eq!(config.api.rest.port, Some(62885));
    assert_eq!(config.api.grpc.port, Some(62887));
    assert_eq!(config.api.app_grpc.port, Some(62997));
    assert_eq!(config.api.pgwire_enabled, Some(true));
    assert_eq!(config.home_dir.as_deref(), Some("/tmp_scratch"));
    assert_eq!(config.cache_dir.as_deref(), Some("/tmp_scratch/cache"));
}

#[test]
fn test_apply_run_request_source() {
    let mut config = ui_config();
    apply_run_request(
        &mut config,
        RunRequest::Source("orders".to_string()),
        &"/tmp_scratch".to_string(),
    );
    assert!(config.sql.is_none());
    assert_eq!(config.sinks.len(), 1);
    assert_eq!(config.sinks[0].table_name, "orders");
}

#[test]
fn test_endpoint_logs_mapping() {
    let logs = endpoint_logs(&ui_config().sinks);
    assert_eq!(logs.len(), 2);
    assert_eq!(logs[0].table_name, "orders_by_day");
    assert!(matches!(logs[0].kind, EndpointLogKind::Dummy));
    match &logs[1].kind {
        EndpointLogKind::Clickhouse(c) => assert_eq!(c, "ch://local"),
        _ => panic!("expected the clickhouse configuration to ride along"),
    }
}

#[test]
fn test_config_defaults_and_overrides() {
    let config = Config {
        app: AppConfigOptions {
            commit_timeout: None,
            app_buffer_size: Some(4096),
            commit_size: None,
            error_threshold: None,
            persist_queue_capacity: None,
            data_storage: None,
        },
        api: ApiOptions {
            default_max_num_records: None,
        },
        cache_max_map_size: Some(1 << 20),
        cache_dir: None,
    };
    assert_eq!(get_commit_time_threshold(&config), 50);
    assert_eq!(get_buffer_size(&config), 4096);
    assert_eq!(get_commit_size(&config), 10000);
    assert_eq!(get_error_threshold(&config), 0);
    assert_eq!(get_default_max_num_records(&config), 50);

    let exec = get_executor_options(&config);
    assert_eq!(exec.commit_sz, 10000);
    assert_eq!(exec.channel_buffer_sz, 4096);
    assert_eq!(exec.error_threshold, Some(0));
    assert_eq!(exec.checkpoint_factory_options.persist_queue_capacity, 100);

    let cm = get_cache_manager_options(&config);
    assert_eq!(cm.max_size, 1 << 20);
    assert_eq!(cm.path.as_deref(), Some("./.cache"));
}

#[test]
fn test_tokenizer() {
    let toks = tokenize("night  train\tto lisbon\n");
    assert_eq!(
        toks,
        vec![
            "night".to_string(),
            "train".to_string(),
            "to".to_string(),
            "lisbon".to_string(),
        ]
    );
    assert_eq!(tokenize("").len(), 0);
    assert_eq!(tokenize("   ").len(), 0);
    assert_eq!(tokenize("one"), vec!["one".to_string()]);
}
