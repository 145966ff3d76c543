//! The pipeline-state front end: the plain-data decisions behind the
//! interactive builder — holding a built orchestrator and its contract,
//! broadcasting build progress, summarizing the configuration, and
//! rewriting a configuration for a one-off run. The surrounding
//! asynchronous plumbing (locks, channels, runtimes, processes) lives
//! with the host program.

use vstd::prelude::*;

use crate::errors::AppUIError;
use crate::sink::ApiSecurity;

verus! {

use vstd::string::StringExecFns;

/// One ingestion source and the connection it draws from.
#[derive(Debug)]
pub struct SourceConfig {
    pub name: String,
    pub connection: String,
}

/// Where one output table is delivered.
#[derive(Debug)]
pub enum EndpointKind {
    Api,
    Dummy,
    Aerospike(String),
    Clickhouse(String),
    Oracle(String),
}

/// One configured output table.
#[derive(Debug)]
pub struct EndpointConfig {
    pub table_name: String,
    pub kind: EndpointKind,
}

/// Options of the REST serving surface.
#[derive(Debug)]
pub struct RestApiOptions {
    pub host: Option<String>,
    pub port: Option<u32>,
    pub cors: Option<bool>,
    pub enabled: Option<bool>,
    pub enable_sql: Option<bool>,
}

/// Options of the gRPC serving surface.
#[derive(Debug)]
pub struct GrpcApiOptions {
    pub host: Option<String>,
    pub port: Option<u32>,
    pub cors: Option<bool>,
    pub web: Option<bool>,
    pub enabled: Option<bool>,
}

/// Options of the internal application gRPC surface.
#[derive(Debug)]
pub struct AppGrpcOptions {
    pub port: Option<u32>,
    pub host: Option<String>,
}

/// The serving configuration.
#[derive(Debug)]
pub struct ApiConfig {
    pub rest: RestApiOptions,
    pub grpc: GrpcApiOptions,
    pub app_grpc: AppGrpcOptions,
    pub pgwire_enabled: Option<bool>,
    pub api_security: Option<ApiSecurity>,
}

/// The application configuration the front end works on.
#[derive(Debug)]
pub struct UiConfig {
    pub app_name: String,
    pub sql: Option<String>,
    pub sources: Vec<SourceConfig>,
    pub sinks: Vec<EndpointConfig>,
    pub api: ApiConfig,
    pub home_dir: Option<String>,
    pub cache_dir: Option<String>,
}

/// The built pipeline's contract: its version and the endpoints it
/// serves.
#[derive(Debug)]
pub struct Contract {
    pub version: usize,
    pub endpoints: Vec<String>,
}

/// A built orchestrator together with the contract derived from it, if
/// one was derived.
#[derive(Debug)]
pub struct DozerAndContract {
    pub config: UiConfig,
    pub contract: Option<Contract>,
}

/// What a broadcast announces: a build starting, finishing, or failing
/// with a message.
#[derive(Debug)]
pub enum BroadcastType {
    Start,
    Success,
    Failed(String),
}

/// Build progress as the wire reports it.
#[derive(Clone, Copy, PartialEq, Eq, Structural, Debug)]
pub enum BuildStatus {
    BuildStart,
    BuildFailed,
}

/// The build half of a broadcast message.
#[derive(Debug)]
pub struct BuildResponse {
    pub status: BuildStatus,
    pub message: Option<String>,
}

/// The state summary half of a broadcast message.
#[derive(Debug)]
pub struct AppUi {
    pub app_name: String,
    pub connections: Vec<String>,
    pub endpoints: Vec<String>,
    pub enable_api_security: bool,
}

/// The front end's full state summary.
#[derive(Debug)]
pub struct AppUiResponse {
    pub initialized: bool,
    pub running: bool,
    pub error_message: Option<String>,
    pub app: Option<AppUi>,
}

/// One message on the broadcast channel.
#[derive(Debug)]
pub struct ConnectResponse {
    pub app_ui: Option<AppUiResponse>,
    pub build: Option<BuildResponse>,
}

/// The contract of a built orchestrator, or `NotInitialized` while no
/// orchestrator or no contract is held.
pub fn get_contract(dozer_and_contract: &Option<DozerAndContract>) -> (r: Result<
    &Contract,
    AppUIError,
>)
    ensures
        match r {
            Ok(c) => dozer_and_contract matches Some(dc) && dc.contract == Some(*c),
            Err(e) => e == AppUIError::NotInitialized && match dozer_and_contract {
                Some(dc) => dc.contract is None,
                None => true,
            },
        },
{
    match dozer_and_contract {
        Some(dc) => match &dc.contract {
            Some(c) => Ok(c),
            None => Err(AppUIError::NotInitialized),
        },
        None => Err(AppUIError::NotInitialized),
    }
}

/// The message one broadcast sends: a bare status for a starting build,
/// the failure message for a failed one, the current state summary for a
/// successful one.
pub fn broadcast_response(broadcast_type: BroadcastType, current: AppUiResponse) -> (r:
    ConnectResponse)
    ensures
        match broadcast_type {
            BroadcastType::Start => r.app_ui is None && (r.build matches Some(b) && b.status
                == BuildStatus::BuildStart && b.message is None),
            BroadcastType::Failed(msg) => r.app_ui is None && (r.build matches Some(b) && b.status
                == BuildStatus::BuildFailed && b.message == Some(msg)),
            BroadcastType::Success => r.app_ui == Some(current) && r.build is None,
        },
{
    match broadcast_type {
        BroadcastType::Start => ConnectResponse {
            app_ui: None,
            build: Some(BuildResponse { status: BuildStatus::BuildStart, message: None }),
        },
        BroadcastType::Failed(msg) => ConnectResponse {
            app_ui: None,
            build: Some(BuildResponse { status: BuildStatus::BuildFailed, message: Some(msg) }),
        },
        BroadcastType::Success => ConnectResponse { app_ui: Some(current), build: None },
    }
}

/// Decide membership of a string in a list, by content.
fn contains_string(v: &Vec<String>, s: &String) -> (r: bool)
    ensures
        r == v.deep_view().contains(s@),
{
    let ghost dv = v.deep_view();
    let mut i: usize = 0;
    while i < v.len()
        invariant
            dv == v.deep_view(),
            dv.len() == v@.len(),
            i <= dv.len(),
            forall|j: int| 0 <= j < i ==> dv[j] != s@,
        decreases dv.len() - i,
    {
        proof {
            assert(dv[i as int] == v@[i as int]@);
        }
        if v[i].eq(s) {
            proof {
                assert(dv.contains(s@));
            }
            return true;
        }
        i = i + 1;
    }
    proof {
        if dv.contains(s@) {
            let j = choose|j: int| 0 <= j < dv.len() && dv[j] == s@;
            assert(false);
        }
    }
    false
}

/// The distinct connection names drawn on by the sources, each once.
pub fn source_connections(sources: &Vec<SourceConfig>) -> (r: Vec<String>)
    ensures
        forall|a: int, b: int|
            0 <= a < b < r.deep_view().len() ==> r.deep_view()[a] != r.deep_view()[b],
        forall|s: Seq<char>| #[trigger]
            r.deep_view().contains(s) <==> exists|i: int|
                0 <= i < sources@.len() && (#[trigger] sources@[i]).connection@ == s,
{
    let mut r: Vec<String> = Vec::new();
    let mut i: usize = 0;
    while i < sources.len()
        invariant
            i <= sources@.len(),
            forall|a: int, b: int|
                0 <= a < b < r.deep_view().len() ==> r.deep_view()[a] != r.deep_view()[b],
            forall|s: Seq<char>| #[trigger]
                r.deep_view().contains(s) <==> exists|j: int|
                    0 <= j < i && (#[trigger] sources@[j]).connection@ == s,
        decreases sources@.len() - i,
    {
        let c = &sources[i].connection;
        if !contains_string(&r, c) {
            let ghost prev = r.deep_view();
            r.push(c.clone());
            proof {
                assert(r.deep_view() =~= prev.push(c@));
                assert forall|s: Seq<char>| prev.contains(s) implies r.deep_view().contains(s) by {
                    let ix = choose|ix: int| 0 <= ix < prev.len() && prev[ix] == s;
                    assert(r.deep_view()[ix] == s);
                }
                let rd = r.deep_view();
                assert forall|a: int, b: int|
                    0 <= a < b < rd.len() implies rd[a] != rd[b] by {
                    if b == rd.len() - 1 {
                        assert(rd[a] == prev[a]);
                        assert(!prev.contains(c@));
                    }
                }
                assert forall|s: Seq<char>| #[trigger]
                    r.deep_view().contains(s) implies exists|j: int|
                    0 <= j < i + 1 && (#[trigger] sources@[j]).connection@ == s by {
                    let ix = choose|ix: int|
                        0 <= ix < r.deep_view().len() && r.deep_view()[ix] == s;
                    if ix < prev.len() {
                        assert(prev.contains(s));
                    } else {
                        assert(sources@[i as int].connection@ == s);
                    }
                }
                assert forall|s: Seq<char>|
                    exists|j: int|
                        0 <= j < i + 1 && (#[trigger] sources@[j]).connection@
                            == s implies #[trigger] r.deep_view().contains(s) by {
                    let j = choose|j: int|
                        0 <= j < i + 1 && (#[trigger] sources@[j]).connection@ == s;
                    if j < i {
                        assert(prev.contains(s));
                    } else {
                        assert(r.deep_view()[r.deep_view().len() - 1] == s);
                    }
                }
            }
        } else {
            proof {
                assert forall|s: Seq<char>|
                    exists|j: int|
                        0 <= j < i + 1 && (#[trigger] sources@[j]).connection@
                            == s implies #[trigger] r.deep_view().contains(s) by {
                    let j = choose|j: int|
                        0 <= j < i + 1 && (#[trigger] sources@[j]).connection@ == s;
                    if j < i {
                    } else {
                        assert(r.deep_view().contains(sources@[i as int].connection@));
                    }
                }
            }
        }
        i = i + 1;
    }
    r
}

/// The table names the sinks deliver, in configuration order.
pub fn sink_table_names(sinks: &Vec<EndpointConfig>) -> (r: Vec<String>)
    ensures
        r.deep_view() == sinks@.map(|_i: int, e: EndpointConfig| e.table_name@),
{
    let ghost target = sinks@.map(|_i: int, e: EndpointConfig| e.table_name@);
    let mut r: Vec<String> = Vec::new();
    let mut i: usize = 0;
    while i < sinks.len()
        invariant
            target == sinks@.map(|_i: int, e: EndpointConfig| e.table_name@),
            i <= sinks@.len(),
            r.deep_view() =~= target.take(i as int),
        decreases sinks@.len() - i,
    {
        let ghost prev = r.deep_view();
        r.push(sinks[i].table_name.clone());
        proof {
            assert(r.deep_view() =~= prev.push(target[i as int]));
            assert(r.deep_view() =~= target.take(i as int + 1));
        }
        i = i + 1;
    }
    proof {
        assert(r.deep_view() =~= target);
    }
    r
}

/// Summarize the current state: the held configuration's name, its
/// distinct source connections and its endpoint tables; security counts
/// as enabled when either a master secret is present in the environment
/// or the configuration carries one.
pub fn current_response(
    dozer: &Option<DozerAndContract>,
    master_secret: Option<String>,
    running: bool,
    error_message: Option<String>,
) -> (r: AppUiResponse)
    ensures
        r.initialized == (dozer is Some),
        r.running == running,
        r.error_message == error_message,
        match dozer {
            Some(dc) => {
                &&& r.app matches Some(app)
                &&& ({
                    let app = r.app->0;
                    &&& app.app_name@ == dc.config.app_name@
                    &&& app.enable_api_security == (master_secret is Some
                        || dc.config.api.api_security is Some)
                    &&& app.endpoints.deep_view() == dc.config.sinks@.map(
                        |_i: int, e: EndpointConfig| e.table_name@,
                    )
                    &&& forall|s: Seq<char>| #[trigger]
                        app.connections.deep_view().contains(s) <==> exists|i: int|
                            0 <= i < dc.config.sources@.len()
                                && (#[trigger] dc.config.sources@[i]).connection@ == s
                })
            },
            None => r.app is None,
        },
{
    match dozer {
        Some(dc) => {
            let connections = source_connections(&dc.config.sources);
            let endpoints = sink_table_names(&dc.config.sinks);
            let enable_api_security = master_secret.is_some()
                || dc.config.api.api_security.is_some();
            AppUiResponse {
                initialized: true,
                running,
                error_message,
                app: Some(
                    AppUi {
                        app_name: dc.config.app_name.clone(),
                        connections,
                        endpoints,
                        enable_api_security,
                    },
                ),
            }
        },
        None => AppUiResponse { initialized: false, running, error_message, app: None },
    }
}

/// Pin the REST surface to the local development defaults.
pub fn override_rest_config(rest: &mut RestApiOptions)
    ensures
        final(rest).host matches Some(h) && h@ == "0.0.0.0"@,
        final(rest).port == Some(62885u32),
        final(rest).cors == Some(true),
        final(rest).enabled == Some(true),
        final(rest).enable_sql == Some(true),
{
    rest.host = Some("0.0.0.0".to_string());
    rest.port = Some(62885);
    rest.cors = Some(true);
    rest.enabled = Some(true);
    rest.enable_sql = Some(true);
}

/// Pin the gRPC surface to the local development defaults.
pub fn override_grpc_config(grpc: &mut GrpcApiOptions)
    ensures
        final(grpc).host matches Some(h) && h@ == "0.0.0.0"@,
        final(grpc).port == Some(62887u32),
        final(grpc).cors == Some(true),
        final(grpc).web == Some(true),
        final(grpc).enabled == Some(true),
{
    grpc.host = Some("0.0.0.0".to_string());
    grpc.port = Some(62887);
    grpc.cors = Some(true);
    grpc.web = Some(true);
    grpc.enabled = Some(true);
}

/// Pin the application gRPC surface to the local development defaults.
pub fn override_app_grpc_config(app_grpc: &mut AppGrpcOptions)
    ensures
        final(app_grpc).port == Some(62997u32),
        final(app_grpc).host matches Some(h) && h@ == "0.0.0.0"@,
{
    app_grpc.port = Some(62997);
    app_grpc.host = Some("0.0.0.0".to_string());
}

/// Pin the whole serving configuration to the local development
/// defaults, with the wire-protocol listener switched on.
pub fn override_api_config(api: &mut ApiConfig)
    ensures
        final(api).rest.host matches Some(h) && h@ == "0.0.0.0"@,
        final(api).rest.port == Some(62885u32),
        final(api).rest.cors == Some(true),
        final(api).rest.enabled == Some(true),
        final(api).rest.enable_sql == Some(true),
        final(api).grpc.host matches Some(h) && h@ == "0.0.0.0"@,
        final(api).grpc.port == Some(62887u32),
        final(api).grpc.cors == Some(true),
        final(api).grpc.web == Some(true),
        final(api).grpc.enabled == Some(true),
        final(api).app_grpc.host matches Some(h) && h@ == "0.0.0.0"@,
        final(api).app_grpc.port == Some(62997u32),
        final(api).pgwire_enabled == Some(true),
        final(api).api_security == old(api).api_security,
{
    override_rest_config(&mut api.rest);
    override_grpc_config(&mut api.grpc);
    override_app_grpc_config(&mut api.app_grpc);
    api.pgwire_enabled = Some(true);
}

/// What a one-off run was asked to serve: the output tables of a
/// statement, or a single source.
#[derive(Debug)]
pub enum RunRequest {
    Sql { sql: String, output_tables: Vec<String> },
    Source(String),
    Unspecified,
}

/// Rewrite a configuration for a one-off local run: replace the sinks by
/// one serving endpoint per requested table, pin the serving surfaces to
/// local defaults, and point the working directories at a scratch
/// directory. The statement parsing that finds a query's output tables
/// happens outside; its result rides in the request.
pub fn apply_run_request(config: &mut UiConfig, request: RunRequest, temp_dir: &String)
    ensures
        final(config).app_name@ == old(config).app_name@,
        match request {
            RunRequest::Sql { sql, output_tables } => final(config).sql == Some(sql)
                && final(config).sinks@.len() == output_tables@.len() && final(config).sinks@.map(
                |_i: int, e: EndpointConfig| e.table_name@,
            ) == output_tables.deep_view(),
            RunRequest::Source(endpoint) => final(config).sql is None && final(config).sinks@.len()
                == 1 && final(config).sinks@[0].table_name@ == endpoint@,
            RunRequest::Unspecified => final(config).sql == old(config).sql
                && final(config).sinks@ == old(config).sinks@,
        },
        forall|i: int|
            0 <= i < final(config).sinks@.len() && !(request is Unspecified)
                ==> (#[trigger] final(config).sinks@[i]).kind is Api,
        final(config).api.rest.host matches Some(h) && h@ == "0.0.0.0"@,
        final(config).api.rest.port == Some(62885u32),
        final(config).api.rest.cors == Some(true),
        final(config).api.rest.enabled == Some(true),
        final(config).api.rest.enable_sql == Some(true),
        final(config).api.grpc.host matches Some(h) && h@ == "0.0.0.0"@,
        final(config).api.grpc.port == Some(62887u32),
        final(config).api.grpc.cors == Some(true),
        final(config).api.grpc.web == Some(true),
        final(config).api.grpc.enabled == Some(true),
        final(config).api.app_grpc.host matches Some(h) && h@ == "0.0.0.0"@,
        final(config).api.app_grpc.port == Some(62997u32),
        final(config).api.pgwire_enabled == Some(true),
        final(config).home_dir matches Some(h) && h@ == temp_dir@,
        final(config).cache_dir matches Some(d) && d@ == temp_dir@ + "/cache"@,
{
    match request {
        RunRequest::Sql { sql, output_tables } => {
            config.sql = Some(sql);
            let ghost names = output_tables.deep_view();
            let mut sinks: Vec<EndpointConfig> = Vec::new();
            let mut i: usize = 0;
            while i < output_tables.len()
                invariant
                    names == output_tables.deep_view(),
                    names.len() == output_tables@.len(),
                    i <= names.len(),
                    sinks@.len() == i,
                    forall|j: int| 0 <= j < i ==> (#[trigger] sinks@[j]).kind is Api,
                    sinks@.map(|_i: int, e: EndpointConfig| e.table_name@) =~= names.take(i as int),
                decreases names.len() - i,
            {
                proof {
                    assert(names[i as int] == output_tables@[i as int]@);
                }
                let ghost prev = sinks@.map(|_i: int, e: EndpointConfig| e.table_name@);
                sinks.push(
                    EndpointConfig {
                        table_name: output_tables[i].clone(),
                        kind: EndpointKind::Api,
                    },
                );
                proof {
                    assert(sinks@.map(|_i: int, e: EndpointConfig| e.table_name@) =~= prev.push(
                        names[i as int],
                    ));
                }
                i = i + 1;
            }
            proof {
                assert(names.take(names.len() as int) =~= names);
            }
            config.sinks = sinks;
        },
        RunRequest::Source(endpoint) => {
            config.sql = None;
            let mut sinks: Vec<EndpointConfig> = Vec::new();
            sinks.push(EndpointConfig { table_name: endpoint, kind: EndpointKind::Api });
            config.sinks = sinks;
        },
        RunRequest::Unspecified => {},
    }
    override_api_config(&mut config.api);
    config.home_dir = Some(temp_dir.clone());
    let mut cache_dir = temp_dir.clone();
    cache_dir.append("/cache");
    config.cache_dir = Some(cache_dir);
}

/// How one output table's log is delivered to the executor: serving and
/// placeholder endpoints carry no payload; external stores carry their
/// connection configuration.
#[derive(Debug)]
pub enum EndpointLogKind {
    Dummy,
    Aerospike(String),
    Clickhouse(String),
    Oracle(String),
}

/// One output table's delivery, as the executor's graph builder takes
/// it.
#[derive(Debug)]
pub struct EndpointLog {
    pub table_name: String,
    pub kind: EndpointLogKind,
}

/// The delivery kind an endpoint maps to.
pub open spec fn log_kind_of(kind: &EndpointKind) -> EndpointLogKind {
    match kind {
        EndpointKind::Api => EndpointLogKind::Dummy,
        EndpointKind::Dummy => EndpointLogKind::Dummy,
        EndpointKind::Aerospike(c) => EndpointLogKind::Aerospike(*c),
        EndpointKind::Clickhouse(c) => EndpointLogKind::Clickhouse(*c),
        EndpointKind::Oracle(c) => EndpointLogKind::Oracle(*c),
    }
}

/// Map the configured sinks onto the executor's endpoint logs; serving
/// endpoints become placeholders, external stores keep their
/// configuration.
pub fn endpoint_logs(sinks: &Vec<EndpointConfig>) -> (r: Vec<EndpointLog>)
    ensures
        r@.len() == sinks@.len(),
        forall|i: int|
            0 <= i < sinks@.len() ==> (#[trigger] r@[i]).table_name@ == sinks@[i].table_name@
                && match (r@[i].kind, log_kind_of(&sinks@[i].kind)) {
                (EndpointLogKind::Dummy, EndpointLogKind::Dummy) => true,
                (EndpointLogKind::Aerospike(a), EndpointLogKind::Aerospike(b)) => a@ == b@,
                (EndpointLogKind::Clickhouse(a), EndpointLogKind::Clickhouse(b)) => a@ == b@,
                (EndpointLogKind::Oracle(a), EndpointLogKind::Oracle(b)) => a@ == b@,
                _ => false,
            },
{
    let mut r: Vec<EndpointLog> = Vec::new();
    let mut i: usize = 0;
    while i < sinks.len()
        invariant
            i <= sinks@.len(),
            r@.len() == i,
            forall|j: int|
                0 <= j < i ==> (#[trigger] r@[j]).table_name@ == sinks@[j].table_name@ && match (
                r@[j].kind,
                log_kind_of(&sinks@[j].kind),
            ) {
                    (EndpointLogKind::Dummy, EndpointLogKind::Dummy) => true,
                    (EndpointLogKind::Aerospike(a), EndpointLogKind::Aerospike(b)) => a@ == b@,
                    (EndpointLogKind::Clickhouse(a), EndpointLogKind::Clickhouse(b)) => a@ == b@,
                    (EndpointLogKind::Oracle(a), EndpointLogKind::Oracle(b)) => a@ == b@,
                    _ => false,
                },
        decreases sinks@.len() - i,
    {
        let kind = match &sinks[i].kind {
            EndpointKind::Api => EndpointLogKind::Dummy,
            EndpointKind::Dummy => EndpointLogKind::Dummy,
            EndpointKind::Aerospike(c) => EndpointLogKind::Aerospike(c.clone()),
            EndpointKind::Clickhouse(c) => EndpointLogKind::Clickhouse(c.clone()),
            EndpointKind::Oracle(c) => EndpointLogKind::Oracle(c.clone()),
        };
        r.push(EndpointLog { table_name: sinks[i].table_name.clone(), kind });
        i = i + 1;
    }
    r
}

} // verus!
