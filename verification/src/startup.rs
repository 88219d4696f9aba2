//! What the server does before it serves: it reads its settings, and refuses to start on those
//! that are unsafe or make no sense.
use crate::auth::{auth_from_settings, auth_of, AuthConfig, AuthView};
use crate::catalog::{catalog_config_of, CatalogConfig, CatalogConfigView};
use crate::model::opt_string;
use crate::settings::{
    env_u64_with_default,
    env_usize_with_default,
    events_retention_from_settings,
    metrics_from_settings,
    metrics_of,
    number_setting,
    retention_of,
    transport_from_settings,
    transport_of,
    AddrValue,
    EnvValue,
    EnvView,
    EventsRetentionConfig,
    MetricsConfig,
    TransportConfig,
    TransportEnv,
    TransportView,
    DEFAULT_EVENTS_BUS_CAPACITY,
    DEFAULT_HANDLE_IDLE_TIMEOUT_MS,
    DEFAULT_IO_HANDLE_MEMORY_LIMIT,
};
use vstd::prelude::*;

verus! {

/// The variables that the server is set up from.
#[derive(Debug, Clone)]
pub struct ServerEnv {
    pub transport: TransportEnv,
    pub auth_secret: EnvValue,
    pub dev_mode: EnvValue,
    pub auth_previous_secrets: EnvValue,
    pub allow_local_no_auth: EnvValue,
    pub enforce_scopes: EnvValue,
    pub retention_max_age_secs: EnvValue,
    pub retention_min_events: EnvValue,
    pub retention_sweep_secs: EnvValue,
    pub metrics_log_interval_secs: EnvValue,
    pub metrics_allow_public: EnvValue,
    pub metrics_addr: AddrValue,
    pub index_root: EnvValue,
    pub catalog_backend: EnvValue,
    pub catalog_db_path: EnvValue,
    pub catalog_postgres_url: EnvValue,
    pub events_bus_capacity: EnvValue,
    pub handle_idle_timeout_ms: EnvValue,
    pub io_handle_memory_limit: EnvValue,
    pub io_flush_copy_chunk_bytes: EnvValue,
}

/// The settings that are checked before anything is touched.
#[derive(Debug, Clone)]
pub struct ServerSettings {
    pub transport: TransportConfig,
    pub auth: AuthConfig,
    pub retention: EventsRetentionConfig,
    pub metrics: MetricsConfig,
    pub index_root: String,
    pub catalog: CatalogConfig,
}

#[verifier::ext_equal]
pub struct SettingsView {
    pub transport: TransportView,
    pub auth: AuthView,
    pub retention: (nat, nat, nat),
    pub metrics: (nat, Option<Seq<char>>),
    pub index_root: Seq<char>,
    pub catalog: CatalogConfigView,
}

impl View for ServerSettings {
    type V = SettingsView;

    open spec fn view(&self) -> SettingsView {
        SettingsView {
            transport: self.transport@,
            auth: self.auth@,
            retention: (
                self.retention.max_age_secs as nat,
                self.retention.min_events_per_workspace as nat,
                self.retention.sweep_interval_secs as nat,
            ),
            metrics: (
                self.metrics.log_interval_secs as nat,
                opt_string(self.metrics.endpoint_addr),
            ),
            index_root: self.index_root@,
            catalog: self.catalog@,
        }
    }
}

/// The directory of the indexes has no default.
pub open spec fn index_root_of(v: EnvView) -> Result<Seq<char>, Seq<char>> {
    match v {
        EnvView::Text(root) => Ok(root),
        _ => Err(
            "SCRYD_INDEX_ROOT is required (per-workspace layout is the only supported layout)"@,
        ),
    }
}

impl ServerEnv {
    pub open spec fn transport_result(self, addr: Seq<char>, loopback: bool) -> Result<
        TransportView,
        Seq<char>,
    > {
        transport_of(self.transport, addr, loopback)
    }

    pub open spec fn auth_result(self) -> Result<AuthView, Seq<char>> {
        auth_of(
            self.auth_secret@,
            self.dev_mode@,
            self.auth_previous_secrets@,
            self.allow_local_no_auth@,
            self.enforce_scopes@,
        )
    }

    pub open spec fn retention_result(self) -> Result<(nat, nat, nat), Seq<char>> {
        retention_of(
            self.retention_max_age_secs@,
            self.retention_min_events@,
            self.retention_sweep_secs@,
        )
    }

    pub open spec fn metrics_result(self) -> Result<(nat, Option<Seq<char>>), Seq<char>> {
        metrics_of(self.metrics_log_interval_secs@, self.metrics_allow_public@, self.metrics_addr)
    }

    pub open spec fn catalog_result(self, root: Seq<char>) -> Result<
        CatalogConfigView,
        Seq<char>,
    > {
        catalog_config_of(
            self.catalog_backend@,
            self.catalog_db_path@,
            self.catalog_postgres_url@,
            root,
        )
    }
}

/// The settings, or the first of the complaints: those of the transport come before those of
/// authentication, then come retention, metrics, the directory of the indexes and the catalog.
pub open spec fn settings_of(env: ServerEnv, addr: Seq<char>, loopback: bool) -> Result<
    SettingsView,
    Seq<char>,
> {
    match env.transport_result(addr, loopback) {
        Err(m) => Err(m),
        Ok(transport) => match env.auth_result() {
            Err(m) => Err(m),
            Ok(auth) => match env.retention_result() {
                Err(m) => Err(m),
                Ok(retention) => match env.metrics_result() {
                    Err(m) => Err(m),
                    Ok(metrics) => match index_root_of(env.index_root@) {
                        Err(m) => Err(m),
                        Ok(index_root) => match env.catalog_result(index_root) {
                            Err(m) => Err(m),
                            Ok(catalog) => Ok(
                                SettingsView {
                                    transport,
                                    auth,
                                    retention,
                                    metrics,
                                    index_root,
                                    catalog,
                                },
                            ),
                        },
                    },
                },
            },
        },
    }
}

pub fn read_settings(env: &ServerEnv, default_addr: &str, default_loopback: bool) -> (r: Result<
    ServerSettings,
    String,
>)
    ensures
        match r {
            Ok(s) => settings_of(*env, default_addr@, default_loopback) == Ok::<
                SettingsView,
                Seq<char>,
            >(s@),
            Err(m) => settings_of(*env, default_addr@, default_loopback) == Err::<
                SettingsView,
                Seq<char>,
            >(m@),
        },
{
    let transport = match transport_from_settings(&env.transport, default_addr, default_loopback) {
        Ok(c) => c,
        Err(m) => {
            return Err(m);
        },
    };
    let auth = match auth_from_settings(
        &env.auth_secret,
        &env.dev_mode,
        &env.auth_previous_secrets,
        &env.allow_local_no_auth,
        &env.enforce_scopes,
    ) {
        Ok(c) => c,
        Err(m) => {
            return Err(m);
        },
    };
    let retention = match events_retention_from_settings(
        &env.retention_max_age_secs,
        &env.retention_min_events,
        &env.retention_sweep_secs,
    ) {
        Ok(c) => c,
        Err(m) => {
            return Err(m);
        },
    };
    let metrics = match metrics_from_settings(
        &env.metrics_log_interval_secs,
        &env.metrics_allow_public,
        &env.metrics_addr,
    ) {
        Ok(c) => c,
        Err(m) => {
            return Err(m);
        },
    };
    let index_root = match &env.index_root {
        EnvValue::Text(root) => root.clone(),
        _ => {
            return Err(
                "SCRYD_INDEX_ROOT is required (per-workspace layout is the only supported layout)".to_owned(),
            );
        },
    };
    let catalog = match CatalogConfig::from_settings(
        &env.catalog_backend,
        &env.catalog_db_path,
        &env.catalog_postgres_url,
        index_root.as_str(),
    ) {
        Ok(c) => c,
        Err(m) => {
            return Err(m);
        },
    };
    Ok(ServerSettings { transport, auth, retention, metrics, index_root, catalog })
}

/// How handles and the event bus are run.
#[derive(Debug, Clone, Copy, PartialEq, Eq, Structural)]
pub struct IoSettings {
    pub events_bus_capacity: usize,
    pub handle_idle_timeout_ms: u64,
    pub io_handle_memory_limit: usize,
    pub io_flush_copy_chunk_bytes: usize,
}

/// A number that may not be below `least`; `complaint` is what is said of one that is.
pub open spec fn at_least(value: Result<nat, Seq<char>>, least: nat, complaint: Seq<char>) -> Result<
    nat,
    Seq<char>,
> {
    match value {
        Ok(n) => if n < least {
            Err(complaint)
        } else {
            Ok(n)
        },
        Err(m) => Err(m),
    }
}

pub open spec fn bus_capacity_of(v: EnvView) -> Result<nat, Seq<char>> {
    at_least(
        number_setting(
            "SCRYD_EVENTS_BUS_CAPACITY"@,
            v,
            DEFAULT_EVENTS_BUS_CAPACITY as nat,
            usize::MAX as nat,
        ),
        1,
        "SCRYD_EVENTS_BUS_CAPACITY must be > 0"@,
    )
}

pub open spec fn idle_timeout_of(v: EnvView) -> Result<nat, Seq<char>> {
    number_setting(
        "SCRYD_HANDLE_IDLE_TIMEOUT_MS"@,
        v,
        DEFAULT_HANDLE_IDLE_TIMEOUT_MS as nat,
        u64::MAX as nat,
    )
}

pub open spec fn memory_limit_of(v: EnvView) -> Result<nat, Seq<char>> {
    at_least(
        number_setting(
            "SCRYD_IO_HANDLE_MEMORY_LIMIT"@,
            v,
            DEFAULT_IO_HANDLE_MEMORY_LIMIT as nat,
            usize::MAX as nat,
        ),
        4096,
        "SCRYD_IO_HANDLE_MEMORY_LIMIT must be >= 4096"@,
    )
}

/// Content is written back in pieces that are as large as those that are streamed, unless it is
/// set otherwise.
pub open spec fn flush_chunk_of(v: EnvView, stream_chunk: nat) -> Result<nat, Seq<char>> {
    at_least(
        number_setting("SCRYD_IO_FLUSH_COPY_CHUNK_BYTES"@, v, stream_chunk, usize::MAX as nat),
        8192,
        "SCRYD_IO_FLUSH_COPY_CHUNK_BYTES must be >= 8192"@,
    )
}

/// The four numbers in the order of the fields, or the first complaint in that order.
pub open spec fn io_settings_of(env: ServerEnv, stream_chunk: nat) -> Result<
    (nat, nat, nat, nat),
    Seq<char>,
> {
    match bus_capacity_of(env.events_bus_capacity@) {
        Err(m) => Err(m),
        Ok(bus) => match idle_timeout_of(env.handle_idle_timeout_ms@) {
            Err(m) => Err(m),
            Ok(idle) => match memory_limit_of(env.io_handle_memory_limit@) {
                Err(m) => Err(m),
                Ok(memory) => match flush_chunk_of(env.io_flush_copy_chunk_bytes@, stream_chunk) {
                    Err(m) => Err(m),
                    Ok(chunk) => Ok((bus, idle, memory, chunk)),
                },
            },
        },
    }
}

pub fn read_io_settings(env: &ServerEnv, io_stream_chunk_bytes: usize) -> (r: Result<
    IoSettings,
    String,
>)
    ensures
        match r {
            Ok(s) => io_settings_of(*env, io_stream_chunk_bytes as nat) == Ok::<
                (nat, nat, nat, nat),
                Seq<char>,
            >(
                (
                    s.events_bus_capacity as nat,
                    s.handle_idle_timeout_ms as nat,
                    s.io_handle_memory_limit as nat,
                    s.io_flush_copy_chunk_bytes as nat,
                ),
            ),
            Err(m) => io_settings_of(*env, io_stream_chunk_bytes as nat) == Err::<
                (nat, nat, nat, nat),
                Seq<char>,
            >(m@),
        },
{
    let events_bus_capacity: usize = match env_usize_with_default(
        "SCRYD_EVENTS_BUS_CAPACITY",
        &env.events_bus_capacity,
        DEFAULT_EVENTS_BUS_CAPACITY,
    ) {
        Ok(n) => n,
        Err(m) => {
            return Err(m);
        },
    };
    if events_bus_capacity == 0 {
        return Err("SCRYD_EVENTS_BUS_CAPACITY must be > 0".to_owned());
    }
    let handle_idle_timeout_ms: u64 = match env_u64_with_default(
        "SCRYD_HANDLE_IDLE_TIMEOUT_MS",
        &env.handle_idle_timeout_ms,
        DEFAULT_HANDLE_IDLE_TIMEOUT_MS,
    ) {
        Ok(n) => n,
        Err(m) => {
            return Err(m);
        },
    };
    let io_handle_memory_limit: usize = match env_usize_with_default(
        "SCRYD_IO_HANDLE_MEMORY_LIMIT",
        &env.io_handle_memory_limit,
        DEFAULT_IO_HANDLE_MEMORY_LIMIT,
    ) {
        Ok(n) => n,
        Err(m) => {
            return Err(m);
        },
    };
    if io_handle_memory_limit < 4096 {
        return Err("SCRYD_IO_HANDLE_MEMORY_LIMIT must be >= 4096".to_owned());
    }
    let io_flush_copy_chunk_bytes: usize = match env_usize_with_default(
        "SCRYD_IO_FLUSH_COPY_CHUNK_BYTES",
        &env.io_flush_copy_chunk_bytes,
        io_stream_chunk_bytes,
    ) {
        Ok(n) => n,
        Err(m) => {
            return Err(m);
        },
    };
    if io_flush_copy_chunk_bytes < 8192 {
        return Err("SCRYD_IO_FLUSH_COPY_CHUNK_BYTES must be >= 8192".to_owned());
    }
    Ok(
        IoSettings {
            events_bus_capacity,
            handle_idle_timeout_ms,
            io_handle_memory_limit,
            io_flush_copy_chunk_bytes,
        },
    )
}

/// Where content is kept.
pub fn content_root(v: &EnvValue) -> (r: String)
    ensures
        r@ == match v@ {
            EnvView::Text(root) => root,
            _ => "/tmp/scry/content"@,
        },
{
    match v {
        EnvValue::Text(root) => root.clone(),
        _ => "/tmp/scry/content".to_owned(),
    }
}

/// Which sockets are listened on.
#[derive(Debug, Clone, Copy, PartialEq, Eq, Structural)]
pub enum Listeners {
    Tcp,
    TcpAndUnix,
}

pub fn listeners(transport: &TransportConfig) -> (r: Listeners)
    ensures
        r == Listeners::TcpAndUnix <==> transport@.unix_socket is Some,
{
    if transport.unix_socket.is_some() {
        Listeners::TcpAndUnix
    } else {
        Listeners::Tcp
    }
}

/// Faults come up in the same order whatever else is set: what is said of the transport does not
/// depend on any other setting, and the directory of the indexes is asked for only once transport,
/// authentication, retention and metrics are in order.
pub proof fn lemma_faults_in_order(env: ServerEnv, addr: Seq<char>, loopback: bool)
    ensures
        env.transport_result(addr, loopback) matches Err(m) ==> settings_of(env, addr, loopback)
            == Err::<SettingsView, Seq<char>>(m),
        env.transport_result(addr, loopback) is Ok ==> (env.auth_result() matches Err(m)
            ==> settings_of(env, addr, loopback) == Err::<SettingsView, Seq<char>>(m)),
        settings_of(env, addr, loopback) is Ok ==> env.index_root@ is Text,
        !(env.index_root@ is Text) && env.transport_result(addr, loopback) is Ok
            && env.auth_result() is Ok && env.retention_result() is Ok && env.metrics_result() is Ok
            ==> settings_of(env, addr, loopback) == Err::<SettingsView, Seq<char>>(
            "SCRYD_INDEX_ROOT is required (per-workspace layout is the only supported layout)"@,
        ),
{
}

/// The settings of a server are those of its parts, each read from its own values.
pub proof fn lemma_settings_are_of_their_parts(env: ServerEnv, addr: Seq<char>, loopback: bool)
    requires
        settings_of(env, addr, loopback) is Ok,
    ensures
        ({
            let s = settings_of(env, addr, loopback)->Ok_0;
            &&& transport_of(env.transport, addr, loopback) == Ok::<TransportView, Seq<char>>(
                s.transport,
            )
            &&& auth_of(
                env.auth_secret@,
                env.dev_mode@,
                env.auth_previous_secrets@,
                env.allow_local_no_auth@,
                env.enforce_scopes@,
            ) == Ok::<AuthView, Seq<char>>(s.auth)
            &&& retention_of(
                env.retention_max_age_secs@,
                env.retention_min_events@,
                env.retention_sweep_secs@,
            ) == Ok::<(nat, nat, nat), Seq<char>>(s.retention)
            &&& metrics_of(
                env.metrics_log_interval_secs@,
                env.metrics_allow_public@,
                env.metrics_addr,
            ) == Ok::<(nat, Option<Seq<char>>), Seq<char>>(s.metrics)
            &&& env.index_root@ == EnvView::Text(s.index_root)
            &&& catalog_config_of(
                env.catalog_backend@,
                env.catalog_db_path@,
                env.catalog_postgres_url@,
                s.index_root,
            ) == Ok::<CatalogConfigView, Seq<char>>(s.catalog)
        }),
{
}

/// Where nothing is set, the limits are the defaults, and a content is copied in pieces of the size
/// in which it is streamed; where something is, it is what is set, and not less than is allowed.
pub proof fn lemma_io_settings_are_what_was_set(env: ServerEnv, stream_chunk: nat)
    requires
        io_settings_of(env, stream_chunk) is Ok,
    ensures
        ({
            let (bus, idle, memory, chunk) = io_settings_of(env, stream_chunk)->Ok_0;
            let size = usize::MAX as nat;
            &&& bus >= 1 && memory >= 4096 && chunk >= 8192
            &&& number_setting("SCRYD_EVENTS_BUS_CAPACITY"@, env.events_bus_capacity@, 4096, size)
                == Ok::<nat, Seq<char>>(bus)
            &&& number_setting(
                "SCRYD_HANDLE_IDLE_TIMEOUT_MS"@,
                env.handle_idle_timeout_ms@,
                300000,
                u64::MAX as nat,
            ) == Ok::<nat, Seq<char>>(idle)
            &&& number_setting(
                "SCRYD_IO_HANDLE_MEMORY_LIMIT"@,
                env.io_handle_memory_limit@,
                33554432,
                size,
            ) == Ok::<nat, Seq<char>>(memory)
            &&& number_setting(
                "SCRYD_IO_FLUSH_COPY_CHUNK_BYTES"@,
                env.io_flush_copy_chunk_bytes@,
                stream_chunk,
                size,
            ) == Ok::<nat, Seq<char>>(chunk)
        }),
{
}

/// A limit is refused only where it is less than is allowed, or no number.
pub proof fn lemma_when_limits_are_refused(
    value: Result<nat, Seq<char>>,
    least: nat,
    complaint: Seq<char>,
)
    ensures
        at_least(value, least, complaint) is Ok <==> value is Ok && value->Ok_0 >= least,
        at_least(value, least, complaint) is Ok ==> at_least(value, least, complaint) == value,
        value is Ok && value->Ok_0 < least ==> at_least(value, least, complaint) == Err::<
            nat,
            Seq<char>,
        >(complaint),
{
}

/// A server listens on a socket of the machine only where one is named, and keeps its content where
/// it is told.
pub proof fn lemma_where_a_server_is(
    transport: &TransportConfig,
    l: Listeners,
    root: String,
    given: String,
    usual: String,
)
    requires
        call_ensures(listeners, (transport,), l),
        call_ensures(content_root, (&EnvValue::Text(root),), given),
        call_ensures(content_root, (&EnvValue::Unset,), usual),
    ensures
        transport.unix_socket is Some <==> l == Listeners::TcpAndUnix,
        transport.unix_socket is None <==> l == Listeners::Tcp,
        given@ == root@,
        usual@ == "/tmp/scry/content"@,
{
}

} // verus!
