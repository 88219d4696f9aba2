//! Command-line arguments, and the configuration file that stands in for unset variables.
use crate::catalog::CatalogReconcileReport;
use crate::model::opt_string;
use crate::settings::{env_text, text_setting, EnvValue};
use crate::text::{
    blank,
    decimal,
    decimal_text,
    is_blank,
    is_digit,
    join2,
    lemma_decimal_round_trip,
    lemma_decimal_shape,
    lemma_white_space,
    opt_nat_u64,
    parse_bounded,
    parse_unsigned,
    push_decimal,
    same_text,
    texts,
    trim,
    trim_text,
};
use vstd::prelude::*;
use vstd::string::StringExecFns;

verus! {

// ---------------------------------------------------------------------------
// Arguments in front of a subcommand
// ---------------------------------------------------------------------------

/// What the arguments in front of a subcommand ask for.
#[derive(Debug, Clone, PartialEq, Eq)]
pub enum GlobalArgs {
    Help,
    Run { config_path: Option<String>, rest: Vec<String> },
}

#[verifier::ext_equal]
pub enum GlobalArgsView {
    Help,
    Run { config_path: Option<Seq<char>>, rest: Seq<Seq<char>> },
}

impl View for GlobalArgs {
    type V = GlobalArgsView;

    open spec fn view(&self) -> GlobalArgsView {
        match *self {
            GlobalArgs::Help => GlobalArgsView::Help,
            GlobalArgs::Run { config_path, rest } => GlobalArgsView::Run {
                config_path: opt_string(config_path),
                rest: texts(rest@),
            },
        }
    }
}

/// Reads the arguments from `i` on. The first one that is no option, and all behind it, belong to
/// the subcommand; of several configuration files the last one counts.
pub open spec fn global_args_from(
    args: Seq<Seq<char>>,
    i: int,
    config_path: Option<Seq<char>>,
) -> Result<GlobalArgsView, Seq<char>>
    decreases args.len() - i,
{
    if i >= args.len() {
        Ok(GlobalArgsView::Run { config_path, rest: Seq::empty() })
    } else if args[i] == "--config"@ {
        if i + 1 >= args.len() {
            Err("missing value for --config"@)
        } else {
            global_args_from(args, i + 2, Some(args[i + 1]))
        }
    } else if args[i] == "--help"@ || args[i] == "-h"@ {
        Ok(GlobalArgsView::Help)
    } else {
        Ok(GlobalArgsView::Run { config_path, rest: args.skip(i) })
    }
}

fn copy_from(args: &Vec<String>, from: usize) -> (r: Vec<String>)
    requires
        from <= args@.len(),
    ensures
        texts(r@) == texts(args@).skip(from as int),
{
    let mut r: Vec<String> = Vec::new();
    let mut i: usize = from;
    proof {
        assert(texts(r@) =~= texts(args@).subrange(from as int, from as int));
    }
    while i < args.len()
        invariant
            from <= i <= args@.len(),
            texts(r@) == texts(args@).subrange(from as int, i as int),
        decreases args@.len() - i,
    {
        let ghost before = texts(r@);
        r.push(args[i].clone());
        proof {
            assert(texts(r@) =~= before.push(args@[i as int]@));
            assert(texts(r@) =~= texts(args@).subrange(from as int, i + 1));
        }
        i += 1;
    }
    proof {
        assert(texts(args@).subrange(from as int, args@.len() as int) =~= texts(args@).skip(
            from as int,
        ));
    }
    r
}

pub fn parse_global_args(args: &Vec<String>) -> (r: Result<GlobalArgs, String>)
    ensures
        match r {
            Ok(g) => global_args_from(texts(args@), 0, None) == Ok::<GlobalArgsView, Seq<char>>(g@),
            Err(m) => global_args_from(texts(args@), 0, None) == Err::<GlobalArgsView, Seq<char>>(
                m@,
            ),
        },
{
    let mut config_path: Option<String> = None;
    let mut i: usize = 0;
    while i < args.len()
        invariant
            i <= args@.len(),
            global_args_from(texts(args@), 0, None) == global_args_from(
                texts(args@),
                i as int,
                opt_string(config_path),
            ),
        decreases args@.len() - i,
    {
        let arg = args[i].as_str();
        assert(texts(args@)[i as int] == arg@);
        if same_text(arg, "--config") {
            if i + 1 >= args.len() {
                return Err("missing value for --config".to_owned());
            }
            assert(texts(args@)[i + 1] == args@[i + 1]@);
            config_path = Some(args[i + 1].clone());
            i += 2;
        } else if same_text(arg, "--help") || same_text(arg, "-h") {
            return Ok(GlobalArgs::Help);
        } else {
            let rest = copy_from(args, i);
            return Ok(GlobalArgs::Run { config_path, rest });
        }
    }
    let rest: Vec<String> = Vec::new();
    proof {
        assert(texts(rest@) =~= Seq::empty());
    }
    Ok(GlobalArgs::Run { config_path, rest })
}

/// The configuration file: the one that was asked for, else the one that the environment names.
pub fn resolve_config_path(cli_path: Option<String>, env_path: &EnvValue) -> (r: Option<String>)
    ensures
        opt_string(r) == (match cli_path {
            Some(p) => Some(p@),
            None => text_setting(env_path@),
        }),
{
    match cli_path {
        Some(p) => Some(p),
        None => env_text(env_path),
    }
}

// ---------------------------------------------------------------------------
// Reconciling the catalog
// ---------------------------------------------------------------------------

#[derive(Debug, Clone, Copy, PartialEq, Eq, Structural)]
pub enum ReconcileCatalogArgs {
    Help,
    Run { apply: bool, limit: u32 },
}

/// Reads the arguments from `i` on; a later one outdoes an earlier one.
pub open spec fn reconcile_args_from(
    args: Seq<Seq<char>>,
    i: int,
    apply: bool,
    limit: u32,
) -> Result<ReconcileCatalogArgs, Seq<char>>
    decreases args.len() - i,
{
    if i >= args.len() {
        if limit == 0 {
            Err("--limit must be > 0"@)
        } else {
            Ok(ReconcileCatalogArgs::Run { apply, limit })
        }
    } else if args[i] == "--apply"@ {
        reconcile_args_from(args, i + 1, true, limit)
    } else if args[i] == "--dry-run"@ {
        reconcile_args_from(args, i + 1, false, limit)
    } else if args[i] == "--limit"@ {
        if i + 1 >= args.len() {
            Err("missing value for --limit"@)
        } else {
            match parse_unsigned(args[i + 1], u32::MAX as nat) {
                Some(n) => reconcile_args_from(args, i + 2, apply, n as u32),
                None => Err("invalid --limit value: "@ + args[i + 1]),
            }
        }
    } else if args[i] == "--help"@ || args[i] == "-h"@ {
        Ok(ReconcileCatalogArgs::Help)
    } else {
        Err("unknown reconcile-catalog argument: "@ + args[i])
    }
}

/// Reads the arguments of a reconciliation; `default_limit` comes from the environment, of which
/// the low 32 bits count.
pub fn parse_reconcile_catalog_args(args: &Vec<String>, default_limit: u64) -> (r: Result<
    ReconcileCatalogArgs,
    String,
>)
    ensures
        match r {
            Ok(a) => reconcile_args_from(texts(args@), 0, false, default_limit as u32) == Ok::<
                ReconcileCatalogArgs,
                Seq<char>,
            >(a),
            Err(m) => reconcile_args_from(texts(args@), 0, false, default_limit as u32) == Err::<
                ReconcileCatalogArgs,
                Seq<char>,
            >(m@),
        },
{
    let mut apply = false;
    let mut limit: u32 = #[verifier::truncate]
    (default_limit as u32);
    let mut i: usize = 0;
    while i < args.len()
        invariant
            i <= args@.len(),
            reconcile_args_from(texts(args@), 0, false, default_limit as u32)
                == reconcile_args_from(texts(args@), i as int, apply, limit),
        decreases args@.len() - i,
    {
        let arg = args[i].as_str();
        assert(texts(args@)[i as int] == arg@);
        if same_text(arg, "--apply") {
            apply = true;
            i += 1;
        } else if same_text(arg, "--dry-run") {
            apply = false;
            i += 1;
        } else if same_text(arg, "--limit") {
            if i + 1 >= args.len() {
                return Err("missing value for --limit".to_owned());
            }
            let raw = args[i + 1].as_str();
            assert(texts(args@)[i + 1] == raw@);
            match parse_bounded(raw, 0xffff_ffff) {
                Some(n) => {
                    assert(parse_unsigned(raw@, u32::MAX as nat) == opt_nat_u64(Some(n)));
                    limit = n as u32;
                },
                None => {
                    assert(parse_unsigned(raw@, u32::MAX as nat) == opt_nat_u64(None));
                    return Err(join2("invalid --limit value: ", raw));
                },
            }
            i += 2;
        } else if same_text(arg, "--help") || same_text(arg, "-h") {
            return Ok(ReconcileCatalogArgs::Help);
        } else {
            return Err(join2("unknown reconcile-catalog argument: ", arg));
        }
    }
    if limit == 0 {
        return Err("--limit must be > 0".to_owned());
    }
    Ok(ReconcileCatalogArgs::Run { apply, limit })
}

pub open spec fn reconcile_report_text(r: CatalogReconcileReport) -> Seq<char> {
    "checked_index_workspaces="@ + decimal(r.checked_index_workspaces as nat)
        + " missing_in_catalog="@ + decimal(r.missing_in_catalog as nat)
        + " checked_catalog_workspaces="@ + decimal(r.checked_catalog_workspaces as nat)
        + " stale_in_catalog="@ + decimal(r.stale_in_catalog as nat) + " repaired_added="@
        + decimal(r.repaired_added as nat) + " repaired_deleted="@ + decimal(
        r.repaired_deleted as nat,
    )
}

pub fn format_catalog_reconcile_report(report: &CatalogReconcileReport) -> (r: String)
    ensures
        r@ == reconcile_report_text(*report),
{
    let mut r = "checked_index_workspaces=".to_owned();
    push_decimal(&mut r, report.checked_index_workspaces);
    r.append(" missing_in_catalog=");
    push_decimal(&mut r, report.missing_in_catalog);
    r.append(" checked_catalog_workspaces=");
    push_decimal(&mut r, report.checked_catalog_workspaces);
    r.append(" stale_in_catalog=");
    push_decimal(&mut r, report.stale_in_catalog);
    r.append(" repaired_added=");
    push_decimal(&mut r, report.repaired_added);
    r.append(" repaired_deleted=");
    push_decimal(&mut r, report.repaired_deleted);
    r
}

// ---------------------------------------------------------------------------
// The configuration file
// ---------------------------------------------------------------------------

/// What a configuration file can hold. `credits_per_million_tokens` is the number as text.
#[derive(Debug, Clone, Default)]
pub struct YamlConfig {
    pub content_root: Option<String>,
    pub index_root: Option<String>,
    pub auth_secret: Option<String>,
    pub auth_previous_secrets: Option<Vec<String>>,
    pub allow_local_no_auth: Option<bool>,
    pub enforce_scopes: Option<bool>,
    pub token_ttl_secs: Option<u64>,
    pub grpc_addr: Option<String>,
    pub grpc_unix_socket: Option<String>,
    pub tls_cert_path: Option<String>,
    pub tls_key_path: Option<String>,
    pub tls_client_ca_path: Option<String>,
    pub graceful_shutdown_timeout_secs: Option<u64>,
    pub retention_max_age_secs: Option<u64>,
    pub retention_min_events_per_workspace: Option<u64>,
    pub retention_sweep_interval_secs: Option<u64>,
    pub metrics_log_interval_secs: Option<u64>,
    pub metrics_addr: Option<String>,
    pub catalog_backend: Option<String>,
    pub catalog_db_path: Option<String>,
    pub catalog_postgres_url: Option<String>,
    pub embed_provider: Option<String>,
    pub embed_base_url: Option<String>,
    pub embed_api_key: Option<String>,
    pub embed_model: Option<String>,
    pub embed_timeout_ms: Option<u64>,
    pub embed_document_task: Option<String>,
    pub embed_query_task: Option<String>,
    pub embed_normalized: Option<bool>,
    pub credits_per_million_tokens: Option<String>,
}

/// A variable and the value that it gets where it is unset.
#[derive(Debug, Clone, PartialEq, Eq)]
pub struct EnvDefault {
    pub key: String,
    pub value: String,
}

pub open spec fn env_defaults(v: Seq<EnvDefault>) -> Seq<(Seq<char>, Seq<char>)> {
    v.map_values(|d: EnvDefault| (d.key@, d.value@))
}

/// The default for a variable: none where the value is absent or blank.
pub open spec fn text_default(key: Seq<char>, value: Option<Seq<char>>) -> Seq<
    (Seq<char>, Seq<char>),
> {
    match value {
        Some(v) => if is_blank(v) {
            Seq::empty()
        } else {
            seq![(key, v)]
        },
        None => Seq::empty(),
    }
}

pub open spec fn flag_text(value: Option<bool>) -> Option<Seq<char>> {
    match value {
        Some(b) => Some(
            if b {
                "true"@
            } else {
                "false"@
            },
        ),
        None => None,
    }
}

pub open spec fn number_text(value: Option<u64>) -> Option<Seq<char>> {
    match value {
        Some(n) => Some(decimal(n as nat)),
        None => None,
    }
}

/// The texts that are not blank, trimmed, with commas between them.
pub open spec fn comma_joined(v: Seq<Seq<char>>) -> Seq<char>
    decreases v.len(),
{
    if v.len() == 0 {
        Seq::empty()
    } else {
        let before = comma_joined(v.drop_last());
        let last = trim(v.last());
        if last.len() == 0 {
            before
        } else if before.len() == 0 {
            last
        } else {
            before + seq![','] + last
        }
    }
}

pub open spec fn secrets_text(value: Option<Vec<String>>) -> Option<Seq<char>> {
    match value {
        Some(v) => Some(comma_joined(texts(v@))),
        None => None,
    }
}

/// The defaults that a configuration file gives, in order.
pub open spec fn yaml_defaults(c: YamlConfig) -> Seq<(Seq<char>, Seq<char>)> {
    Seq::<(Seq<char>, Seq<char>)>::empty()
        + text_default("SCRYD_CONTENT_ROOT"@, opt_string(c.content_root))
        + text_default("SCRYD_INDEX_ROOT"@, opt_string(c.index_root))
        + text_default("SCRYD_AUTH_SECRET"@, opt_string(c.auth_secret))
        + text_default("SCRYD_AUTH_PREVIOUS_SECRETS"@, secrets_text(c.auth_previous_secrets))
        + text_default("SCRYD_ALLOW_LOCAL_NO_AUTH"@, flag_text(c.allow_local_no_auth))
        + text_default("SCRYD_AUTH_ENFORCE_SCOPES"@, flag_text(c.enforce_scopes))
        + text_default("SCRYD_AUTH_TOKEN_TTL_SECS"@, number_text(c.token_ttl_secs))
        + text_default("SCRYD_GRPC_ADDR"@, opt_string(c.grpc_addr))
        + text_default("SCRYD_GRPC_UNIX_SOCKET"@, opt_string(c.grpc_unix_socket))
        + text_default("SCRYD_TLS_CERT_PATH"@, opt_string(c.tls_cert_path))
        + text_default("SCRYD_TLS_KEY_PATH"@, opt_string(c.tls_key_path))
        + text_default("SCRYD_TLS_CLIENT_CA_PATH"@, opt_string(c.tls_client_ca_path))
        + text_default(
        "SCRYD_GRACEFUL_SHUTDOWN_TIMEOUT_SECS"@,
        number_text(c.graceful_shutdown_timeout_secs),
    ) + text_default("SCRYD_EVENTS_RETENTION_MAX_AGE_SECS"@, number_text(c.retention_max_age_secs))
        + text_default(
        "SCRYD_EVENTS_RETENTION_MIN_EVENTS_PER_WORKSPACE"@,
        number_text(c.retention_min_events_per_workspace),
    ) + text_default(
        "SCRYD_EVENTS_RETENTION_SWEEP_INTERVAL_SECS"@,
        number_text(c.retention_sweep_interval_secs),
    ) + text_default("SCRYD_METRICS_LOG_INTERVAL_SECS"@, number_text(c.metrics_log_interval_secs))
        + text_default("SCRYD_METRICS_ADDR"@, opt_string(c.metrics_addr)) + text_default(
        "SCRYD_CATALOG_BACKEND"@,
        opt_string(c.catalog_backend),
    ) + text_default("SCRYD_CATALOG_DB_PATH"@, opt_string(c.catalog_db_path)) + text_default(
        "SCRYD_CATALOG_POSTGRES_URL"@,
        opt_string(c.catalog_postgres_url),
    ) + text_default("SCRYD_EMBED_PROVIDER"@, opt_string(c.embed_provider)) + text_default(
        "SCRYD_EMBED_BASE_URL"@,
        opt_string(c.embed_base_url),
    ) + text_default("SCRYD_EMBED_API_KEY"@, opt_string(c.embed_api_key)) + text_default(
        "SCRYD_EMBED_MODEL"@,
        opt_string(c.embed_model),
    ) + text_default("SCRYD_EMBED_TIMEOUT_MS"@, number_text(c.embed_timeout_ms)) + text_default(
        "SCRYD_EMBED_DOCUMENT_TASK"@,
        opt_string(c.embed_document_task),
    ) + text_default("SCRYD_EMBED_QUERY_TASK"@, opt_string(c.embed_query_task)) + text_default(
        "SCRYD_EMBED_NORMALIZED"@,
        flag_text(c.embed_normalized),
    ) + text_default(
        "SCRYD_EMBED_CREDITS_PER_MILLION_TOKENS"@,
        opt_string(c.credits_per_million_tokens),
    )
}

fn push_text(out: &mut Vec<EnvDefault>, key: &str, value: &Option<String>)
    ensures
        env_defaults(final(out)@) == env_defaults(old(out)@) + text_default(
            key@,
            opt_string(*value),
        ),
{
    let ghost before = env_defaults(out@);
    match value {
        Some(v) => {
            if !blank(v.as_str()) {
                out.push(EnvDefault { key: key.to_owned(), value: v.clone() });
                proof {
                    assert(env_defaults(out@) =~= before + seq![(key@, v@)]);
                }
                return;
            }
        },
        None => {},
    }
    proof {
        assert(before + Seq::empty() =~= before);
    }
}

fn push_flag(out: &mut Vec<EnvDefault>, key: &str, value: Option<bool>)
    ensures
        env_defaults(final(out)@) == env_defaults(old(out)@) + text_default(key@, flag_text(value)),
{
    match value {
        Some(b) => {
            if b {
                push_text(out, key, &Some("true".to_owned()));
            } else {
                push_text(out, key, &Some("false".to_owned()));
            }
        },
        None => {
            push_text(out, key, &None);
        },
    }
}

fn push_number(out: &mut Vec<EnvDefault>, key: &str, value: Option<u64>)
    ensures
        env_defaults(final(out)@) == env_defaults(old(out)@) + text_default(
            key@,
            number_text(value),
        ),
{
    match value {
        Some(n) => {
            push_text(out, key, &Some(decimal_text(n)));
        },
        None => {
            push_text(out, key, &None);
        },
    }
}

fn join_secrets(v: &Vec<String>) -> (r: String)
    ensures
        r@ == comma_joined(texts(v@)),
{
    let mut r = String::new();
    let mut i: usize = 0;
    proof {
        assert(texts(v@).take(0) =~= Seq::empty());
    }
    while i < v.len()
        invariant
            i <= v@.len(),
            r@ == comma_joined(texts(v@).take(i as int)),
        decreases v@.len() - i,
    {
        let s = trim_text(v[i].as_str());
        proof {
            assert(texts(v@).take(i + 1).drop_last() =~= texts(v@).take(i as int));
            assert(texts(v@).take(i + 1).last() == v@[i as int]@);
        }
        if !s.as_str().is_empty() {
            if !r.as_str().is_empty() {
                r.push(',');
                proof {
                    let b = comma_joined(texts(v@).take(i as int));
                    assert(r@ =~= b + seq![',']);
                }
            } else {
                proof {
                    assert(r@ + s@ =~= s@);
                }
            }
            r.append(s.as_str());
        }
        i += 1;
    }
    proof {
        assert(texts(v@).take(v@.len() as int) =~= texts(v@));
    }
    r
}

/// The variables that a configuration file sets, each only where the environment does not.
pub fn apply_yaml_to_env(c: &YamlConfig) -> (r: Vec<EnvDefault>)
    ensures
        env_defaults(r@) == yaml_defaults(*c),
{
    let mut out: Vec<EnvDefault> = Vec::new();
    proof {
        assert(env_defaults(out@) =~= Seq::empty());
    }
    push_text(&mut out, "SCRYD_CONTENT_ROOT", &c.content_root);
    push_text(&mut out, "SCRYD_INDEX_ROOT", &c.index_root);
    push_text(&mut out, "SCRYD_AUTH_SECRET", &c.auth_secret);
    let secrets = match &c.auth_previous_secrets {
        Some(v) => Some(join_secrets(v)),
        None => None,
    };
    push_text(&mut out, "SCRYD_AUTH_PREVIOUS_SECRETS", &secrets);
    push_flag(&mut out, "SCRYD_ALLOW_LOCAL_NO_AUTH", c.allow_local_no_auth);
    push_flag(&mut out, "SCRYD_AUTH_ENFORCE_SCOPES", c.enforce_scopes);
    push_number(&mut out, "SCRYD_AUTH_TOKEN_TTL_SECS", c.token_ttl_secs);
    push_text(&mut out, "SCRYD_GRPC_ADDR", &c.grpc_addr);
    push_text(&mut out, "SCRYD_GRPC_UNIX_SOCKET", &c.grpc_unix_socket);
    push_text(&mut out, "SCRYD_TLS_CERT_PATH", &c.tls_cert_path);
    push_text(&mut out, "SCRYD_TLS_KEY_PATH", &c.tls_key_path);
    push_text(&mut out, "SCRYD_TLS_CLIENT_CA_PATH", &c.tls_client_ca_path);
    push_number(
        &mut out,
        "SCRYD_GRACEFUL_SHUTDOWN_TIMEOUT_SECS",
        c.graceful_shutdown_timeout_secs,
    );
    push_number(&mut out, "SCRYD_EVENTS_RETENTION_MAX_AGE_SECS", c.retention_max_age_secs);
    push_number(
        &mut out,
        "SCRYD_EVENTS_RETENTION_MIN_EVENTS_PER_WORKSPACE",
        c.retention_min_events_per_workspace,
    );
    push_number(
        &mut out,
        "SCRYD_EVENTS_RETENTION_SWEEP_INTERVAL_SECS",
        c.retention_sweep_interval_secs,
    );
    push_number(&mut out, "SCRYD_METRICS_LOG_INTERVAL_SECS", c.metrics_log_interval_secs);
    push_text(&mut out, "SCRYD_METRICS_ADDR", &c.metrics_addr);
    push_text(&mut out, "SCRYD_CATALOG_BACKEND", &c.catalog_backend);
    push_text(&mut out, "SCRYD_CATALOG_DB_PATH", &c.catalog_db_path);
    push_text(&mut out, "SCRYD_CATALOG_POSTGRES_URL", &c.catalog_postgres_url);
    push_text(&mut out, "SCRYD_EMBED_PROVIDER", &c.embed_provider);
    push_text(&mut out, "SCRYD_EMBED_BASE_URL", &c.embed_base_url);
    push_text(&mut out, "SCRYD_EMBED_API_KEY", &c.embed_api_key);
    push_text(&mut out, "SCRYD_EMBED_MODEL", &c.embed_model);
    push_number(&mut out, "SCRYD_EMBED_TIMEOUT_MS", c.embed_timeout_ms);
    push_text(&mut out, "SCRYD_EMBED_DOCUMENT_TASK", &c.embed_document_task);
    push_text(&mut out, "SCRYD_EMBED_QUERY_TASK", &c.embed_query_task);
    push_flag(&mut out, "SCRYD_EMBED_NORMALIZED", c.embed_normalized);
    push_text(
        &mut out,
        "SCRYD_EMBED_CREDITS_PER_MILLION_TOKENS",
        &c.credits_per_million_tokens,
    );
    out
}

/// A setting is among the defaults, under its key.
#[verifier::opaque]
pub open spec fn carries(
    defaults: Seq<(Seq<char>, Seq<char>)>,
    key: Seq<char>,
    value: Seq<char>,
) -> bool {
    defaults.contains((key, value))
}

proof fn lemma_default_is_carried(
    before: Seq<(Seq<char>, Seq<char>)>,
    key: Seq<char>,
    value: Option<Seq<char>>,
)
    ensures
        forall|k: Seq<char>, v: Seq<char>| #[trigger]
            carries(before, k, v) ==> carries(before + text_default(key, value), k, v),
        value is Some && !is_blank(value->0) ==> carries(
            before + text_default(key, value),
            key,
            value->0,
        ),
{
    reveal(carries);
    let after = before + text_default(key, value);
    assert forall|k: Seq<char>, v: Seq<char>| #[trigger] carries(before, k, v) implies carries(
        after,
        k,
        v,
    ) by {
        let i = choose|i: int| 0 <= i < before.len() && before[i] == (k, v);
        assert(after[i] == (k, v));
    }
    if value is Some && !is_blank(value->0) {
        assert(after[before.len() as int] == (key, value->0));
    }
}

proof fn lemma_numbers_are_no_blanks(n: u64)
    ensures
        !is_blank(decimal(n as nat)),
{
    lemma_decimal_shape(n as nat);
    assert(is_digit(decimal(n as nat)[0]));
    lemma_white_space(decimal(n as nat)[0]);
}

proof fn lemma_words_are_no_blanks()
    ensures
        !is_blank("true"@),
        !is_blank("false"@),
{
    reveal_strlit("true");
    reveal_strlit("false");
    lemma_white_space('t');
    lemma_white_space('f');
    assert("true"@[0] == 't');
    assert("false"@[0] == 'f');
}

spec fn with_first_settings(c: YamlConfig, before: Seq<(Seq<char>, Seq<char>)>) -> Seq<
    (Seq<char>, Seq<char>),
> {
    before
        + text_default("SCRYD_CONTENT_ROOT"@, opt_string(c.content_root))
        + text_default("SCRYD_INDEX_ROOT"@, opt_string(c.index_root))
        + text_default("SCRYD_AUTH_SECRET"@, opt_string(c.auth_secret))
        + text_default("SCRYD_AUTH_PREVIOUS_SECRETS"@, secrets_text(c.auth_previous_secrets))
        + text_default("SCRYD_ALLOW_LOCAL_NO_AUTH"@, flag_text(c.allow_local_no_auth))
        + text_default("SCRYD_AUTH_ENFORCE_SCOPES"@, flag_text(c.enforce_scopes))
}

proof fn lemma_first_settings(c: YamlConfig, before: Seq<(Seq<char>, Seq<char>)>)
    ensures
        forall|k: Seq<char>, v: Seq<char>| #[trigger]
            carries(before, k, v) ==> carries(with_first_settings(c, before), k, v),
        c.content_root is Some && !is_blank(c.content_root->0@) ==> carries(
            with_first_settings(c, before),
            "SCRYD_CONTENT_ROOT"@,
            c.content_root->0@,
        ),
        c.index_root is Some && !is_blank(c.index_root->0@) ==> carries(
            with_first_settings(c, before),
            "SCRYD_INDEX_ROOT"@,
            c.index_root->0@,
        ),
        c.auth_secret is Some && !is_blank(c.auth_secret->0@) ==> carries(
            with_first_settings(c, before),
            "SCRYD_AUTH_SECRET"@,
            c.auth_secret->0@,
        ),
        c.auth_previous_secrets is Some && !is_blank(comma_joined(texts(c.auth_previous_secrets->0@))) ==> carries(
            with_first_settings(c, before),
            "SCRYD_AUTH_PREVIOUS_SECRETS"@,
            comma_joined(texts(c.auth_previous_secrets->0@)),
        ),
        c.allow_local_no_auth == Some(true) ==> carries(
            with_first_settings(c, before),
            "SCRYD_ALLOW_LOCAL_NO_AUTH"@,
            "true"@,
        ),
        c.allow_local_no_auth == Some(false) ==> carries(
            with_first_settings(c, before),
            "SCRYD_ALLOW_LOCAL_NO_AUTH"@,
            "false"@,
        ),
        c.enforce_scopes == Some(true) ==> carries(
            with_first_settings(c, before),
            "SCRYD_AUTH_ENFORCE_SCOPES"@,
            "true"@,
        ),
        c.enforce_scopes == Some(false) ==> carries(
            with_first_settings(c, before),
            "SCRYD_AUTH_ENFORCE_SCOPES"@,
            "false"@,
        ),
{
    lemma_words_are_no_blanks();
    lemma_default_is_carried(before, "SCRYD_CONTENT_ROOT"@, opt_string(c.content_root));
    let t1 = before + text_default("SCRYD_CONTENT_ROOT"@, opt_string(c.content_root));
    lemma_default_is_carried(t1, "SCRYD_INDEX_ROOT"@, opt_string(c.index_root));
    let t2 = t1 + text_default("SCRYD_INDEX_ROOT"@, opt_string(c.index_root));
    lemma_default_is_carried(t2, "SCRYD_AUTH_SECRET"@, opt_string(c.auth_secret));
    let t3 = t2 + text_default("SCRYD_AUTH_SECRET"@, opt_string(c.auth_secret));
    lemma_default_is_carried(
        t3,
        "SCRYD_AUTH_PREVIOUS_SECRETS"@,
        secrets_text(c.auth_previous_secrets),
    );
    let t4 = t3 + text_default(
        "SCRYD_AUTH_PREVIOUS_SECRETS"@,
        secrets_text(c.auth_previous_secrets),
    );
    lemma_default_is_carried(t4, "SCRYD_ALLOW_LOCAL_NO_AUTH"@, flag_text(c.allow_local_no_auth));
    let t5 = t4 + text_default("SCRYD_ALLOW_LOCAL_NO_AUTH"@, flag_text(c.allow_local_no_auth));
    lemma_default_is_carried(t5, "SCRYD_AUTH_ENFORCE_SCOPES"@, flag_text(c.enforce_scopes));
    let t6 = t5 + text_default("SCRYD_AUTH_ENFORCE_SCOPES"@, flag_text(c.enforce_scopes));
}

spec fn with_second_settings(c: YamlConfig, before: Seq<(Seq<char>, Seq<char>)>) -> Seq<
    (Seq<char>, Seq<char>),
> {
    before
        + text_default("SCRYD_AUTH_TOKEN_TTL_SECS"@, number_text(c.token_ttl_secs))
        + text_default("SCRYD_GRPC_ADDR"@, opt_string(c.grpc_addr))
        + text_default("SCRYD_GRPC_UNIX_SOCKET"@, opt_string(c.grpc_unix_socket))
        + text_default("SCRYD_TLS_CERT_PATH"@, opt_string(c.tls_cert_path))
        + text_default("SCRYD_TLS_KEY_PATH"@, opt_string(c.tls_key_path))
        + text_default("SCRYD_TLS_CLIENT_CA_PATH"@, opt_string(c.tls_client_ca_path))
}

proof fn lemma_second_settings(c: YamlConfig, before: Seq<(Seq<char>, Seq<char>)>)
    ensures
        forall|k: Seq<char>, v: Seq<char>| #[trigger]
            carries(before, k, v) ==> carries(with_second_settings(c, before), k, v),
        c.token_ttl_secs is Some ==> carries(
            with_second_settings(c, before),
            "SCRYD_AUTH_TOKEN_TTL_SECS"@,
            decimal(c.token_ttl_secs->0 as nat),
        ),
        c.grpc_addr is Some && !is_blank(c.grpc_addr->0@) ==> carries(
            with_second_settings(c, before),
            "SCRYD_GRPC_ADDR"@,
            c.grpc_addr->0@,
        ),
        c.grpc_unix_socket is Some && !is_blank(c.grpc_unix_socket->0@) ==> carries(
            with_second_settings(c, before),
            "SCRYD_GRPC_UNIX_SOCKET"@,
            c.grpc_unix_socket->0@,
        ),
        c.tls_cert_path is Some && !is_blank(c.tls_cert_path->0@) ==> carries(
            with_second_settings(c, before),
            "SCRYD_TLS_CERT_PATH"@,
            c.tls_cert_path->0@,
        ),
        c.tls_key_path is Some && !is_blank(c.tls_key_path->0@) ==> carries(
            with_second_settings(c, before),
            "SCRYD_TLS_KEY_PATH"@,
            c.tls_key_path->0@,
        ),
        c.tls_client_ca_path is Some && !is_blank(c.tls_client_ca_path->0@) ==> carries(
            with_second_settings(c, before),
            "SCRYD_TLS_CLIENT_CA_PATH"@,
            c.tls_client_ca_path->0@,
        ),
{
    lemma_default_is_carried(before, "SCRYD_AUTH_TOKEN_TTL_SECS"@, number_text(c.token_ttl_secs));
    let t1 = before + text_default("SCRYD_AUTH_TOKEN_TTL_SECS"@, number_text(c.token_ttl_secs));
    if c.token_ttl_secs is Some {
        lemma_numbers_are_no_blanks(c.token_ttl_secs->0);
    }
    lemma_default_is_carried(t1, "SCRYD_GRPC_ADDR"@, opt_string(c.grpc_addr));
    let t2 = t1 + text_default("SCRYD_GRPC_ADDR"@, opt_string(c.grpc_addr));
    lemma_default_is_carried(t2, "SCRYD_GRPC_UNIX_SOCKET"@, opt_string(c.grpc_unix_socket));
    let t3 = t2 + text_default("SCRYD_GRPC_UNIX_SOCKET"@, opt_string(c.grpc_unix_socket));
    lemma_default_is_carried(t3, "SCRYD_TLS_CERT_PATH"@, opt_string(c.tls_cert_path));
    let t4 = t3 + text_default("SCRYD_TLS_CERT_PATH"@, opt_string(c.tls_cert_path));
    lemma_default_is_carried(t4, "SCRYD_TLS_KEY_PATH"@, opt_string(c.tls_key_path));
    let t5 = t4 + text_default("SCRYD_TLS_KEY_PATH"@, opt_string(c.tls_key_path));
    lemma_default_is_carried(t5, "SCRYD_TLS_CLIENT_CA_PATH"@, opt_string(c.tls_client_ca_path));
    let t6 = t5 + text_default("SCRYD_TLS_CLIENT_CA_PATH"@, opt_string(c.tls_client_ca_path));
}

spec fn with_third_settings(c: YamlConfig, before: Seq<(Seq<char>, Seq<char>)>) -> Seq<
    (Seq<char>, Seq<char>),
> {
    before
        + text_default(
        "SCRYD_GRACEFUL_SHUTDOWN_TIMEOUT_SECS"@,
        number_text(c.graceful_shutdown_timeout_secs),
    )
        + text_default(
        "SCRYD_EVENTS_RETENTION_MAX_AGE_SECS"@,
        number_text(c.retention_max_age_secs),
    )
        + text_default(
        "SCRYD_EVENTS_RETENTION_MIN_EVENTS_PER_WORKSPACE"@,
        number_text(c.retention_min_events_per_workspace),
    )
        + text_default(
        "SCRYD_EVENTS_RETENTION_SWEEP_INTERVAL_SECS"@,
        number_text(c.retention_sweep_interval_secs),
    )
        + text_default("SCRYD_METRICS_LOG_INTERVAL_SECS"@, number_text(c.metrics_log_interval_secs))
        + text_default("SCRYD_METRICS_ADDR"@, opt_string(c.metrics_addr))
}

proof fn lemma_third_settings(c: YamlConfig, before: Seq<(Seq<char>, Seq<char>)>)
    ensures
        forall|k: Seq<char>, v: Seq<char>| #[trigger]
            carries(before, k, v) ==> carries(with_third_settings(c, before), k, v),
        c.graceful_shutdown_timeout_secs is Some ==> carries(
            with_third_settings(c, before),
            "SCRYD_GRACEFUL_SHUTDOWN_TIMEOUT_SECS"@,
            decimal(c.graceful_shutdown_timeout_secs->0 as nat),
        ),
        c.retention_max_age_secs is Some ==> carries(
            with_third_settings(c, before),
            "SCRYD_EVENTS_RETENTION_MAX_AGE_SECS"@,
            decimal(c.retention_max_age_secs->0 as nat),
        ),
        c.retention_min_events_per_workspace is Some ==> carries(
            with_third_settings(c, before),
            "SCRYD_EVENTS_RETENTION_MIN_EVENTS_PER_WORKSPACE"@,
            decimal(c.retention_min_events_per_workspace->0 as nat),
        ),
        c.retention_sweep_interval_secs is Some ==> carries(
            with_third_settings(c, before),
            "SCRYD_EVENTS_RETENTION_SWEEP_INTERVAL_SECS"@,
            decimal(c.retention_sweep_interval_secs->0 as nat),
        ),
        c.metrics_log_interval_secs is Some ==> carries(
            with_third_settings(c, before),
            "SCRYD_METRICS_LOG_INTERVAL_SECS"@,
            decimal(c.metrics_log_interval_secs->0 as nat),
        ),
        c.metrics_addr is Some && !is_blank(c.metrics_addr->0@) ==> carries(
            with_third_settings(c, before),
            "SCRYD_METRICS_ADDR"@,
            c.metrics_addr->0@,
        ),
{
    lemma_default_is_carried(
        before,
        "SCRYD_GRACEFUL_SHUTDOWN_TIMEOUT_SECS"@,
        number_text(c.graceful_shutdown_timeout_secs),
    );
    let t1 = before + text_default(
        "SCRYD_GRACEFUL_SHUTDOWN_TIMEOUT_SECS"@,
        number_text(c.graceful_shutdown_timeout_secs),
    );
    if c.graceful_shutdown_timeout_secs is Some {
        lemma_numbers_are_no_blanks(c.graceful_shutdown_timeout_secs->0);
    }
    lemma_default_is_carried(
        t1,
        "SCRYD_EVENTS_RETENTION_MAX_AGE_SECS"@,
        number_text(c.retention_max_age_secs),
    );
    let t2 = t1 + text_default(
        "SCRYD_EVENTS_RETENTION_MAX_AGE_SECS"@,
        number_text(c.retention_max_age_secs),
    );
    if c.retention_max_age_secs is Some {
        lemma_numbers_are_no_blanks(c.retention_max_age_secs->0);
    }
    lemma_default_is_carried(
        t2,
        "SCRYD_EVENTS_RETENTION_MIN_EVENTS_PER_WORKSPACE"@,
        number_text(c.retention_min_events_per_workspace),
    );
    let t3 = t2 + text_default(
        "SCRYD_EVENTS_RETENTION_MIN_EVENTS_PER_WORKSPACE"@,
        number_text(c.retention_min_events_per_workspace),
    );
    if c.retention_min_events_per_workspace is Some {
        lemma_numbers_are_no_blanks(c.retention_min_events_per_workspace->0);
    }
    lemma_default_is_carried(
        t3,
        "SCRYD_EVENTS_RETENTION_SWEEP_INTERVAL_SECS"@,
        number_text(c.retention_sweep_interval_secs),
    );
    let t4 = t3 + text_default(
        "SCRYD_EVENTS_RETENTION_SWEEP_INTERVAL_SECS"@,
        number_text(c.retention_sweep_interval_secs),
    );
    if c.retention_sweep_interval_secs is Some {
        lemma_numbers_are_no_blanks(c.retention_sweep_interval_secs->0);
    }
    lemma_default_is_carried(
        t4,
        "SCRYD_METRICS_LOG_INTERVAL_SECS"@,
        number_text(c.metrics_log_interval_secs),
    );
    let t5 = t4 + text_default(
        "SCRYD_METRICS_LOG_INTERVAL_SECS"@,
        number_text(c.metrics_log_interval_secs),
    );
    if c.metrics_log_interval_secs is Some {
        lemma_numbers_are_no_blanks(c.metrics_log_interval_secs->0);
    }
    lemma_default_is_carried(t5, "SCRYD_METRICS_ADDR"@, opt_string(c.metrics_addr));
    let t6 = t5 + text_default("SCRYD_METRICS_ADDR"@, opt_string(c.metrics_addr));
}

spec fn with_fourth_settings(c: YamlConfig, before: Seq<(Seq<char>, Seq<char>)>) -> Seq<
    (Seq<char>, Seq<char>),
> {
    before
        + text_default("SCRYD_CATALOG_BACKEND"@, opt_string(c.catalog_backend))
        + text_default("SCRYD_CATALOG_DB_PATH"@, opt_string(c.catalog_db_path))
        + text_default("SCRYD_CATALOG_POSTGRES_URL"@, opt_string(c.catalog_postgres_url))
        + text_default("SCRYD_EMBED_PROVIDER"@, opt_string(c.embed_provider))
        + text_default("SCRYD_EMBED_BASE_URL"@, opt_string(c.embed_base_url))
        + text_default("SCRYD_EMBED_API_KEY"@, opt_string(c.embed_api_key))
}

proof fn lemma_fourth_settings(c: YamlConfig, before: Seq<(Seq<char>, Seq<char>)>)
    ensures
        forall|k: Seq<char>, v: Seq<char>| #[trigger]
            carries(before, k, v) ==> carries(with_fourth_settings(c, before), k, v),
        c.catalog_backend is Some && !is_blank(c.catalog_backend->0@) ==> carries(
            with_fourth_settings(c, before),
            "SCRYD_CATALOG_BACKEND"@,
            c.catalog_backend->0@,
        ),
        c.catalog_db_path is Some && !is_blank(c.catalog_db_path->0@) ==> carries(
            with_fourth_settings(c, before),
            "SCRYD_CATALOG_DB_PATH"@,
            c.catalog_db_path->0@,
        ),
        c.catalog_postgres_url is Some && !is_blank(c.catalog_postgres_url->0@) ==> carries(
            with_fourth_settings(c, before),
            "SCRYD_CATALOG_POSTGRES_URL"@,
            c.catalog_postgres_url->0@,
        ),
        c.embed_provider is Some && !is_blank(c.embed_provider->0@) ==> carries(
            with_fourth_settings(c, before),
            "SCRYD_EMBED_PROVIDER"@,
            c.embed_provider->0@,
        ),
        c.embed_base_url is Some && !is_blank(c.embed_base_url->0@) ==> carries(
            with_fourth_settings(c, before),
            "SCRYD_EMBED_BASE_URL"@,
            c.embed_base_url->0@,
        ),
        c.embed_api_key is Some && !is_blank(c.embed_api_key->0@) ==> carries(
            with_fourth_settings(c, before),
            "SCRYD_EMBED_API_KEY"@,
            c.embed_api_key->0@,
        ),
{
    lemma_default_is_carried(before, "SCRYD_CATALOG_BACKEND"@, opt_string(c.catalog_backend));
    let t1 = before + text_default("SCRYD_CATALOG_BACKEND"@, opt_string(c.catalog_backend));
    lemma_default_is_carried(t1, "SCRYD_CATALOG_DB_PATH"@, opt_string(c.catalog_db_path));
    let t2 = t1 + text_default("SCRYD_CATALOG_DB_PATH"@, opt_string(c.catalog_db_path));
    lemma_default_is_carried(t2, "SCRYD_CATALOG_POSTGRES_URL"@, opt_string(c.catalog_postgres_url));
    let t3 = t2 + text_default("SCRYD_CATALOG_POSTGRES_URL"@, opt_string(c.catalog_postgres_url));
    lemma_default_is_carried(t3, "SCRYD_EMBED_PROVIDER"@, opt_string(c.embed_provider));
    let t4 = t3 + text_default("SCRYD_EMBED_PROVIDER"@, opt_string(c.embed_provider));
    lemma_default_is_carried(t4, "SCRYD_EMBED_BASE_URL"@, opt_string(c.embed_base_url));
    let t5 = t4 + text_default("SCRYD_EMBED_BASE_URL"@, opt_string(c.embed_base_url));
    lemma_default_is_carried(t5, "SCRYD_EMBED_API_KEY"@, opt_string(c.embed_api_key));
    let t6 = t5 + text_default("SCRYD_EMBED_API_KEY"@, opt_string(c.embed_api_key));
}

spec fn with_fifth_settings(c: YamlConfig, before: Seq<(Seq<char>, Seq<char>)>) -> Seq<
    (Seq<char>, Seq<char>),
> {
    before
        + text_default("SCRYD_EMBED_MODEL"@, opt_string(c.embed_model))
        + text_default("SCRYD_EMBED_TIMEOUT_MS"@, number_text(c.embed_timeout_ms))
        + text_default("SCRYD_EMBED_DOCUMENT_TASK"@, opt_string(c.embed_document_task))
        + text_default("SCRYD_EMBED_QUERY_TASK"@, opt_string(c.embed_query_task))
        + text_default("SCRYD_EMBED_NORMALIZED"@, flag_text(c.embed_normalized))
        + text_default(
        "SCRYD_EMBED_CREDITS_PER_MILLION_TOKENS"@,
        opt_string(c.credits_per_million_tokens),
    )
}

proof fn lemma_fifth_settings(c: YamlConfig, before: Seq<(Seq<char>, Seq<char>)>)
    ensures
        forall|k: Seq<char>, v: Seq<char>| #[trigger]
            carries(before, k, v) ==> carries(with_fifth_settings(c, before), k, v),
        c.embed_model is Some && !is_blank(c.embed_model->0@) ==> carries(
            with_fifth_settings(c, before),
            "SCRYD_EMBED_MODEL"@,
            c.embed_model->0@,
        ),
        c.embed_timeout_ms is Some ==> carries(
            with_fifth_settings(c, before),
            "SCRYD_EMBED_TIMEOUT_MS"@,
            decimal(c.embed_timeout_ms->0 as nat),
        ),
        c.embed_document_task is Some && !is_blank(c.embed_document_task->0@) ==> carries(
            with_fifth_settings(c, before),
            "SCRYD_EMBED_DOCUMENT_TASK"@,
            c.embed_document_task->0@,
        ),
        c.embed_query_task is Some && !is_blank(c.embed_query_task->0@) ==> carries(
            with_fifth_settings(c, before),
            "SCRYD_EMBED_QUERY_TASK"@,
            c.embed_query_task->0@,
        ),
        c.embed_normalized == Some(true) ==> carries(
            with_fifth_settings(c, before),
            "SCRYD_EMBED_NORMALIZED"@,
            "true"@,
        ),
        c.embed_normalized == Some(false) ==> carries(
            with_fifth_settings(c, before),
            "SCRYD_EMBED_NORMALIZED"@,
            "false"@,
        ),
        c.credits_per_million_tokens is Some && !is_blank(c.credits_per_million_tokens->0@) ==> carries(
            with_fifth_settings(c, before),
            "SCRYD_EMBED_CREDITS_PER_MILLION_TOKENS"@,
            c.credits_per_million_tokens->0@,
        ),
{
    lemma_words_are_no_blanks();
    lemma_default_is_carried(before, "SCRYD_EMBED_MODEL"@, opt_string(c.embed_model));
    let t1 = before + text_default("SCRYD_EMBED_MODEL"@, opt_string(c.embed_model));
    lemma_default_is_carried(t1, "SCRYD_EMBED_TIMEOUT_MS"@, number_text(c.embed_timeout_ms));
    let t2 = t1 + text_default("SCRYD_EMBED_TIMEOUT_MS"@, number_text(c.embed_timeout_ms));
    if c.embed_timeout_ms is Some {
        lemma_numbers_are_no_blanks(c.embed_timeout_ms->0);
    }
    lemma_default_is_carried(t2, "SCRYD_EMBED_DOCUMENT_TASK"@, opt_string(c.embed_document_task));
    let t3 = t2 + text_default("SCRYD_EMBED_DOCUMENT_TASK"@, opt_string(c.embed_document_task));
    lemma_default_is_carried(t3, "SCRYD_EMBED_QUERY_TASK"@, opt_string(c.embed_query_task));
    let t4 = t3 + text_default("SCRYD_EMBED_QUERY_TASK"@, opt_string(c.embed_query_task));
    lemma_default_is_carried(t4, "SCRYD_EMBED_NORMALIZED"@, flag_text(c.embed_normalized));
    let t5 = t4 + text_default("SCRYD_EMBED_NORMALIZED"@, flag_text(c.embed_normalized));
    lemma_default_is_carried(
        t5,
        "SCRYD_EMBED_CREDITS_PER_MILLION_TOKENS"@,
        opt_string(c.credits_per_million_tokens),
    );
    let t6 = t5 + text_default(
        "SCRYD_EMBED_CREDITS_PER_MILLION_TOKENS"@,
        opt_string(c.credits_per_million_tokens),
    );
}

/// What a file of settings holds is carried over under the name of each setting: texts as they are,
/// numbers in digits, switches by their word, and a list as one text.
pub proof fn lemma_settings_are_carried_over(c: YamlConfig)
    ensures
        c.content_root is Some && !is_blank(c.content_root->0@) ==> carries(
            yaml_defaults(c),
            "SCRYD_CONTENT_ROOT"@,
            c.content_root->0@,
        ),
        c.index_root is Some && !is_blank(c.index_root->0@) ==> carries(
            yaml_defaults(c),
            "SCRYD_INDEX_ROOT"@,
            c.index_root->0@,
        ),
        c.auth_secret is Some && !is_blank(c.auth_secret->0@) ==> carries(
            yaml_defaults(c),
            "SCRYD_AUTH_SECRET"@,
            c.auth_secret->0@,
        ),
        c.auth_previous_secrets is Some && !is_blank(comma_joined(texts(c.auth_previous_secrets->0@))) ==> carries(
            yaml_defaults(c),
            "SCRYD_AUTH_PREVIOUS_SECRETS"@,
            comma_joined(texts(c.auth_previous_secrets->0@)),
        ),
        c.allow_local_no_auth == Some(true) ==> carries(
            yaml_defaults(c),
            "SCRYD_ALLOW_LOCAL_NO_AUTH"@,
            "true"@,
        ),
        c.allow_local_no_auth == Some(false) ==> carries(
            yaml_defaults(c),
            "SCRYD_ALLOW_LOCAL_NO_AUTH"@,
            "false"@,
        ),
        c.enforce_scopes == Some(true) ==> carries(
            yaml_defaults(c),
            "SCRYD_AUTH_ENFORCE_SCOPES"@,
            "true"@,
        ),
        c.enforce_scopes == Some(false) ==> carries(
            yaml_defaults(c),
            "SCRYD_AUTH_ENFORCE_SCOPES"@,
            "false"@,
        ),
        c.token_ttl_secs is Some ==> carries(
            yaml_defaults(c),
            "SCRYD_AUTH_TOKEN_TTL_SECS"@,
            decimal(c.token_ttl_secs->0 as nat),
        ),
        c.grpc_addr is Some && !is_blank(c.grpc_addr->0@) ==> carries(
            yaml_defaults(c),
            "SCRYD_GRPC_ADDR"@,
            c.grpc_addr->0@,
        ),
        c.grpc_unix_socket is Some && !is_blank(c.grpc_unix_socket->0@) ==> carries(
            yaml_defaults(c),
            "SCRYD_GRPC_UNIX_SOCKET"@,
            c.grpc_unix_socket->0@,
        ),
        c.tls_cert_path is Some && !is_blank(c.tls_cert_path->0@) ==> carries(
            yaml_defaults(c),
            "SCRYD_TLS_CERT_PATH"@,
            c.tls_cert_path->0@,
        ),
        c.tls_key_path is Some && !is_blank(c.tls_key_path->0@) ==> carries(
            yaml_defaults(c),
            "SCRYD_TLS_KEY_PATH"@,
            c.tls_key_path->0@,
        ),
        c.tls_client_ca_path is Some && !is_blank(c.tls_client_ca_path->0@) ==> carries(
            yaml_defaults(c),
            "SCRYD_TLS_CLIENT_CA_PATH"@,
            c.tls_client_ca_path->0@,
        ),
        c.graceful_shutdown_timeout_secs is Some ==> carries(
            yaml_defaults(c),
            "SCRYD_GRACEFUL_SHUTDOWN_TIMEOUT_SECS"@,
            decimal(c.graceful_shutdown_timeout_secs->0 as nat),
        ),
        c.retention_max_age_secs is Some ==> carries(
            yaml_defaults(c),
            "SCRYD_EVENTS_RETENTION_MAX_AGE_SECS"@,
            decimal(c.retention_max_age_secs->0 as nat),
        ),
        c.retention_min_events_per_workspace is Some ==> carries(
            yaml_defaults(c),
            "SCRYD_EVENTS_RETENTION_MIN_EVENTS_PER_WORKSPACE"@,
            decimal(c.retention_min_events_per_workspace->0 as nat),
        ),
        c.retention_sweep_interval_secs is Some ==> carries(
            yaml_defaults(c),
            "SCRYD_EVENTS_RETENTION_SWEEP_INTERVAL_SECS"@,
            decimal(c.retention_sweep_interval_secs->0 as nat),
        ),
        c.metrics_log_interval_secs is Some ==> carries(
            yaml_defaults(c),
            "SCRYD_METRICS_LOG_INTERVAL_SECS"@,
            decimal(c.metrics_log_interval_secs->0 as nat),
        ),
        c.metrics_addr is Some && !is_blank(c.metrics_addr->0@) ==> carries(
            yaml_defaults(c),
            "SCRYD_METRICS_ADDR"@,
            c.metrics_addr->0@,
        ),
        c.catalog_backend is Some && !is_blank(c.catalog_backend->0@) ==> carries(
            yaml_defaults(c),
            "SCRYD_CATALOG_BACKEND"@,
            c.catalog_backend->0@,
        ),
        c.catalog_db_path is Some && !is_blank(c.catalog_db_path->0@) ==> carries(
            yaml_defaults(c),
            "SCRYD_CATALOG_DB_PATH"@,
            c.catalog_db_path->0@,
        ),
        c.catalog_postgres_url is Some && !is_blank(c.catalog_postgres_url->0@) ==> carries(
            yaml_defaults(c),
            "SCRYD_CATALOG_POSTGRES_URL"@,
            c.catalog_postgres_url->0@,
        ),
        c.embed_provider is Some && !is_blank(c.embed_provider->0@) ==> carries(
            yaml_defaults(c),
            "SCRYD_EMBED_PROVIDER"@,
            c.embed_provider->0@,
        ),
        c.embed_base_url is Some && !is_blank(c.embed_base_url->0@) ==> carries(
            yaml_defaults(c),
            "SCRYD_EMBED_BASE_URL"@,
            c.embed_base_url->0@,
        ),
        c.embed_api_key is Some && !is_blank(c.embed_api_key->0@) ==> carries(
            yaml_defaults(c),
            "SCRYD_EMBED_API_KEY"@,
            c.embed_api_key->0@,
        ),
        c.embed_model is Some && !is_blank(c.embed_model->0@) ==> carries(
            yaml_defaults(c),
            "SCRYD_EMBED_MODEL"@,
            c.embed_model->0@,
        ),
        c.embed_timeout_ms is Some ==> carries(
            yaml_defaults(c),
            "SCRYD_EMBED_TIMEOUT_MS"@,
            decimal(c.embed_timeout_ms->0 as nat),
        ),
        c.embed_document_task is Some && !is_blank(c.embed_document_task->0@) ==> carries(
            yaml_defaults(c),
            "SCRYD_EMBED_DOCUMENT_TASK"@,
            c.embed_document_task->0@,
        ),
        c.embed_query_task is Some && !is_blank(c.embed_query_task->0@) ==> carries(
            yaml_defaults(c),
            "SCRYD_EMBED_QUERY_TASK"@,
            c.embed_query_task->0@,
        ),
        c.embed_normalized == Some(true) ==> carries(
            yaml_defaults(c),
            "SCRYD_EMBED_NORMALIZED"@,
            "true"@,
        ),
        c.embed_normalized == Some(false) ==> carries(
            yaml_defaults(c),
            "SCRYD_EMBED_NORMALIZED"@,
            "false"@,
        ),
        c.credits_per_million_tokens is Some && !is_blank(c.credits_per_million_tokens->0@) ==> carries(
            yaml_defaults(c),
            "SCRYD_EMBED_CREDITS_PER_MILLION_TOKENS"@,
            c.credits_per_million_tokens->0@,
        ),
{
    let t0 = Seq::<(Seq<char>, Seq<char>)>::empty();
    let t1 = with_first_settings(c, t0);
    lemma_first_settings(c, t0);
    let t2 = with_second_settings(c, t1);
    lemma_second_settings(c, t1);
    let t3 = with_third_settings(c, t2);
    lemma_third_settings(c, t2);
    let t4 = with_fourth_settings(c, t3);
    lemma_fourth_settings(c, t3);
    let t5 = with_fifth_settings(c, t4);
    lemma_fifth_settings(c, t4);
    assert(t5 == yaml_defaults(c));
}

/// A list of secrets becomes one text with commas between them; a blank one leaves no trace.
pub proof fn lemma_lists_are_joined(v: Seq<Seq<char>>, s: Seq<char>)
    ensures
        comma_joined(Seq::empty()).len() == 0,
        trim(s).len() == 0 ==> comma_joined(v.push(s)) == comma_joined(v),
        trim(s).len() > 0 && comma_joined(v).len() == 0 ==> comma_joined(v.push(s)) == trim(s),
        trim(s).len() > 0 && comma_joined(v).len() > 0 ==> comma_joined(v.push(s)) == comma_joined(
            v,
        ) + seq![','] + trim(s),
{
    assert(v.push(s).drop_last() =~= v);
}

/// A setting that is not given, or blank, is not carried over.
pub proof fn lemma_blank_settings_are_left_out(key: Seq<char>, v: Seq<char>)
    ensures
        text_default(key, None).len() == 0,
        is_blank(v) ==> text_default(key, Some(v)).len() == 0,
        !is_blank(v) ==> text_default(key, Some(v)) == seq![(key, v)],
        flag_text(None) is None,
        number_text(None) is None,
{
}

/// The file of settings is the last that was named in front of a command, and the command is what
/// follows.
pub proof fn lemma_arguments_in_front(path: Seq<char>, command: Seq<char>, rest: Seq<Seq<char>>)
    requires
        command != "--config"@,
        command != "--help"@,
        command != "-h"@,
    ensures
        global_args_from(seq![command] + rest, 0, None) == Ok::<GlobalArgsView, Seq<char>>(
            GlobalArgsView::Run { config_path: None, rest: seq![command] + rest },
        ),
        global_args_from(seq!["--config"@, path, command] + rest, 0, None) == Ok::<
            GlobalArgsView,
            Seq<char>,
        >(GlobalArgsView::Run { config_path: Some(path), rest: seq![command] + rest }),
        global_args_from(seq!["--config"@], 0, None) == Err::<GlobalArgsView, Seq<char>>(
            "missing value for --config"@,
        ),
        global_args_from(seq!["--config"@, path, "--help"@] + rest, 0, None) == Ok::<
            GlobalArgsView,
            Seq<char>,
        >(GlobalArgsView::Help),
        global_args_from(seq!["-h"@] + rest, 0, None) == Ok::<GlobalArgsView, Seq<char>>(
            GlobalArgsView::Help,
        ),
{
    reveal_strlit("--config");
    reveal_strlit("--help");
    reveal_strlit("-h");
    assert("--config"@.len() == 8 && "--help"@.len() == 6 && "-h"@.len() == 2);
    reveal_with_fuel(global_args_from, 3);
    let a = seq![command] + rest;
    assert(a[0] == command);
    assert(a.skip(0) =~= a);
    let b = seq!["--config"@, path, command] + rest;
    assert(b[0] == "--config"@ && b[1] == path && b[2] == command);
    assert(b.skip(2) =~= seq![command] + rest);
    let c = seq!["--config"@, path, "--help"@] + rest;
    assert(c[0] == "--config"@ && c[1] == path && c[2] == "--help"@);
    let d = seq!["-h"@] + rest;
    assert(d[0] == "-h"@);
}

/// A report tells its six numbers in their order.
pub proof fn lemma_report_tells_all(r: CatalogReconcileReport)
    ensures
        reconcile_report_text(r) == "checked_index_workspaces="@ + decimal(
            r.checked_index_workspaces as nat,
        ) + " missing_in_catalog="@ + decimal(r.missing_in_catalog as nat)
            + " checked_catalog_workspaces="@ + decimal(r.checked_catalog_workspaces as nat)
            + " stale_in_catalog="@ + decimal(r.stale_in_catalog as nat) + " repaired_added="@
            + decimal(r.repaired_added as nat) + " repaired_deleted="@ + decimal(
            r.repaired_deleted as nat,
        ),
{
}

/// A file of settings may be named with no command behind it, and the last that is named counts.
pub proof fn lemma_last_file_counts(path: Seq<char>, other: Seq<char>)
    ensures
        global_args_from(seq!["--config"@, path], 0, None) == Ok::<GlobalArgsView, Seq<char>>(
            GlobalArgsView::Run { config_path: Some(path), rest: Seq::empty() },
        ),
        global_args_from(seq!["--config"@, other, "--config"@, path], 0, None) == Ok::<
            GlobalArgsView,
            Seq<char>,
        >(GlobalArgsView::Run { config_path: Some(path), rest: Seq::empty() }),
        global_args_from(Seq::empty(), 0, None) == Ok::<GlobalArgsView, Seq<char>>(
            GlobalArgsView::Run { config_path: None, rest: Seq::empty() },
        ),
{
    reveal_with_fuel(global_args_from, 3);
}

/// Nothing is repaired unless that is asked for last, and a limit has to be a number above zero.
pub proof fn lemma_reconcile_arguments(n: nat, word: Seq<char>, default_limit: u32)
    requires
        0 < n <= u32::MAX,
        default_limit > 0,
        word != "--apply"@ && word != "--dry-run"@ && word != "--limit"@ && word != "--help"@ && word
            != "-h"@,
    ensures
        reconcile_args_from(Seq::empty(), 0, false, default_limit) == Ok::<
            ReconcileCatalogArgs,
            Seq<char>,
        >(ReconcileCatalogArgs::Run { apply: false, limit: default_limit }),
        reconcile_args_from(seq!["--apply"@], 0, false, default_limit) == Ok::<
            ReconcileCatalogArgs,
            Seq<char>,
        >(ReconcileCatalogArgs::Run { apply: true, limit: default_limit }),
        reconcile_args_from(seq!["--apply"@, "--dry-run"@], 0, false, default_limit) == Ok::<
            ReconcileCatalogArgs,
            Seq<char>,
        >(ReconcileCatalogArgs::Run { apply: false, limit: default_limit }),
        reconcile_args_from(seq!["--limit"@, decimal(n), "--apply"@], 0, false, default_limit)
            == Ok::<ReconcileCatalogArgs, Seq<char>>(
            ReconcileCatalogArgs::Run { apply: true, limit: n as u32 },
        ),
        reconcile_args_from(seq!["--limit"@], 0, false, default_limit) == Err::<
            ReconcileCatalogArgs,
            Seq<char>,
        >("missing value for --limit"@),
        reconcile_args_from(seq!["--limit"@, decimal(0)], 0, false, default_limit) == Err::<
            ReconcileCatalogArgs,
            Seq<char>,
        >("--limit must be > 0"@),
        reconcile_args_from(seq!["--help"@, word], 0, false, default_limit) == Ok::<
            ReconcileCatalogArgs,
            Seq<char>,
        >(ReconcileCatalogArgs::Help),
        reconcile_args_from(seq![word], 0, false, default_limit) == Err::<
            ReconcileCatalogArgs,
            Seq<char>,
        >("unknown reconcile-catalog argument: "@ + word),
{
    reveal_strlit("--apply");
    reveal_strlit("--dry-run");
    reveal_strlit("--limit");
    reveal_strlit("--help");
    assert("--apply"@[2] == 'a' && "--limit"@[2] == 'l' && "--help"@[2] == 'h' && "--dry-run"@[2]
        == 'd');
    reveal_with_fuel(reconcile_args_from, 4);
    lemma_decimal_round_trip(n);
    lemma_decimal_round_trip(0);
    assert(parse_unsigned(decimal(n), u32::MAX as nat) == Some(n));
    assert(parse_unsigned(decimal(0), u32::MAX as nat) == Some(0nat));
}

} // verus!
