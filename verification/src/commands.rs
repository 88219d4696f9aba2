//! The commands of the command line: how they are handed on, and what they print.
use crate::args::{reconcile_args_from, ReconcileCatalogArgs};
use crate::auth::{mint_args_from, mint_checked, mint_start, MintRequestView, MintState, TokenKind};
use crate::connection::{bearer, bearer_of, opt_uri, parse_uri, parsed_uri};
use crate::model::{opt_string, WorkspaceStats};
use crate::text::{
    decimal,
    decimal_text,
    join2,
    lemma_decimal_round_trip,
    push_decimal,
    same_text,
    texts,
    trim,
};
use vstd::prelude::*;
use vstd::string::StringExecFns;

verus! {

/// The command that mints a token, as it was given.
#[derive(Debug, Clone, PartialEq, Eq)]
pub struct MintCommand {
    pub kind: Option<String>,
    pub workspace_id: Option<String>,
    pub scope: Option<String>,
    pub ttl_secs: u64,
    pub secret: Option<String>,
}

/// An option and its value, where there is one.
pub open spec fn option_args(flag: Seq<char>, value: Option<Seq<char>>) -> Seq<Seq<char>> {
    match value {
        Some(v) => seq![flag, v],
        None => Seq::empty(),
    }
}

impl MintCommand {
    pub open spec fn as_args(self) -> Seq<Seq<char>> {
        option_args("--kind"@, opt_string(self.kind)) + option_args(
            "--workspace-id"@,
            opt_string(self.workspace_id),
        ) + option_args("--scope"@, opt_string(self.scope)) + seq![
            "--ttl-secs"@,
            decimal(self.ttl_secs as nat),
        ] + option_args("--secret"@, opt_string(self.secret))
    }

    /// What the command sets, starting from `s`.
    pub open spec fn applied(self, s: MintState) -> MintState {
        MintState {
            kind: match self.kind {
                Some(k) => TokenKind::named(trim(k@))->0,
                None => s.kind,
            },
            workspace_id: match self.workspace_id {
                Some(w) => Some(trim(w@)),
                None => s.workspace_id,
            },
            scope: match self.scope {
                Some(x) => trim(x@),
                None => s.scope,
            },
            ttl_secs: self.ttl_secs,
            secret: match self.secret {
                Some(x) => Some(x@),
                None => s.secret,
            },
        }
    }

    pub open spec fn kind_is_known(self) -> bool {
        match self.kind {
            Some(k) => TokenKind::named(trim(k@)) is Some,
            None => true,
        }
    }
}

fn push_option(out: &mut Vec<String>, flag: &str, value: &Option<String>)
    ensures
        texts(final(out)@) == texts(old(out)@) + option_args(flag@, opt_string(*value)),
{
    let ghost before = texts(out@);
    if let Some(v) = value {
        out.push(flag.to_owned());
        out.push(v.clone());
    }
    proof {
        assert(texts(out@) =~= before + option_args(flag@, opt_string(*value)));
    }
}

/// The command as arguments.
pub fn mint_token_args(command: &MintCommand) -> (r: Vec<String>)
    ensures
        texts(r@) == command.as_args(),
{
    let mut out: Vec<String> = Vec::new();
    proof {
        assert(texts(out@) =~= Seq::empty());
    }
    push_option(&mut out, "--kind", &command.kind);
    push_option(&mut out, "--workspace-id", &command.workspace_id);
    push_option(&mut out, "--scope", &command.scope);
    let ghost before = texts(out@);
    out.push("--ttl-secs".to_owned());
    out.push(decimal_text(command.ttl_secs));
    proof {
        assert(texts(out@) =~= before + seq!["--ttl-secs"@, decimal(command.ttl_secs as nat)]);
    }
    push_option(&mut out, "--secret", &command.secret);
    proof {
        assert(texts(out@) =~= command.as_args());
    }
    out
}

proof fn lemma_flags_differ()
    ensures
        "--kind"@ != "--workspace-id"@,
        "--kind"@ != "--scope"@,
        "--kind"@ != "--ttl-secs"@,
        "--kind"@ != "--secret"@,
        "--workspace-id"@ != "--scope"@,
        "--workspace-id"@ != "--ttl-secs"@,
        "--workspace-id"@ != "--secret"@,
        "--scope"@ != "--ttl-secs"@,
        "--scope"@ != "--secret"@,
        "--ttl-secs"@ != "--secret"@,
{
    reveal_strlit("--kind");
    reveal_strlit("--workspace-id");
    reveal_strlit("--scope");
    reveal_strlit("--ttl-secs");
    reveal_strlit("--secret");
    assert("--kind"@[2] == 'k');
    assert("--workspace-id"@[2] == 'w');
    assert("--scope"@[3] == 'c');
    assert("--ttl-secs"@[2] == 't');
    assert("--secret"@[3] == 'e');
    assert("--scope"@[2] == 's');
    assert("--secret"@[2] == 's');
}

/// What the command sets is what its arguments are read as; a kind that there is not is refused.
pub proof fn lemma_mint_command_reads_back(
    command: MintCommand,
    default_ttl_secs: u64,
    env_secret: Option<Seq<char>>,
)
    ensures
        command.kind_is_known() ==> mint_args_from(
            command.as_args(),
            0,
            mint_start(default_ttl_secs),
            env_secret,
        ) == (match mint_checked(command.applied(mint_start(default_ttl_secs)), env_secret) {
            Ok(m) => Ok::<MintRequestView, Seq<char>>(MintRequestView::Mint(m)),
            Err(e) => Err::<MintRequestView, Seq<char>>(e),
        }),
        !command.kind_is_known() ==> mint_args_from(
            command.as_args(),
            0,
            mint_start(default_ttl_secs),
            env_secret,
        ) == Err::<MintRequestView, Seq<char>>("invalid --kind value: "@ + command.kind->0@),
{
    lemma_flags_differ();
    lemma_decimal_round_trip(command.ttl_secs as nat);
    let a = command.as_args();
    let s0 = mint_start(default_ttl_secs);
    let p1 = option_args("--kind"@, opt_string(command.kind));
    let i1 = p1.len() as int;
    let p2 = p1 + option_args("--workspace-id"@, opt_string(command.workspace_id));
    let i2 = p2.len() as int;
    let p3 = p2 + option_args("--scope"@, opt_string(command.scope));
    let i3 = p3.len() as int;
    if command.kind is Some {
        assert(a[0] == "--kind"@);
        assert(a[1] == command.kind->0@);
    }
    if command.kind_is_known() {
        let s1 = MintState { kind: command.applied(s0).kind, ..s0 };
        assert(mint_args_from(a, 0, s0, env_secret) == mint_args_from(a, i1, s1, env_secret));
        let s2 = MintState { workspace_id: command.applied(s0).workspace_id, ..s1 };
        if command.workspace_id is Some {
            assert(a[i1] == "--workspace-id"@);
            assert(a[i1 + 1] == command.workspace_id->0@);
        }
        assert(mint_args_from(a, i1, s1, env_secret) == mint_args_from(a, i2, s2, env_secret));
        let s3 = MintState { scope: command.applied(s0).scope, ..s2 };
        if command.scope is Some {
            assert(a[i2] == "--scope"@);
            assert(a[i2 + 1] == command.scope->0@);
        }
        assert(mint_args_from(a, i2, s2, env_secret) == mint_args_from(a, i3, s3, env_secret));
        let s4 = MintState { ttl_secs: command.ttl_secs, ..s3 };
        assert(a[i3] == "--ttl-secs"@);
        assert(a[i3 + 1] == decimal(command.ttl_secs as nat));
        assert(mint_args_from(a, i3, s3, env_secret) == mint_args_from(a, i3 + 2, s4, env_secret));
        let s5 = command.applied(s0);
        if command.secret is Some {
            assert(a[i3 + 2] == "--secret"@);
            assert(a[i3 + 3] == command.secret->0@);
            assert(mint_args_from(a, i3 + 2, s4, env_secret) == mint_args_from(
                a,
                i3 + 4,
                s5,
                env_secret,
            ));
        }
        assert(s5 == if command.secret is Some {
            MintState { secret: Some(command.secret->0@), ..s4 }
        } else {
            s4
        });
    }
}

pub open spec fn reconcile_command(apply: bool, limit: u32) -> Seq<Seq<char>> {
    seq![
        if apply {
            "--apply"@
        } else {
            "--dry-run"@
        },
        "--limit"@,
        decimal(limit as nat),
    ]
}

/// The command that reconciles the catalog, as arguments.
pub fn reconcile_args(apply: bool, limit: u32) -> (r: Vec<String>)
    ensures
        texts(r@) == reconcile_command(apply, limit),
{
    let mut out: Vec<String> = Vec::new();
    if apply {
        out.push("--apply".to_owned());
    } else {
        out.push("--dry-run".to_owned());
    }
    out.push("--limit".to_owned());
    out.push(decimal_text(limit as u64));
    proof {
        assert(texts(out@) =~= reconcile_command(apply, limit));
    }
    out
}

/// The arguments are read as what was asked for; a limit of none is refused.
pub proof fn lemma_reconcile_reads_back(apply: bool, limit: u32, default_limit: u32)
    ensures
        reconcile_args_from(reconcile_command(apply, limit), 0, false, default_limit) == if limit
            == 0 {
            Err::<ReconcileCatalogArgs, Seq<char>>("--limit must be > 0"@)
        } else {
            Ok::<ReconcileCatalogArgs, Seq<char>>(ReconcileCatalogArgs::Run { apply, limit })
        },
{
    reveal_strlit("--apply");
    reveal_strlit("--dry-run");
    reveal_strlit("--limit");
    assert("--apply"@[2] == 'a');
    assert("--dry-run"@[2] == 'd');
    assert("--limit"@[2] == 'l');
    lemma_decimal_round_trip(limit as nat);
    let a = reconcile_command(apply, limit);
    assert(reconcile_args_from(a, 0, false, default_limit) == reconcile_args_from(
        a,
        1,
        apply,
        default_limit,
    ));
    assert(reconcile_args_from(a, 1, apply, default_limit) == reconcile_args_from(
        a,
        3,
        apply,
        limit,
    ));
}

/// The text of the URI that commands for administration go to, unless an endpoint is given: the
/// address that the server listens on. The connection is encrypted if that is asked for, or if the server
/// has a certificate.
pub fn admin_uri(tcp_addr: &str, tls_asked: bool, has_certificate: bool) -> (r: (String, bool))
    ensures
        r.1 == (tls_asked || has_certificate),
        r.0@ == if tls_asked || has_certificate {
            "https://"@ + tcp_addr@
        } else {
            "http://"@ + tcp_addr@
        },
{
    if tls_asked || has_certificate {
        (join2("https://", tcp_addr), true)
    } else {
        (join2("http://", tcp_addr), false)
    }
}

/// Where commands for administration go to when no endpoint is given: the URI that the address was
/// read as.
pub open spec fn derived_endpoint_of(
    parsed: Option<(Option<Seq<char>>, Seq<char>)>,
    tls: bool,
) -> Result<(Seq<char>, bool), Seq<char>> {
    match parsed {
        Some((_, uri)) => Ok((uri, tls)),
        None => Err("derived admin URI"@),
    }
}

/// Decides by what the text of `admin_uri` was read as.
pub fn admin_derived_endpoint_from(parsed: Option<(Option<String>, String)>, tls: bool) -> (r:
    Result<(String, bool), String>)
    ensures
        match r {
            Ok((uri, t)) => derived_endpoint_of(opt_uri(parsed), tls) == Ok::<
                (Seq<char>, bool),
                Seq<char>,
            >((uri@, t)),
            Err(m) => derived_endpoint_of(opt_uri(parsed), tls) == Err::<
                (Seq<char>, bool),
                Seq<char>,
            >(m@),
        },
{
    match parsed {
        Some((_, uri)) => Ok((uri, tls)),
        None => Err("derived admin URI".to_owned()),
    }
}

/// Derives the endpoint from the address that the server listens on.
pub fn admin_derived_endpoint(tcp_addr: &str, tls_asked: bool, has_certificate: bool) -> (r: Result<
    (String, bool),
    String,
>)
    ensures
        ({
            let tls = tls_asked || has_certificate;
            let text = if tls {
                "https://"@ + tcp_addr@
            } else {
                "http://"@ + tcp_addr@
            };
            match r {
                Ok((uri, t)) => derived_endpoint_of(parsed_uri(text), tls) == Ok::<
                    (Seq<char>, bool),
                    Seq<char>,
                >((uri@, t)),
                Err(m) => derived_endpoint_of(parsed_uri(text), tls) == Err::<
                    (Seq<char>, bool),
                    Seq<char>,
                >(m@),
            }
        }),
{
    let (text, tls) = admin_uri(tcp_addr, tls_asked, has_certificate);
    admin_derived_endpoint_from(parse_uri(text.as_str()), tls)
}

/// Where commands for administration go to when an endpoint is given, and whether the connection is
/// encrypted: if that is asked for, or if the URI says so.
pub open spec fn endpoint_of(
    parsed: Option<(Option<Seq<char>>, Seq<char>)>,
    tls_asked: bool,
) -> Result<(Seq<char>, bool), Seq<char>> {
    match parsed {
        Some((scheme, uri)) => Ok((uri, tls_asked || scheme == Some("https"@))),
        None => Err("invalid --endpoint URI"@),
    }
}

/// Decides on an endpoint by what its text was read as.
pub fn admin_endpoint_from(parsed: Option<(Option<String>, String)>, tls_asked: bool) -> (r: Result<
    (String, bool),
    String,
>)
    ensures
        ({
            let want = endpoint_of(opt_uri(parsed), tls_asked);
            match r {
                Ok((uri, tls)) => want == Ok::<(Seq<char>, bool), Seq<char>>((uri@, tls)),
                Err(m) => want == Err::<(Seq<char>, bool), Seq<char>>(m@),
            }
        }),
{
    match parsed {
        Some((scheme, uri)) => {
            let https = match &scheme {
                Some(s) => same_text(s.as_str(), "https"),
                None => false,
            };
            Ok((uri, tls_asked || https))
        },
        None => Err("invalid --endpoint URI".to_owned()),
    }
}

/// Reads the endpoint that was given for commands for administration.
pub fn admin_endpoint(endpoint: &str, tls_asked: bool) -> (r: Result<(String, bool), String>)
    ensures
        match r {
            Ok((uri, tls)) => endpoint_of(parsed_uri(endpoint@), tls_asked) == Ok::<
                (Seq<char>, bool),
                Seq<char>,
            >((uri@, tls)),
            Err(m) => endpoint_of(parsed_uri(endpoint@), tls_asked) == Err::<
                (Seq<char>, bool),
                Seq<char>,
            >(m@),
        },
{
    admin_endpoint_from(parse_uri(endpoint), tls_asked)
}

/// What commands for administration carry for their token: the one that was given, or else that of
/// the environment.
pub open spec fn admin_bearer_of(given: Option<Seq<char>>, env: Option<Seq<char>>) -> Result<
    Seq<char>,
    Seq<char>,
> {
    match if given is Some {
        given
    } else {
        env
    } {
        Some(t) => match bearer_of(t) {
            Some(text) => Ok(text),
            None => Err("invalid token for metadata"@),
        },
        None => Err("admin RPC requires --token or SCRYD_ADMIN_TOKEN"@),
    }
}

pub fn admin_bearer(given: &Option<String>, env: &Option<String>) -> (r: Result<String, String>)
    ensures
        match r {
            Ok(t) => admin_bearer_of(opt_string(*given), opt_string(*env)) == Ok::<
                Seq<char>,
                Seq<char>,
            >(t@),
            Err(m) => admin_bearer_of(opt_string(*given), opt_string(*env)) == Err::<
                Seq<char>,
                Seq<char>,
            >(m@),
        },
{
    let token: &Option<String> = if given.is_some() {
        given
    } else {
        env
    };
    match token {
        Some(t) => match bearer(t.as_str()) {
            Some(text) => Ok(text),
            None => Err("invalid token for metadata".to_owned()),
        },
        None => Err("admin RPC requires --token or SCRYD_ADMIN_TOKEN".to_owned()),
    }
}

pub open spec fn stats_text(s: WorkspaceStats) -> Seq<char> {
    "files="@ + decimal(s.file_count as nat) + " dirs="@ + decimal(s.dir_count as nat)
        + " chunks="@ + decimal(s.chunk_count as nat) + " events="@ + decimal(s.event_count as nat)
        + " content_bytes="@ + decimal(s.total_content_bytes as nat) + "\njobs queued="@ + decimal(
        s.queued_jobs as nat,
    ) + " running="@ + decimal(s.running_jobs as nat) + " completed="@ + decimal(
        s.completed_jobs as nat,
    ) + " failed="@ + decimal(s.failed_jobs as nat) + "\nindexing_policy files full="@ + decimal(
        s.indexing_policy_full_files as nat,
    ) + " headline_only="@ + decimal(s.indexing_policy_headline_only_files as nat) + " skipped="@
        + decimal(s.indexing_policy_skipped_files as nat)
}

/// The numbers of a workspace, in three lines.
pub fn format_workspace_stats(s: &WorkspaceStats) -> (r: String)
    ensures
        r@ == stats_text(*s),
{
    let mut r = "files=".to_owned();
    push_decimal(&mut r, s.file_count);
    r.append(" dirs=");
    push_decimal(&mut r, s.dir_count);
    r.append(" chunks=");
    push_decimal(&mut r, s.chunk_count);
    r.append(" events=");
    push_decimal(&mut r, s.event_count);
    r.append(" content_bytes=");
    push_decimal(&mut r, s.total_content_bytes);
    r.append("\njobs queued=");
    push_decimal(&mut r, s.queued_jobs);
    r.append(" running=");
    push_decimal(&mut r, s.running_jobs);
    r.append(" completed=");
    push_decimal(&mut r, s.completed_jobs);
    r.append(" failed=");
    push_decimal(&mut r, s.failed_jobs);
    r.append("\nindexing_policy files full=");
    push_decimal(&mut r, s.indexing_policy_full_files);
    r.append(" headline_only=");
    push_decimal(&mut r, s.indexing_policy_headline_only_files);
    r.append(" skipped=");
    push_decimal(&mut r, s.indexing_policy_skipped_files);
    r
}

/// A line of the list of workspaces.
pub fn format_workspace_line(workspace_id: &str, name: &str, root_node_id: &str) -> (r: String)
    ensures
        r@ == workspace_id@ + "\t"@ + name@ + "\t"@ + root_node_id@,
{
    let mut r = workspace_id.to_owned();
    r.append("\t");
    r.append(name);
    r.append("\t");
    r.append(root_node_id);
    r
}

/// An option that is given stands in the arguments behind its name, and one that is not is left
/// out.
pub proof fn lemma_options_are_passed_on(flag: Seq<char>, v: Seq<char>)
    ensures
        option_args(flag, None).len() == 0,
        option_args(flag, Some(v)).len() == 2,
        option_args(flag, Some(v))[0] == flag,
        option_args(flag, Some(v))[1] == v,
{
}

/// An endpoint that is given is secured where that is asked for or its scheme says so; one that is
/// made up is as it was told to be.
pub proof fn lemma_when_an_endpoint_is_secured(
    scheme: Option<Seq<char>>,
    uri: Seq<char>,
    tls: bool,
)
    ensures
        endpoint_of(None, tls) == Err::<(Seq<char>, bool), Seq<char>>("invalid --endpoint URI"@),
        endpoint_of(Some((scheme, uri)), true) == Ok::<(Seq<char>, bool), Seq<char>>((uri, true)),
        endpoint_of(Some((Some("https"@), uri)), tls) == Ok::<(Seq<char>, bool), Seq<char>>(
            (uri, true),
        ),
        scheme != Some("https"@) ==> endpoint_of(Some((scheme, uri)), false) == Ok::<
            (Seq<char>, bool),
            Seq<char>,
        >((uri, false)),
        derived_endpoint_of(None, tls) == Err::<(Seq<char>, bool), Seq<char>>("derived admin URI"@),
        derived_endpoint_of(Some((scheme, uri)), tls) == Ok::<(Seq<char>, bool), Seq<char>>(
            (uri, tls),
        ),
{
}

/// A token on the command line goes before one of the environment, and one of the two has to be
/// there.
pub proof fn lemma_which_token_is_used(given: Seq<char>, env: Option<Seq<char>>)
    ensures
        admin_bearer_of(None, None) == Err::<Seq<char>, Seq<char>>(
            "admin RPC requires --token or SCRYD_ADMIN_TOKEN"@,
        ),
        admin_bearer_of(Some(given), env) == admin_bearer_of(None, Some(given)),
        admin_bearer_of(Some(given), env) is Ok ==> admin_bearer_of(Some(given), env)->Ok_0
            == "Bearer "@ + given,
        admin_bearer_of(Some(given), env) is Err ==> admin_bearer_of(Some(given), env)->Err_0
            == "invalid token for metadata"@,
{
}

/// The address of a server is reached in the open only where nothing asks for more.
pub proof fn lemma_addresses_of_a_server(
    tcp_addr: &str,
    tls_asked: bool,
    has_certificate: bool,
    r: (String, bool),
)
    requires
        call_ensures(admin_uri, (tcp_addr, tls_asked, has_certificate), r),
    ensures
        !tls_asked && !has_certificate <==> !r.1,
        r.1 ==> r.0@ == "https://"@ + tcp_addr@,
        !r.1 ==> r.0@ == "http://"@ + tcp_addr@,
{
}

} // verus!
