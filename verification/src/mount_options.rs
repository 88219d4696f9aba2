//! The command line of the mount program.
use crate::connection::{bearer, bearer_of, opt_uri, parse_uri, parsed_uri};
use crate::text::{
    is_blank, join2, lemma_blank_trims_to_nothing, lemma_trim_is_part, trim, trim_text,
};
use vstd::prelude::*;
use vstd::string::StringExecFns;

verus! {

/// What the mount program was asked for.
#[derive(Debug, Clone, PartialEq, Eq)]
pub struct Cli {
    pub server_addr: String,
    pub tls: bool,
    pub ca_cert: Option<String>,
    pub client_cert: Option<String>,
    pub client_key: Option<String>,
    pub auth_token: Option<String>,
    pub auth_token_file: Option<String>,
    pub workspace_id: String,
    pub mountpoint: String,
    pub read_only: bool,
    pub allow_other: bool,
    /// Leaves permission checks out, so that a user without privileges can create files.
    pub user_mount: bool,
}

/// Where the token comes from.
pub enum TokenSource {
    Nowhere,
    Inline(Seq<char>),
    File(Seq<char>),
}

impl Cli {
    pub open spec fn two_tokens(self) -> bool {
        self.auth_token is Some && self.auth_token_file is Some
    }

    /// Why the options do not go together, if they do not.
    pub open spec fn conflict(self) -> Option<Seq<char>> {
        if self.two_tokens() {
            Some("use either --auth-token or --auth-token-file, not both"@)
        } else if !self.tls && (self.ca_cert is Some || self.client_cert is Some
            || self.client_key is Some) {
            Some("--ca-cert/--client-cert/--client-key require --tls"@)
        } else if self.client_cert is Some != self.client_key is Some {
            Some("--client-cert and --client-key must be set together"@)
        } else {
            None
        }
    }

    pub fn validate(&self) -> (r: Result<(), String>)
        ensures
            match r {
                Ok(_) => self.conflict() is None,
                Err(e) => self.conflict() == Some(e@),
            },
    {
        if self.auth_token.is_some() && self.auth_token_file.is_some() {
            return Err("use either --auth-token or --auth-token-file, not both".to_owned());
        }
        if !self.tls && (self.ca_cert.is_some() || self.client_cert.is_some()
            || self.client_key.is_some()) {
            return Err("--ca-cert/--client-cert/--client-key require --tls".to_owned());
        }
        if self.client_cert.is_some() != self.client_key.is_some() {
            return Err("--client-cert and --client-key must be set together".to_owned());
        }
        Ok(())
    }

    pub open spec fn token_source(self) -> TokenSource {
        match (self.auth_token, self.auth_token_file) {
            (Some(t), _) => TokenSource::Inline(t@),
            (None, Some(p)) => TokenSource::File(p@),
            (None, None) => TokenSource::Nowhere,
        }
    }
}

/// The file that the token has to be read from, if it comes from one.
pub fn auth_token_path(cli: &Cli) -> (r: Option<&str>)
    ensures
        match r {
            Some(p) => cli.token_source() == TokenSource::File(p@),
            None => !(cli.token_source() is File),
        },
{
    match (&cli.auth_token, &cli.auth_token_file) {
        (None, Some(p)) => Some(p.as_str()),
        _ => None,
    }
}

/// The token to send, without the white space around it. `file_text` is what the token's file
/// holds, where the token comes from a file.
pub open spec fn token_of(cli: Cli, file_text: Seq<char>) -> Result<Option<Seq<char>>, Seq<char>> {
    if cli.two_tokens() {
        Err("use either --auth-token or --auth-token-file, not both"@)
    } else {
        match cli.token_source() {
            TokenSource::Inline(t) => if trim(t).len() == 0 {
                Err("--auth-token cannot be empty"@)
            } else {
                Ok(Some(trim(t)))
            },
            TokenSource::File(p) => if trim(file_text).len() == 0 {
                Err("auth token file "@ + p + " is empty"@)
            } else {
                Ok(Some(trim(file_text)))
            },
            TokenSource::Nowhere => Ok(None),
        }
    }
}

pub fn load_auth_token(cli: &Cli, file_text: &str) -> (r: Result<Option<String>, String>)
    ensures
        match r {
            Ok(Some(t)) => token_of(*cli, file_text@) == Ok::<Option<Seq<char>>, Seq<char>>(
                Some(t@),
            ),
            Ok(None) => token_of(*cli, file_text@) == Ok::<Option<Seq<char>>, Seq<char>>(None),
            Err(e) => token_of(*cli, file_text@) == Err::<Option<Seq<char>>, Seq<char>>(e@),
        },
{
    if cli.auth_token.is_some() && cli.auth_token_file.is_some() {
        return Err("use either --auth-token or --auth-token-file, not both".to_owned());
    }
    if let Some(token) = &cli.auth_token {
        let trimmed = trim_text(token.as_str());
        if trimmed.as_str().is_empty() {
            return Err("--auth-token cannot be empty".to_owned());
        }
        return Ok(Some(trimmed));
    }
    if let Some(path) = &cli.auth_token_file {
        let trimmed = trim_text(file_text);
        if trimmed.as_str().is_empty() {
            let mut e = "auth token file ".to_owned();
            e.append(path.as_str());
            e.append(" is empty");
            return Err(e);
        }
        return Ok(Some(trimmed));
    }
    Ok(None)
}

/// What the requests of a mount carry for its token.
pub fn bearer_text(token: &str) -> (r: Result<String, String>)
    ensures
        match r {
            Ok(t) => bearer_of(trim(token@)) == Some(t@),
            Err(m) => bearer_of(trim(token@)) is None && m@ == "invalid bearer token metadata"@,
        },
{
    match bearer(trim_text(token).as_str()) {
        Some(text) => Ok(text),
        None => Err("invalid bearer token metadata".to_owned()),
    }
}

/// The text of the URI that a mount connects to.
pub fn mount_uri(server_addr: &str, tls: bool) -> (r: String)
    ensures
        r@ == if tls {
            "https://"@ + server_addr@
        } else {
            "http://"@ + server_addr@
        },
{
    if tls {
        join2("https://", server_addr)
    } else {
        join2("http://", server_addr)
    }
}

/// The URI that a mount connects to, by what its text was read as.
pub open spec fn mount_endpoint_of(parsed: Option<(Option<Seq<char>>, Seq<char>)>) -> Result<
    Seq<char>,
    Seq<char>,
> {
    match parsed {
        Some((_, uri)) => Ok(uri),
        None => Err("invalid server address"@),
    }
}

pub fn mount_endpoint_from(parsed: Option<(Option<String>, String)>) -> (r: Result<String, String>)
    ensures
        match r {
            Ok(uri) => mount_endpoint_of(opt_uri(parsed)) == Ok::<Seq<char>, Seq<char>>(uri@),
            Err(m) => mount_endpoint_of(opt_uri(parsed)) == Err::<Seq<char>, Seq<char>>(m@),
        },
{
    match parsed {
        Some((_, uri)) => Ok(uri),
        None => Err("invalid server address".to_owned()),
    }
}

/// Reads the address of the server that a mount connects to.
pub fn mount_endpoint(server_addr: &str, tls: bool) -> (r: Result<String, String>)
    ensures
        ({
            let text = if tls {
                "https://"@ + server_addr@
            } else {
                "http://"@ + server_addr@
            };
            match r {
                Ok(uri) => mount_endpoint_of(parsed_uri(text)) == Ok::<Seq<char>, Seq<char>>(uri@),
                Err(m) => mount_endpoint_of(parsed_uri(text)) == Err::<Seq<char>, Seq<char>>(m@),
            }
        }),
{
    mount_endpoint_from(parse_uri(mount_uri(server_addr, tls).as_str()))
}

#[derive(Debug, Clone, Copy, PartialEq, Eq, Structural)]
pub enum MountOption {
    /// The file system's name, `scry`.
    FsName,
    DefaultPermissions,
    ReadOnly,
    AllowOther,
}

pub open spec fn one_if(wanted: bool, option: MountOption) -> Seq<MountOption> {
    if wanted {
        seq![option]
    } else {
        seq![]
    }
}

/// The options of a mount. Unmounting by itself is never among them: it would let other users in.
pub fn mount_options(read_only: bool, allow_other: bool, user_mount: bool) -> (r: Vec<MountOption>)
    ensures
        r@ == seq![MountOption::FsName] + one_if(!user_mount, MountOption::DefaultPermissions)
            + one_if(read_only, MountOption::ReadOnly) + one_if(
            allow_other,
            MountOption::AllowOther,
        ),
{
    let mut opts: Vec<MountOption> = Vec::new();
    opts.push(MountOption::FsName);
    if !user_mount {
        opts.push(MountOption::DefaultPermissions);
    }
    if read_only {
        opts.push(MountOption::ReadOnly);
    }
    if allow_other {
        opts.push(MountOption::AllowOther);
    }
    opts
}

// ---------------------------------------------------------------------------
// Laws
// ---------------------------------------------------------------------------

/// A command line is accepted exactly where it gives one token at most, certificates only with
/// TLS, and the two parts of the client's identity together or not at all.
pub proof fn lemma_command_lines(cli: Cli)
    ensures
        cli.conflict() is None <==> {
            &&& !(cli.auth_token is Some && cli.auth_token_file is Some)
            &&& cli.ca_cert is Some ==> cli.tls
            &&& cli.client_cert is Some ==> cli.tls
            &&& cli.client_key is Some ==> cli.tls
            &&& cli.client_cert is Some <==> cli.client_key is Some
        },
{
}

/// The token is the one that was given, or that of the file, without the white space around it;
/// where none was named, none is sent.
pub proof fn lemma_token_is_what_was_given(cli: Cli, file_text: Seq<char>)
    ensures
        match token_of(cli, file_text) {
            Ok(Some(t)) => {
                &&& cli.auth_token is Some ==> t == trim(cli.auth_token->0@) && cli.auth_token_file is None
                &&& cli.auth_token is None ==> cli.auth_token_file is Some && t == trim(file_text)
                &&& !is_blank(t)
            },
            Ok(None) => cli.auth_token is None && cli.auth_token_file is None,
            Err(_) => {
                ||| cli.auth_token is Some && cli.auth_token_file is Some
                ||| cli.auth_token is Some && is_blank(cli.auth_token->0@)
                ||| cli.auth_token_file is Some && is_blank(file_text)
            },
        },
        cli.token_source() is File <==> cli.auth_token is None && cli.auth_token_file is Some,
{
    if cli.auth_token is Some {
        let t = cli.auth_token->0@;
        lemma_blank_trims_to_nothing(t);
        let (a, b) = lemma_trim_is_part(t);
        if a < b {
            assert(trim(t)[0] == t[a]);
        }
    }
    lemma_blank_trims_to_nothing(file_text);
    let (a, b) = lemma_trim_is_part(file_text);
    if a < b {
        assert(trim(file_text)[0] == file_text[a]);
    }
}

/// An option is set exactly where it is wanted.
pub proof fn lemma_options_are_wanted(
    read_only: bool,
    allow_other: bool,
    user_mount: bool,
    options: Seq<MountOption>,
)
    requires
        options == seq![MountOption::FsName] + one_if(!user_mount, MountOption::DefaultPermissions)
            + one_if(read_only, MountOption::ReadOnly) + one_if(
            allow_other,
            MountOption::AllowOther,
        ),
    ensures
        options[0] == MountOption::FsName,
        options.contains(MountOption::ReadOnly) <==> read_only,
        options.contains(MountOption::AllowOther) <==> allow_other,
        options.contains(MountOption::DefaultPermissions) <==> !user_mount,
{
    let n = options.len();
    if !user_mount {
        assert(options[1] == MountOption::DefaultPermissions);
    }
    if allow_other {
        assert(options[n - 1] == MountOption::AllowOther);
    }
    if read_only {
        let at: int = if user_mount {
            1
        } else {
            2
        };
        assert(options[at] == MountOption::ReadOnly);
    }
}

/// A mount goes to the URI that its address was read as, and nowhere where it was read as none.
pub proof fn lemma_mount_endpoint(scheme: Option<Seq<char>>, uri: Seq<char>)
    ensures
        mount_endpoint_of(Some((scheme, uri))) == Ok::<Seq<char>, Seq<char>>(uri),
        mount_endpoint_of(None) is Err,
{
}

/// The options go together where there is at most one token, certificates only with encryption, and
/// a client's certificate only with its key.
pub proof fn lemma_options_that_go_together(cli: Cli, addr: &str, tls: bool, uri: String)
    requires
        call_ensures(mount_uri, (addr, tls), uri),
    ensures
        cli.conflict() is None <==> (cli.auth_token is None || cli.auth_token_file is None) && (
        cli.tls || cli.ca_cert is None && cli.client_cert is None && cli.client_key is None) && (
        cli.client_cert is Some <==> cli.client_key is Some),
        tls ==> uri@ == "https://"@ + addr@,
        !tls ==> uri@ == "http://"@ + addr@,
{
}

} // verus!
