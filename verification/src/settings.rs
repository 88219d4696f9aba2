//! Settings: values of the environment, the configuration file behind them, and arguments.
use crate::embedding::{bool_setting, parse_bool_env};
use crate::file_indexing::{DEFAULT_HEADLINE_EACH_BYTES, DEFAULT_SKIP_CHUNKING_OVER_BYTES};
use crate::model::opt_string;
use crate::text::{
    join2, join3, opt_nat_u64, parse_bounded, parse_u64, parse_unsigned, to_chars, trim, trim_text,
};
use vstd::prelude::*;
use vstd::string::StringExecFns;

verus! {

// ---------------------------------------------------------------------------
// Values
// ---------------------------------------------------------------------------

/// A variable of the environment.
#[derive(Debug, Clone, PartialEq, Eq)]
pub enum EnvValue {
    Unset,
    NotUnicode,
    Text(String),
}

#[verifier::ext_equal]
pub enum EnvView {
    Unset,
    NotUnicode,
    Text(Seq<char>),
}

impl View for EnvValue {
    type V = EnvView;

    open spec fn view(&self) -> EnvView {
        match *self {
            EnvValue::Unset => EnvView::Unset,
            EnvValue::NotUnicode => EnvView::NotUnicode,
            EnvValue::Text(s) => EnvView::Text(s@),
        }
    }
}

pub open spec fn invalid_setting(key: Seq<char>, raw: Seq<char>) -> Seq<char> {
    "invalid "@ + key + ": "@ + raw
}

pub open spec fn not_unicode_setting(key: Seq<char>) -> Seq<char> {
    key + " must be valid unicode"@
}

/// A number of at most `max`, or a default.
pub open spec fn number_setting(key: Seq<char>, v: EnvView, default: nat, max: nat) -> Result<
    nat,
    Seq<char>,
> {
    match v {
        EnvView::Unset => Ok(default),
        EnvView::NotUnicode => Err(not_unicode_setting(key)),
        EnvView::Text(raw) => match parse_unsigned(raw, max) {
            Some(n) => Ok(n),
            None => Err(invalid_setting(key, raw)),
        },
    }
}

fn invalid_message(key: &str, raw: &str) -> (r: String)
    ensures
        r@ == invalid_setting(key@, raw@),
{
    let mut r = "invalid ".to_owned();
    r.append(key);
    r.append(": ");
    r.append(raw);
    r
}

pub fn env_u64_with_default(key: &str, v: &EnvValue, default: u64) -> (r: Result<u64, String>)
    ensures
        match r {
            Ok(n) => number_setting(key@, v@, default as nat, u64::MAX as nat) == Ok::<
                nat,
                Seq<char>,
            >(n as nat),
            Err(m) => number_setting(key@, v@, default as nat, u64::MAX as nat) == Err::<
                nat,
                Seq<char>,
            >(m@),
        },
{
    match v {
        EnvValue::Unset => Ok(default),
        EnvValue::NotUnicode => Err(join2(key, " must be valid unicode")),
        EnvValue::Text(raw) => match parse_u64(raw.as_str()) {
            Some(n) => {
                assert(parse_unsigned(raw@, u64::MAX as nat) == opt_nat_u64(Some(n)));
                Ok(n)
            },
            None => {
                assert(parse_unsigned(raw@, u64::MAX as nat) == opt_nat_u64(None));
                Err(invalid_message(key, raw.as_str()))
            },
        },
    }
}

pub fn env_usize_with_default(key: &str, v: &EnvValue, default: usize) -> (r: Result<
    usize,
    String,
>)
    ensures
        match r {
            Ok(n) => number_setting(key@, v@, default as nat, usize::MAX as nat) == Ok::<
                nat,
                Seq<char>,
            >(n as nat),
            Err(m) => number_setting(key@, v@, default as nat, usize::MAX as nat) == Err::<
                nat,
                Seq<char>,
            >(m@),
        },
{
    match v {
        EnvValue::Unset => Ok(default),
        EnvValue::NotUnicode => Err(join2(key, " must be valid unicode")),
        EnvValue::Text(raw) => match parse_bounded(raw.as_str(), usize::MAX as u64) {
            Some(n) => {
                assert(parse_unsigned(raw@, usize::MAX as nat) == opt_nat_u64(Some(n)));
                Ok(n as usize)
            },
            None => {
                assert(parse_unsigned(raw@, usize::MAX as nat) == opt_nat_u64(None));
                Err(invalid_message(key, raw.as_str()))
            },
        },
    }
}

/// A truth value, or a default.
pub open spec fn flag_setting(key: Seq<char>, v: EnvView, default: bool) -> Result<
    bool,
    Seq<char>,
> {
    match v {
        EnvView::Unset => Ok(default),
        EnvView::NotUnicode => Err(not_unicode_setting(key)),
        EnvView::Text(raw) => match bool_setting(raw) {
            Some(b) => Ok(b),
            None => Err(invalid_setting(key, raw)),
        },
    }
}

pub fn env_bool_with_default(key: &str, v: &EnvValue, default: bool) -> (r: Result<bool, String>)
    ensures
        match r {
            Ok(b) => flag_setting(key@, v@, default) == Ok::<bool, Seq<char>>(b),
            Err(m) => flag_setting(key@, v@, default) == Err::<bool, Seq<char>>(m@),
        },
{
    match v {
        EnvValue::Unset => Ok(default),
        EnvValue::NotUnicode => Err(join2(key, " must be valid unicode")),
        EnvValue::Text(raw) => match parse_bool_env(raw.as_str()) {
            Some(b) => Ok(b),
            None => Err(invalid_message(key, raw.as_str())),
        },
    }
}

/// A text, trimmed; none where it is blank or cannot be read.
pub open spec fn text_setting(v: EnvView) -> Option<Seq<char>> {
    match v {
        EnvView::Text(raw) => if trim(raw).len() == 0 {
            None
        } else {
            Some(trim(raw))
        },
        _ => None,
    }
}

pub fn env_text(v: &EnvValue) -> (r: Option<String>)
    ensures
        opt_string(r) == text_setting(v@),
{
    match v {
        EnvValue::Text(raw) => {
            let t = trim_text(raw.as_str());
            if t.as_str().is_empty() {
                None
            } else {
                Some(t)
            }
        },
        _ => None,
    }
}

/// A size that is read leniently: what is no number counts as unset, and what is too small is
/// raised.
pub open spec fn size_setting_of(raw: Option<Seq<char>>, min: int, default: int) -> int {
    match raw {
        Some(s) => match parse_unsigned(s, usize::MAX as nat) {
            Some(n) => if n < min {
                min
            } else {
                n as int
            },
            None => default,
        },
        None => default,
    }
}

pub fn size_setting(raw: Option<&str>, min: usize, default: usize) -> (r: usize)
    ensures
        r == size_setting_of(crate::paths::opt_text(raw), min as int, default as int),
{
    match raw {
        Some(s) => match parse_bounded(s, usize::MAX as u64) {
            Some(n) => {
                assert(parse_unsigned(s@, usize::MAX as nat) == opt_nat_u64(Some(n)));
                if (n as usize) < min {
                    min
                } else {
                    n as usize
                }
            },
            None => {
                assert(parse_unsigned(s@, usize::MAX as nat) == opt_nat_u64(None));
                default
            },
        },
        None => default,
    }
}

/// The bytes that are read at once when a file is indexed.
pub fn stream_chunk_bytes_for_indexing(raw: Option<&str>) -> (r: usize)
    ensures
        r == size_setting_of(crate::paths::opt_text(raw), 65536, 1048576),
{
    size_setting(raw, 65536, 1048576)
}

/// A number that a variable gives; the default where it is not set, or not to one.
pub open spec fn plain_number_of(raw: Option<Seq<char>>, max: nat, default: int) -> int {
    match raw {
        Some(s) => match parse_unsigned(s, max) {
            Some(n) => n as int,
            None => default,
        },
        None => default,
    }
}

fn plain_number(raw: Option<&str>, max: u64, default: u64) -> (r: u64)
    ensures
        r == plain_number_of(crate::paths::opt_text(raw), max as nat, default as int),
        r <= max || r == default,
{
    match raw {
        Some(s) => match parse_bounded(s, max) {
            Some(n) => {
                assert(parse_unsigned(s@, max as nat) == opt_nat_u64(Some(n)));
                n
            },
            None => {
                assert(parse_unsigned(s@, max as nat) == opt_nat_u64(None));
                default
            },
        },
        None => default,
    }
}

/// The length from which on a text is recorded by its headline alone.
pub fn skip_chunking_over_bytes(raw: Option<&str>) -> (r: u64)
    ensures
        r == plain_number_of(
            crate::paths::opt_text(raw),
            u64::MAX as nat,
            DEFAULT_SKIP_CHUNKING_OVER_BYTES as int,
        ),
{
    plain_number(raw, u64::MAX, DEFAULT_SKIP_CHUNKING_OVER_BYTES)
}

/// The bytes that a headline takes from each end of a text.
pub fn headline_each_bytes(raw: Option<&str>) -> (r: usize)
    ensures
        r == plain_number_of(
            crate::paths::opt_text(raw),
            usize::MAX as nat,
            DEFAULT_HEADLINE_EACH_BYTES as int,
        ),
{
    plain_number(raw, usize::MAX as u64, DEFAULT_HEADLINE_EACH_BYTES as u64) as usize
}

/// How long a provider of embeddings may take to answer, in milliseconds.
pub fn embed_timeout_ms(raw: Option<&str>) -> (r: u64)
    ensures
        r == plain_number_of(crate::paths::opt_text(raw), u64::MAX as nat, 15000),
{
    plain_number(raw, u64::MAX, 15000)
}

/// The most chunks that are embedded at once.
pub fn embed_batch_size_rows(raw: Option<&str>) -> (r: usize)
    ensures
        r == size_setting_of(crate::paths::opt_text(raw), 1, 64),
        r >= 1,
{
    size_setting(raw, 1, 64)
}

/// The most bytes that are embedded at once.
pub fn embed_batch_size_bytes(raw: Option<&str>) -> (r: usize)
    ensures
        r == size_setting_of(crate::paths::opt_text(raw), 8192, 262144),
        r >= 8192,
{
    size_setting(raw, 8192, 262144)
}

// ---------------------------------------------------------------------------
// Paths of files
// ---------------------------------------------------------------------------

/// The path of `rel` as seen from `root`: an absolute path stands for itself.
pub open spec fn joined_file_path(root: Seq<char>, rel: Seq<char>) -> Seq<char> {
    if rel.len() > 0 && rel[0] == '/' {
        rel
    } else if root.len() == 0 || root.last() == '/' {
        root + rel
    } else {
        root + seq!['/'] + rel
    }
}

pub fn file_path_under(root: &str, rel: &str) -> (r: String)
    ensures
        r@ == joined_file_path(root@, rel@),
{
    let a = to_chars(root);
    let b = to_chars(rel);
    if b.len() > 0 && b[0] == '/' {
        return rel.to_owned();
    }
    if a.len() == 0 || a[a.len() - 1] == '/' {
        return join2(root, rel);
    }
    proof {
        reveal_strlit("/");
        assert("/"@ =~= seq!['/']);
    }
    join3(root, "/", rel)
}

// ---------------------------------------------------------------------------
// Transport
// ---------------------------------------------------------------------------

pub const DEFAULT_MAX_MESSAGE_BYTES: usize = 16777216;

pub const DEFAULT_IO_STREAM_CHUNK_BYTES: usize = 1048576;

/// The most bytes of a handle that are kept in memory.
pub const DEFAULT_IO_HANDLE_MEMORY_LIMIT: usize = 33554432;

/// The largest frame that HTTP/2 allows.
pub const DEFAULT_GRPC_MAX_FRAME_BYTES: usize = 16777215;

pub const DEFAULT_EVENTS_BUS_CAPACITY: usize = 4096;

pub const DEFAULT_HANDLE_IDLE_TIMEOUT_MS: u64 = 300000;

/// The address of a socket as it was read: `text` is its usual form.
#[derive(Debug, Clone, PartialEq, Eq)]
pub enum AddrValue {
    Unset,
    NotUnicode,
    Invalid(String),
    Addr { text: String, loopback: bool },
}

/// How requests come in.
#[derive(Debug, Clone, PartialEq, Eq)]
pub struct TransportConfig {
    pub tcp_addr: String,
    pub unix_socket: Option<String>,
    pub tls_cert_path: Option<String>,
    pub tls_key_path: Option<String>,
    pub tls_client_ca_path: Option<String>,
    pub max_decoding_message_bytes: usize,
    pub max_encoding_message_bytes: usize,
    pub max_frame_bytes: usize,
    pub graceful_shutdown_timeout_secs: u64,
    pub io_stream_chunk_bytes: usize,
}

/// The variables that the transport is set up from.
#[derive(Debug, Clone)]
pub struct TransportEnv {
    pub grpc_addr: AddrValue,
    pub unix_socket: EnvValue,
    pub tls_cert_path: EnvValue,
    pub tls_key_path: EnvValue,
    pub tls_client_ca_path: EnvValue,
    pub max_decoding_message_bytes: EnvValue,
    pub max_encoding_message_bytes: EnvValue,
    pub graceful_shutdown_timeout_secs: EnvValue,
    pub io_stream_chunk_bytes: EnvValue,
    pub max_frame_bytes: EnvValue,
}

#[verifier::ext_equal]
pub struct TransportView {
    pub tcp_addr: Seq<char>,
    pub unix_socket: Option<Seq<char>>,
    pub tls_cert_path: Option<Seq<char>>,
    pub tls_key_path: Option<Seq<char>>,
    pub tls_client_ca_path: Option<Seq<char>>,
    pub max_decoding_message_bytes: nat,
    pub max_encoding_message_bytes: nat,
    pub max_frame_bytes: nat,
    pub graceful_shutdown_timeout_secs: nat,
    pub io_stream_chunk_bytes: nat,
}

impl View for TransportConfig {
    type V = TransportView;

    open spec fn view(&self) -> TransportView {
        TransportView {
            tcp_addr: self.tcp_addr@,
            unix_socket: opt_string(self.unix_socket),
            tls_cert_path: opt_string(self.tls_cert_path),
            tls_key_path: opt_string(self.tls_key_path),
            tls_client_ca_path: opt_string(self.tls_client_ca_path),
            max_decoding_message_bytes: self.max_decoding_message_bytes as nat,
            max_encoding_message_bytes: self.max_encoding_message_bytes as nat,
            max_frame_bytes: self.max_frame_bytes as nat,
            graceful_shutdown_timeout_secs: self.graceful_shutdown_timeout_secs as nat,
            io_stream_chunk_bytes: self.io_stream_chunk_bytes as nat,
        }
    }
}

/// The address to listen at, and whether only this machine reaches it.
pub open spec fn addr_setting(v: AddrValue, default_addr: Seq<char>, default_loopback: bool) -> Result<
    (Seq<char>, bool),
    Seq<char>,
> {
    match v {
        AddrValue::Unset => Ok((default_addr, default_loopback)),
        AddrValue::NotUnicode => Err("SCRYD_GRPC_ADDR must be unicode"@),
        AddrValue::Invalid(raw) => Err("invalid SCRYD_GRPC_ADDR: "@ + raw@),
        AddrValue::Addr { text, loopback } => Ok((text@, loopback)),
    }
}

/// TLS needs both a certificate and a key, client certificates need TLS, and so does an address
/// that other machines reach.
pub open spec fn tls_refusal(
    addr: Seq<char>,
    loopback: bool,
    cert: Option<Seq<char>>,
    key: Option<Seq<char>>,
    ca: Option<Seq<char>>,
) -> Option<Seq<char>> {
    if (cert is Some) != (key is Some) {
        Some("SCRYD_TLS_CERT_PATH and SCRYD_TLS_KEY_PATH must be set together"@)
    } else if ca is Some && cert is None {
        Some("SCRYD_TLS_CLIENT_CA_PATH requires SCRYD_TLS_CERT_PATH/SCRYD_TLS_KEY_PATH"@)
    } else if !loopback && cert is None {
        Some(
            "SCRYD_GRPC_ADDR="@ + addr
                + " is not loopback and TLS is not configured. Set SCRYD_TLS_CERT_PATH/SCRYD_TLS_KEY_PATH or bind loopback only; see docs/hardening.md"@,
        )
    } else {
        None
    }
}

/// A size that has to be positive.
pub open spec fn positive_setting(key: Seq<char>, v: EnvView, default: nat) -> Result<
    nat,
    Seq<char>,
> {
    match number_setting(key, v, default, usize::MAX as nat) {
        Ok(n) => if n == 0 {
            Err(key + " must be > 0"@)
        } else {
            Ok(n)
        },
        Err(m) => Err(m),
    }
}

pub open spec fn at_least_one(n: nat) -> nat {
    if n == 0 {
        1
    } else {
        n
    }
}

/// The limits of the transport, in the order in which they are checked: message sizes, the time to
/// shut down, the size of streamed pieces, the size of frames.
pub open spec fn transport_limits(env: TransportEnv) -> Result<
    (nat, nat, nat, nat, nat),
    Seq<char>,
> {
    let decoding = number_setting(
        "SCRYD_MAX_DECODING_MESSAGE_BYTES"@,
        env.max_decoding_message_bytes@,
        DEFAULT_MAX_MESSAGE_BYTES as nat,
        usize::MAX as nat,
    );
    let encoding = number_setting(
        "SCRYD_MAX_ENCODING_MESSAGE_BYTES"@,
        env.max_encoding_message_bytes@,
        DEFAULT_MAX_MESSAGE_BYTES as nat,
        usize::MAX as nat,
    );
    match (decoding, encoding) {
        (Err(m), _) => Err(m),
        (_, Err(m)) => Err(m),
        (Ok(d), Ok(e)) => if d == 0 {
            Err("SCRYD_MAX_DECODING_MESSAGE_BYTES must be > 0"@)
        } else if e == 0 {
            Err("SCRYD_MAX_ENCODING_MESSAGE_BYTES must be > 0"@)
        } else {
            match number_setting(
                "SCRYD_GRACEFUL_SHUTDOWN_TIMEOUT_SECS"@,
                env.graceful_shutdown_timeout_secs@,
                10,
                u64::MAX as nat,
            ) {
                Err(m) => Err(m),
                Ok(shutdown) => match positive_setting(
                    "SCRYD_IO_STREAM_CHUNK_BYTES"@,
                    env.io_stream_chunk_bytes@,
                    DEFAULT_IO_STREAM_CHUNK_BYTES as nat,
                ) {
                    Err(m) => Err(m),
                    Ok(chunk) => match positive_setting(
                        "SCRYD_GRPC_MAX_FRAME_BYTES"@,
                        env.max_frame_bytes@,
                        DEFAULT_GRPC_MAX_FRAME_BYTES as nat,
                    ) {
                        Err(m) => Err(m),
                        Ok(frame) => if frame > DEFAULT_GRPC_MAX_FRAME_BYTES {
                            Err(
                                "SCRYD_GRPC_MAX_FRAME_BYTES must be <= 16777215 (HTTP/2 SETTINGS_MAX_FRAME_SIZE limit)"@,
                            )
                        } else {
                            Ok((d, e, at_least_one(shutdown), chunk, frame))
                        },
                    },
                },
            }
        },
    }
}

pub open spec fn transport_of(
    env: TransportEnv,
    default_addr: Seq<char>,
    default_loopback: bool,
) -> Result<TransportView, Seq<char>> {
    let cert = text_setting(env.tls_cert_path@);
    let key = text_setting(env.tls_key_path@);
    let ca = text_setting(env.tls_client_ca_path@);
    match addr_setting(env.grpc_addr, default_addr, default_loopback) {
        Err(m) => Err(m),
        Ok((addr, loopback)) => match tls_refusal(addr, loopback, cert, key, ca) {
            Some(m) => Err(m),
            None => match transport_limits(env) {
                Err(m) => Err(m),
                Ok((d, e, shutdown, chunk, frame)) => Ok(
                    TransportView {
                        tcp_addr: addr,
                        unix_socket: text_setting(env.unix_socket@),
                        tls_cert_path: cert,
                        tls_key_path: key,
                        tls_client_ca_path: ca,
                        max_decoding_message_bytes: d,
                        max_encoding_message_bytes: e,
                        max_frame_bytes: frame,
                        graceful_shutdown_timeout_secs: shutdown,
                        io_stream_chunk_bytes: chunk,
                    },
                ),
            },
        },
    }
}

fn read_limits(env: &TransportEnv) -> (r: Result<(usize, usize, u64, usize, usize), String>)
    ensures
        match r {
            Ok((d, e, s, c, f)) => transport_limits(*env) == Ok::<
                (nat, nat, nat, nat, nat),
                Seq<char>,
            >((d as nat, e as nat, s as nat, c as nat, f as nat)),
            Err(m) => transport_limits(*env) == Err::<(nat, nat, nat, nat, nat), Seq<char>>(m@),
        },
{
    let d = match env_usize_with_default(
        "SCRYD_MAX_DECODING_MESSAGE_BYTES",
        &env.max_decoding_message_bytes,
        DEFAULT_MAX_MESSAGE_BYTES,
    ) {
        Ok(n) => n,
        Err(m) => {
            return Err(m);
        },
    };
    let e = match env_usize_with_default(
        "SCRYD_MAX_ENCODING_MESSAGE_BYTES",
        &env.max_encoding_message_bytes,
        DEFAULT_MAX_MESSAGE_BYTES,
    ) {
        Ok(n) => n,
        Err(m) => {
            return Err(m);
        },
    };
    if d == 0 {
        return Err("SCRYD_MAX_DECODING_MESSAGE_BYTES must be > 0".to_owned());
    }
    if e == 0 {
        return Err("SCRYD_MAX_ENCODING_MESSAGE_BYTES must be > 0".to_owned());
    }
    let shutdown = match env_u64_with_default(
        "SCRYD_GRACEFUL_SHUTDOWN_TIMEOUT_SECS",
        &env.graceful_shutdown_timeout_secs,
        10,
    ) {
        Ok(n) => n,
        Err(m) => {
            return Err(m);
        },
    };
    let chunk = match env_usize_with_default(
        "SCRYD_IO_STREAM_CHUNK_BYTES",
        &env.io_stream_chunk_bytes,
        DEFAULT_IO_STREAM_CHUNK_BYTES,
    ) {
        Ok(n) => n,
        Err(m) => {
            return Err(m);
        },
    };
    if chunk == 0 {
        return Err(join2("SCRYD_IO_STREAM_CHUNK_BYTES", " must be > 0"));
    }
    let frame = match env_usize_with_default(
        "SCRYD_GRPC_MAX_FRAME_BYTES",
        &env.max_frame_bytes,
        DEFAULT_GRPC_MAX_FRAME_BYTES,
    ) {
        Ok(n) => n,
        Err(m) => {
            return Err(m);
        },
    };
    if frame == 0 {
        return Err(join2("SCRYD_GRPC_MAX_FRAME_BYTES", " must be > 0"));
    }
    if frame > DEFAULT_GRPC_MAX_FRAME_BYTES {
        return Err(
            "SCRYD_GRPC_MAX_FRAME_BYTES must be <= 16777215 (HTTP/2 SETTINGS_MAX_FRAME_SIZE limit)".to_owned(),
        );
    }
    Ok(
        (
            d,
            e,
            if shutdown == 0 {
                1
            } else {
                shutdown
            },
            chunk,
            frame,
        ),
    )
}

/// Sets up the transport. Without an address in the environment it listens at the default one.
pub fn transport_from_settings(env: &TransportEnv, default_addr: &str, default_loopback: bool) -> (r:
    Result<TransportConfig, String>)
    ensures
        match r {
            Ok(c) => transport_of(*env, default_addr@, default_loopback) == Ok::<
                TransportView,
                Seq<char>,
            >(c@),
            Err(m) => transport_of(*env, default_addr@, default_loopback) == Err::<
                TransportView,
                Seq<char>,
            >(m@),
        },
{
    let (addr, loopback): (String, bool) = match &env.grpc_addr {
        AddrValue::Unset => (default_addr.to_owned(), default_loopback),
        AddrValue::NotUnicode => {
            return Err("SCRYD_GRPC_ADDR must be unicode".to_owned());
        },
        AddrValue::Invalid(raw) => {
            return Err(join2("invalid SCRYD_GRPC_ADDR: ", raw.as_str()));
        },
        AddrValue::Addr { text, loopback } => (text.clone(), *loopback),
    };
    let unix_socket = env_text(&env.unix_socket);
    let cert = env_text(&env.tls_cert_path);
    let key = env_text(&env.tls_key_path);
    let ca = env_text(&env.tls_client_ca_path);
    if cert.is_some() != key.is_some() {
        return Err("SCRYD_TLS_CERT_PATH and SCRYD_TLS_KEY_PATH must be set together".to_owned());
    }
    if ca.is_some() && cert.is_none() {
        return Err(
            "SCRYD_TLS_CLIENT_CA_PATH requires SCRYD_TLS_CERT_PATH/SCRYD_TLS_KEY_PATH".to_owned(),
        );
    }
    if !loopback && cert.is_none() {
        return Err(
            join3(
                "SCRYD_GRPC_ADDR=",
                addr.as_str(),
                " is not loopback and TLS is not configured. Set SCRYD_TLS_CERT_PATH/SCRYD_TLS_KEY_PATH or bind loopback only; see docs/hardening.md",
            ),
        );
    }
    match read_limits(env) {
        Ok((d, e, shutdown, chunk, frame)) => Ok(
            TransportConfig {
                tcp_addr: addr,
                unix_socket,
                tls_cert_path: cert,
                tls_key_path: key,
                tls_client_ca_path: ca,
                max_decoding_message_bytes: d,
                max_encoding_message_bytes: e,
                max_frame_bytes: frame,
                graceful_shutdown_timeout_secs: shutdown,
                io_stream_chunk_bytes: chunk,
            },
        ),
        Err(m) => Err(m),
    }
}

/// No transport is set up that other machines reach without TLS, and none has a limit of zero.
pub proof fn lemma_transport_is_safe(
    env: TransportEnv,
    default_addr: Seq<char>,
    default_loopback: bool,
)
    requires
        transport_of(env, default_addr, default_loopback) is Ok,
    ensures
        ({
            let c = transport_of(env, default_addr, default_loopback)->Ok_0;
            &&& addr_setting(env.grpc_addr, default_addr, default_loopback) matches Ok((_, l))
            &&& !l ==> c.tls_cert_path is Some
            &&& c.tls_cert_path is Some <==> c.tls_key_path is Some
            &&& c.tls_client_ca_path is Some ==> c.tls_cert_path is Some
            &&& c.max_decoding_message_bytes > 0
            &&& c.max_encoding_message_bytes > 0
            &&& 0 < c.max_frame_bytes <= DEFAULT_GRPC_MAX_FRAME_BYTES
            &&& c.graceful_shutdown_timeout_secs > 0
            &&& c.io_stream_chunk_bytes > 0
        }),
{
}

// ---------------------------------------------------------------------------
// Retention, metrics, handles
// ---------------------------------------------------------------------------

#[derive(Debug, Clone, Copy, PartialEq, Eq, Structural)]
pub struct EventsRetentionConfig {
    pub max_age_secs: u64,
    pub min_events_per_workspace: u64,
    pub sweep_interval_secs: u64,
}

pub open spec fn retention_of(max_age: EnvView, min_events: EnvView, sweep: EnvView) -> Result<
    (nat, nat, nat),
    Seq<char>,
> {
    match number_setting(
        "SCRYD_EVENTS_RETENTION_MAX_AGE_SECS"@,
        max_age,
        604800,
        u64::MAX as nat,
    ) {
        Err(m) => Err(m),
        Ok(age) => match number_setting(
            "SCRYD_EVENTS_RETENTION_MIN_EVENTS_PER_WORKSPACE"@,
            min_events,
            100000,
            u64::MAX as nat,
        ) {
            Err(m) => Err(m),
            Ok(min) => match number_setting(
                "SCRYD_EVENTS_RETENTION_SWEEP_INTERVAL_SECS"@,
                sweep,
                60,
                u64::MAX as nat,
            ) {
                Err(m) => Err(m),
                Ok(interval) => Ok((at_least_one(age), min, at_least_one(interval))),
            },
        },
    }
}

pub fn events_retention_from_settings(
    max_age_secs: &EnvValue,
    min_events_per_workspace: &EnvValue,
    sweep_interval_secs: &EnvValue,
) -> (r: Result<EventsRetentionConfig, String>)
    ensures
        match r {
            Ok(c) => retention_of(
                max_age_secs@,
                min_events_per_workspace@,
                sweep_interval_secs@,
            ) == Ok::<(nat, nat, nat), Seq<char>>(
                (
                    c.max_age_secs as nat,
                    c.min_events_per_workspace as nat,
                    c.sweep_interval_secs as nat,
                ),
            ),
            Err(m) => retention_of(
                max_age_secs@,
                min_events_per_workspace@,
                sweep_interval_secs@,
            ) == Err::<(nat, nat, nat), Seq<char>>(m@),
        },
{
    let age = match env_u64_with_default(
        "SCRYD_EVENTS_RETENTION_MAX_AGE_SECS",
        max_age_secs,
        604800,
    ) {
        Ok(n) => n,
        Err(m) => {
            return Err(m);
        },
    };
    let min = match env_u64_with_default(
        "SCRYD_EVENTS_RETENTION_MIN_EVENTS_PER_WORKSPACE",
        min_events_per_workspace,
        100000,
    ) {
        Ok(n) => n,
        Err(m) => {
            return Err(m);
        },
    };
    let interval = match env_u64_with_default(
        "SCRYD_EVENTS_RETENTION_SWEEP_INTERVAL_SECS",
        sweep_interval_secs,
        60,
    ) {
        Ok(n) => n,
        Err(m) => {
            return Err(m);
        },
    };
    Ok(
        EventsRetentionConfig {
            max_age_secs: if age == 0 {
                1
            } else {
                age
            },
            min_events_per_workspace: min,
            sweep_interval_secs: if interval == 0 {
                1
            } else {
                interval
            },
        },
    )
}

#[derive(Debug, Clone, PartialEq, Eq)]
pub struct MetricsConfig {
    pub log_interval_secs: u64,
    pub endpoint_addr: Option<String>,
}

/// Metrics are shown only to this machine, unless it is asked for otherwise.
pub open spec fn metrics_of(log_interval: EnvView, allow_public: EnvView, addr: AddrValue) -> Result<
    (nat, Option<Seq<char>>),
    Seq<char>,
> {
    match number_setting("SCRYD_METRICS_LOG_INTERVAL_SECS"@, log_interval, 15, u64::MAX as nat) {
        Err(m) => Err(m),
        Ok(interval) => match flag_setting("SCRYD_METRICS_ALLOW_PUBLIC"@, allow_public, false) {
            Err(m) => Err(m),
            Ok(public) => match addr {
                AddrValue::Unset => Ok((at_least_one(interval), None)),
                AddrValue::NotUnicode => Err("SCRYD_METRICS_ADDR must be valid unicode"@),
                AddrValue::Invalid(raw) => Err("invalid SCRYD_METRICS_ADDR: "@ + raw@),
                AddrValue::Addr { text, loopback } => if !loopback && !public {
                    Err(
                        "SCRYD_METRICS_ADDR="@ + text@
                            + " is not loopback. Refusing to expose /metrics publicly by default; set SCRYD_METRICS_ALLOW_PUBLIC=1 if this is intentional."@,
                    )
                } else {
                    Ok((at_least_one(interval), Some(text@)))
                },
            },
        },
    }
}

pub fn metrics_from_settings(
    log_interval_secs: &EnvValue,
    allow_public: &EnvValue,
    addr: &AddrValue,
) -> (r: Result<MetricsConfig, String>)
    ensures
        match r {
            Ok(c) => metrics_of(log_interval_secs@, allow_public@, *addr) == Ok::<
                (nat, Option<Seq<char>>),
                Seq<char>,
            >((c.log_interval_secs as nat, opt_string(c.endpoint_addr))),
            Err(m) => metrics_of(log_interval_secs@, allow_public@, *addr) == Err::<
                (nat, Option<Seq<char>>),
                Seq<char>,
            >(m@),
        },
{
    let interval = match env_u64_with_default(
        "SCRYD_METRICS_LOG_INTERVAL_SECS",
        log_interval_secs,
        15,
    ) {
        Ok(n) => n,
        Err(m) => {
            return Err(m);
        },
    };
    let public = match env_bool_with_default("SCRYD_METRICS_ALLOW_PUBLIC", allow_public, false) {
        Ok(b) => b,
        Err(m) => {
            return Err(m);
        },
    };
    let endpoint_addr = match addr {
        AddrValue::Unset => None,
        AddrValue::NotUnicode => {
            return Err("SCRYD_METRICS_ADDR must be valid unicode".to_owned());
        },
        AddrValue::Invalid(raw) => {
            return Err(join2("invalid SCRYD_METRICS_ADDR: ", raw.as_str()));
        },
        AddrValue::Addr { text, loopback } => {
            if !*loopback && !public {
                return Err(
                    join3(
                        "SCRYD_METRICS_ADDR=",
                        text.as_str(),
                        " is not loopback. Refusing to expose /metrics publicly by default; set SCRYD_METRICS_ALLOW_PUBLIC=1 if this is intentional.",
                    ),
                );
            }
            Some(text.clone())
        },
    };
    Ok(
        MetricsConfig {
            log_interval_secs: if interval == 0 {
                1
            } else {
                interval
            },
            endpoint_addr,
        },
    )
}

/// The limits that handles and the event bus are run with, raised to what they need at least.
#[derive(Debug, Clone, Copy, PartialEq, Eq, Structural)]
pub struct IoLimits {
    pub handle_memory_limit: usize,
    pub flush_copy_chunk_bytes: usize,
    pub events_bus_capacity: usize,
}

pub open spec fn raised(n: usize, min: usize) -> usize {
    if n < min {
        min
    } else {
        n
    }
}

pub fn io_limits(
    handle_memory_limit: usize,
    flush_copy_chunk_bytes: usize,
    events_bus_capacity: usize,
) -> (r: IoLimits)
    ensures
        r.handle_memory_limit == raised(handle_memory_limit, 4096),
        r.flush_copy_chunk_bytes == raised(flush_copy_chunk_bytes, 8192),
        r.events_bus_capacity == raised(events_bus_capacity, 32),
{
    IoLimits {
        handle_memory_limit: if handle_memory_limit < 4096 {
            4096
        } else {
            handle_memory_limit
        },
        flush_copy_chunk_bytes: if flush_copy_chunk_bytes < 8192 {
            8192
        } else {
            flush_copy_chunk_bytes
        },
        events_bus_capacity: if events_bus_capacity < 32 {
            32
        } else {
            events_bus_capacity
        },
    }
}

/// A number that is set is the one that is written, one that is not set is the default, and what is
/// no number in range is refused by the name of its setting.
pub proof fn lemma_number_settings(key: Seq<char>, raw: Seq<char>, default: nat, max: nat)
    ensures
        number_setting(key, EnvView::Unset, default, max) == Ok::<nat, Seq<char>>(default),
        number_setting(key, EnvView::NotUnicode, default, max) == Err::<nat, Seq<char>>(
            key + " must be valid unicode"@,
        ),
        parse_unsigned(raw, max) is Some ==> number_setting(key, EnvView::Text(raw), default, max)
            == Ok::<nat, Seq<char>>(parse_unsigned(raw, max)->0),
        parse_unsigned(raw, max) is None ==> number_setting(key, EnvView::Text(raw), default, max)
            == Err::<nat, Seq<char>>("invalid "@ + key + ": "@ + raw),
{
}

/// A switch that is set is what its word says, and one that is not set is the default.
pub proof fn lemma_flag_settings(key: Seq<char>, raw: Seq<char>, default: bool)
    ensures
        flag_setting(key, EnvView::Unset, default) == Ok::<bool, Seq<char>>(default),
        flag_setting(key, EnvView::NotUnicode, default) == Err::<bool, Seq<char>>(
            key + " must be valid unicode"@,
        ),
        bool_setting(raw) is Some ==> flag_setting(key, EnvView::Text(raw), default) == Ok::<
            bool,
            Seq<char>,
        >(bool_setting(raw)->0),
        bool_setting(raw) is None ==> flag_setting(key, EnvView::Text(raw), default) == Err::<
            bool,
            Seq<char>,
        >("invalid "@ + key + ": "@ + raw),
{
}

/// A text that is set counts without the blanks round it, and only where anything is left.
pub proof fn lemma_text_settings(raw: Seq<char>)
    ensures
        text_setting(EnvView::Unset) is None,
        text_setting(EnvView::NotUnicode) is None,
        text_setting(EnvView::Text(raw)) is Some <==> trim(raw).len() > 0,
        text_setting(EnvView::Text(raw)) is Some ==> text_setting(EnvView::Text(raw))->0 == trim(raw),
{
}

/// A size is what is written or the least that is allowed, whichever is larger; what is no number
/// gives the default.
pub proof fn lemma_size_settings(raw: Seq<char>, min: int, default: int, max: nat)
    ensures
        size_setting_of(None, min, default) == default,
        plain_number_of(None, max, default) == default,
        parse_unsigned(raw, usize::MAX as nat) is None ==> size_setting_of(Some(raw), min, default)
            == default,
        parse_unsigned(raw, usize::MAX as nat) is Some ==> {
            let n = parse_unsigned(raw, usize::MAX as nat)->0;
            let r = size_setting_of(Some(raw), min, default);
            r >= n && r >= min && (r == n || r == min)
        },
        parse_unsigned(raw, max) is None ==> plain_number_of(Some(raw), max, default) == default,
        parse_unsigned(raw, max) is Some ==> plain_number_of(Some(raw), max, default)
            == parse_unsigned(raw, max)->0,
{
}

/// A path under a root begins with the root, one slash between them; a path from the top stays what
/// it is.
pub proof fn lemma_paths_under_a_root(root: Seq<char>, rel: Seq<char>)
    ensures
        rel.len() > 0 && rel[0] == '/' ==> joined_file_path(root, rel) == rel,
        !(rel.len() > 0 && rel[0] == '/') ==> {
            let p = joined_file_path(root, rel);
            &&& root.is_prefix_of(p)
            &&& p.skip(p.len() - rel.len()) == rel
            &&& root.len() == 0 || root.last() == '/' ==> p.len() == root.len() + rel.len()
            &&& root.len() > 0 && root.last() != '/' ==> p.len() == root.len() + 1 + rel.len()
                && p[root.len() as int] == '/'
        },
{
    let p = joined_file_path(root, rel);
    if !(rel.len() > 0 && rel[0] == '/') {
        assert(p.skip(p.len() - rel.len()) =~= rel);
        assert(p.subrange(0, root.len() as int) =~= root);
    }
}

/// A server listens where it is told, and where it is told nothing at the default.
pub proof fn lemma_addresses(
    text: String,
    loopback: bool,
    default_addr: Seq<char>,
    default_loopback: bool,
)
    ensures
        addr_setting(AddrValue::Unset, default_addr, default_loopback) == Ok::<
            (Seq<char>, bool),
            Seq<char>,
        >((default_addr, default_loopback)),
        addr_setting(AddrValue::Addr { text, loopback }, default_addr, default_loopback) == Ok::<
            (Seq<char>, bool),
            Seq<char>,
        >((text@, loopback)),
        addr_setting(AddrValue::NotUnicode, default_addr, default_loopback) is Err,
        addr_setting(AddrValue::Invalid(text), default_addr, default_loopback) == Err::<
            (Seq<char>, bool),
            Seq<char>,
        >("invalid SCRYD_GRPC_ADDR: "@ + text@),
{
}

/// A certificate and its key come together, one is needed to ask clients for theirs, and one is
/// needed where anyone but the machine itself can connect; nothing else is refused.
pub proof fn lemma_when_tls_is_needed(
    addr: Seq<char>,
    loopback: bool,
    cert: Option<Seq<char>>,
    key: Option<Seq<char>>,
    ca: Option<Seq<char>>,
)
    ensures
        tls_refusal(addr, loopback, cert, key, ca) is None <==> (cert is Some && key is Some) || (
        cert is None && key is None && ca is None && loopback),
{
}

/// What a transport has is what each setting says, under its own name and with its own default.
pub proof fn lemma_transport_is_what_was_set(
    env: TransportEnv,
    default_addr: Seq<char>,
    default_loopback: bool,
)
    requires
        transport_of(env, default_addr, default_loopback) is Ok,
    ensures
        ({
            let c = transport_of(env, default_addr, default_loopback)->Ok_0;
            let size = usize::MAX as nat;
            &&& c.unix_socket == text_setting(env.unix_socket@)
            &&& c.tls_cert_path == text_setting(env.tls_cert_path@)
            &&& c.tls_key_path == text_setting(env.tls_key_path@)
            &&& c.tls_client_ca_path == text_setting(env.tls_client_ca_path@)
            &&& env.grpc_addr is Unset ==> c.tcp_addr == default_addr
            &&& env.grpc_addr is Addr ==> c.tcp_addr == env.grpc_addr->text@
            &&& number_setting(
                "SCRYD_MAX_DECODING_MESSAGE_BYTES"@,
                env.max_decoding_message_bytes@,
                16777216,
                size,
            ) == Ok::<nat, Seq<char>>(c.max_decoding_message_bytes)
            &&& number_setting(
                "SCRYD_MAX_ENCODING_MESSAGE_BYTES"@,
                env.max_encoding_message_bytes@,
                16777216,
                size,
            ) == Ok::<nat, Seq<char>>(c.max_encoding_message_bytes)
            &&& number_setting(
                "SCRYD_IO_STREAM_CHUNK_BYTES"@,
                env.io_stream_chunk_bytes@,
                1048576,
                size,
            ) == Ok::<nat, Seq<char>>(c.io_stream_chunk_bytes)
            &&& number_setting(
                "SCRYD_GRPC_MAX_FRAME_BYTES"@,
                env.max_frame_bytes@,
                16777215,
                size,
            ) == Ok::<nat, Seq<char>>(c.max_frame_bytes)
            &&& c.max_frame_bytes <= 16777215
            &&& env.graceful_shutdown_timeout_secs@ is Unset ==> c.graceful_shutdown_timeout_secs
                == 10
            &&& c.graceful_shutdown_timeout_secs > 1 ==> number_setting(
                "SCRYD_GRACEFUL_SHUTDOWN_TIMEOUT_SECS"@,
                env.graceful_shutdown_timeout_secs@,
                10,
                u64::MAX as nat,
            ) == Ok::<nat, Seq<char>>(c.graceful_shutdown_timeout_secs)
        }),
{
}

/// Events are kept a week, a hundred thousand of a workspace at least, and swept once a minute,
/// where nothing else is set; a time of zero counts as one second.
pub proof fn lemma_retention_settings(max_age: EnvView, min_events: EnvView, sweep: EnvView)
    ensures
        retention_of(EnvView::Unset, EnvView::Unset, EnvView::Unset) == Ok::<
            (nat, nat, nat),
            Seq<char>,
        >((604800, 100000, 60)),
        retention_of(max_age, min_events, sweep) is Ok ==> {
            let (age, least, every) = retention_of(max_age, min_events, sweep)->Ok_0;
            let set = number_setting(
                "SCRYD_EVENTS_RETENTION_MAX_AGE_SECS"@,
                max_age,
                604800,
                u64::MAX as nat,
            );
            let set_every = number_setting(
                "SCRYD_EVENTS_RETENTION_SWEEP_INTERVAL_SECS"@,
                sweep,
                60,
                u64::MAX as nat,
            );
            &&& age >= 1 && every >= 1
            &&& set is Ok && (set->Ok_0 == age || set->Ok_0 == 0 && age == 1)
            &&& set_every is Ok && (set_every->Ok_0 == every || set_every->Ok_0 == 0 && every == 1)
            &&& number_setting(
                "SCRYD_EVENTS_RETENTION_MIN_EVENTS_PER_WORKSPACE"@,
                min_events,
                100000,
                u64::MAX as nat,
            ) == Ok::<nat, Seq<char>>(least)
        },
{
}

/// Metrics are served only where an address is given, and to others than the machine itself only
/// where that is allowed.
pub proof fn lemma_metrics_stay_at_home(
    log_interval: EnvView,
    allow_public: EnvView,
    text: String,
    loopback: bool,
)
    requires
        metrics_of(log_interval, EnvView::Unset, AddrValue::Unset) is Ok,
        flag_setting("SCRYD_METRICS_ALLOW_PUBLIC"@, allow_public, false) is Ok,
    ensures
        ({
            let public = flag_setting("SCRYD_METRICS_ALLOW_PUBLIC"@, allow_public, false)->Ok_0;
            let given = metrics_of(log_interval, allow_public, AddrValue::Addr { text, loopback });
            let none = metrics_of(log_interval, allow_public, AddrValue::Unset);
            &&& given is Ok <==> loopback || public
            &&& given is Ok ==> given->Ok_0.1 == Some(text@) && given->Ok_0.0 == none->Ok_0.0
            &&& none is Ok && none->Ok_0.1 is None
            &&& metrics_of(log_interval, allow_public, AddrValue::Invalid(text)) is Err
            &&& metrics_of(log_interval, allow_public, AddrValue::NotUnicode) is Err
            &&& log_interval is Unset ==> none->Ok_0.0 == 15
            &&& none->Ok_0.0 >= 1
        }),
{
}

/// A limit that is too small is raised to the least that is allowed, and any other is kept.
pub proof fn lemma_raised(n: usize, min: usize)
    ensures
        raised(n, min) >= n,
        raised(n, min) >= min,
        raised(n, min) == n || raised(n, min) == min,
        at_least_one(0) == 1,
        n > 0 ==> at_least_one(n as nat) == n,
{
}

/// What is not set has its default.
pub proof fn lemma_defaults(
    stream: usize,
    skip: u64,
    headline: usize,
    timeout: u64,
    rows: usize,
    bytes: usize,
)
    requires
        call_ensures(stream_chunk_bytes_for_indexing, (None,), stream),
        call_ensures(skip_chunking_over_bytes, (None,), skip),
        call_ensures(headline_each_bytes, (None,), headline),
        call_ensures(embed_timeout_ms, (None,), timeout),
        call_ensures(embed_batch_size_rows, (None,), rows),
        call_ensures(embed_batch_size_bytes, (None,), bytes),
    ensures
        stream == 1048576,
        skip == 67108864,
        headline == 32768,
        timeout == 15000,
        rows == 64,
        bytes == 262144,
{
}

/// A size that is set too low is raised to the least that is allowed, and a number is taken as it
/// is.
pub proof fn lemma_sizes_that_are_set(
    raw: &str,
    n: nat,
    stream: usize,
    skip: u64,
    timeout: u64,
    rows: usize,
    bytes: usize,
)
    requires
        parse_unsigned(raw@, usize::MAX as nat) == Some(n),
        parse_unsigned(raw@, u64::MAX as nat) == Some(n),
        call_ensures(stream_chunk_bytes_for_indexing, (Some(raw),), stream),
        call_ensures(skip_chunking_over_bytes, (Some(raw),), skip),
        call_ensures(embed_timeout_ms, (Some(raw),), timeout),
        call_ensures(embed_batch_size_rows, (Some(raw),), rows),
        call_ensures(embed_batch_size_bytes, (Some(raw),), bytes),
    ensures
        n >= 65536 ==> stream == n,
        n < 65536 ==> stream == 65536,
        skip == n,
        timeout == n,
        n >= 1 ==> rows == n,
        n == 0 ==> rows == 1,
        n >= 8192 ==> bytes == n,
        n < 8192 ==> bytes == 8192,
{
}

/// Limits of reading and writing are raised where they are too low.
pub proof fn lemma_io_limits(memory: usize, chunk: usize, bus: usize, r: IoLimits)
    requires
        call_ensures(io_limits, (memory, chunk, bus), r),
    ensures
        memory >= 4096 ==> r.handle_memory_limit == memory,
        memory < 4096 ==> r.handle_memory_limit == 4096,
        chunk >= 8192 ==> r.flush_copy_chunk_bytes == chunk,
        chunk < 8192 ==> r.flush_copy_chunk_bytes == 8192,
        bus >= 32 ==> r.events_bus_capacity == bus,
        bus < 32 ==> r.events_bus_capacity == 32,
{
}

} // verus!
