//! Who may do what: signed tokens, scopes, and the secrets that tokens are signed with.
use crate::model::opt_string;
use crate::settings::{env_bool_with_default, flag_setting, EnvValue, EnvView};
use crate::status::{status_of, Code, Status, StatusView};
use crate::text::{
    blank,
    has_prefix,
    holds_text,
    is_blank,
    join2,
    join3,
    lemma_word,
    opt_nat_u64,
    parse_u64,
    parse_unsigned,
    same_text,
    split_on,
    split_text,
    split_words,
    strip_prefix,
    texts,
    trim,
    trim_text,
    words,
};
use base64::Engine;
use hmac::Mac;
use vstd::prelude::*;
use vstd::utf8::encode_utf8;

verus! {

/// The secret of an installation that has none; it is for development only.
pub const DEFAULT_AUTH_SECRET: &'static str = "dev-insecure-secret-change-me";

/// The header of every token that is minted.
pub const TOKEN_HEADER_JSON: &'static str = "{\"alg\":\"HS256\",\"typ\":\"JWT\"}";

#[derive(Debug, Clone, Copy, PartialEq, Eq, Structural)]
pub enum TokenKind {
    Workspace,
    Admin,
    Local,
}

impl TokenKind {
    pub open spec fn name(self) -> Seq<char> {
        match self {
            TokenKind::Workspace => "workspace"@,
            TokenKind::Admin => "admin"@,
            TokenKind::Local => "local"@,
        }
    }

    pub open spec fn named(value: Seq<char>) -> Option<TokenKind> {
        if value == "workspace"@ {
            Some(TokenKind::Workspace)
        } else if value == "admin"@ {
            Some(TokenKind::Admin)
        } else if value == "local"@ {
            Some(TokenKind::Local)
        } else {
            None
        }
    }

    pub fn as_str(&self) -> (r: &'static str)
        ensures
            r@ == self.name(),
    {
        match self {
            TokenKind::Workspace => "workspace",
            TokenKind::Admin => "admin",
            TokenKind::Local => "local",
        }
    }
}

pub fn parse_token_kind(value: &str) -> (r: Option<TokenKind>)
    ensures
        r == TokenKind::named(value@),
{
    if same_text(value, "workspace") {
        Some(TokenKind::Workspace)
    } else if same_text(value, "admin") {
        Some(TokenKind::Admin)
    } else if same_text(value, "local") {
        Some(TokenKind::Local)
    } else {
        None
    }
}

/// A kind is read back from the name that is minted into a token.
pub proof fn lemma_token_kind_round_trip(kind: TokenKind)
    ensures
        TokenKind::named(kind.name()) == Some(kind),
{
    reveal_strlit("workspace");
    reveal_strlit("admin");
    reveal_strlit("local");
    assert("workspace"@[0] == 'w');
    assert("admin"@[0] == 'a');
    assert("local"@[0] == 'l');
}

// ---------------------------------------------------------------------------
// Tokens
// ---------------------------------------------------------------------------

/// Bytes in the URL-safe alphabet of Base64, without padding.
pub uninterp spec fn base64url(bytes: Seq<u8>) -> Seq<char>;

/// The bytes that a text in the URL-safe alphabet of Base64 without padding stands for, if it
/// stands for any.
pub uninterp spec fn base64url_bytes(text: Seq<char>) -> Option<Seq<u8>>;

/// The HMAC-SHA-256 of a message under a secret.
pub uninterp spec fn hmac_sha256(secret: Seq<u8>, message: Seq<u8>) -> Seq<u8>;

/// `base64::Engine::encode` with `URL_SAFE_NO_PAD`: a function of the bytes, which decoding gives
/// back. Its alphabet is the letters, the digits, `-` and `_`, so that no dot is in the result.
#[verifier::external_body]
fn encode_base64url(bytes: &[u8]) -> (r: String)
    ensures
        r@ == base64url(bytes@),
        base64url_bytes(r@) == Some(bytes@),
        !r@.contains('.'),
{
    base64::engine::general_purpose::URL_SAFE_NO_PAD.encode(bytes)
}

/// `base64::Engine::decode` with `URL_SAFE_NO_PAD`: a function of the text.
#[verifier::external_body]
fn decode_base64url(text: &str) -> (r: Option<Vec<u8>>)
    ensures
        match r {
            Some(b) => base64url_bytes(text@) == Some(b@),
            None => base64url_bytes(text@) is None,
        },
{
    base64::engine::general_purpose::URL_SAFE_NO_PAD.decode(text).ok()
}

/// `hmac::Hmac` over `sha2::Sha256` by `new_from_slice`, `update` and `finalize`: a function of the
/// secret and the message. Keys of every length are taken.
#[verifier::external_body]
fn sign(secret: &[u8], message: &[u8]) -> (r: Vec<u8>)
    ensures
        r@ == hmac_sha256(secret@, message@),
{
    let mut mac = hmac::Hmac::<sha2::Sha256>::new_from_slice(secret).expect("any key length");
    mac.update(message);
    mac.finalize().into_bytes().to_vec()
}

/// `hmac::Mac::verify_slice`: true exactly for the message's own tag, in full length.
#[verifier::external_body]
fn is_signature(secret: &[u8], message: &[u8], tag: &[u8]) -> (r: bool)
    ensures
        r == (tag@ == hmac_sha256(secret@, message@)),
{
    let mut mac = hmac::Hmac::<sha2::Sha256>::new_from_slice(secret).expect("any key length");
    mac.update(message);
    mac.verify_slice(tag).is_ok()
}

/// Why a token is not accepted.
#[derive(Debug, Clone, Copy, PartialEq, Eq, Structural)]
pub enum TokenError {
    MissingClaims,
    MissingSignature,
    TooManySegments,
    SignatureEncoding,
    SignatureMismatch,
    ClaimsEncoding,
}

/// The claims of a token that a secret has signed: three segments, of which the third signs the
/// first two.
pub open spec fn token_claims(token: Seq<char>, secret: Seq<u8>) -> Result<Seq<u8>, TokenError> {
    let p = split_on(token, '.');
    if p.len() < 2 {
        Err(TokenError::MissingClaims)
    } else if p.len() < 3 {
        Err(TokenError::MissingSignature)
    } else if p.len() > 3 {
        Err(TokenError::TooManySegments)
    } else {
        match base64url_bytes(p[2]) {
            None => Err(TokenError::SignatureEncoding),
            Some(tag) => if tag != hmac_sha256(secret, encode_utf8(p[0] + seq!['.'] + p[1])) {
                Err(TokenError::SignatureMismatch)
            } else {
                match base64url_bytes(p[1]) {
                    None => Err(TokenError::ClaimsEncoding),
                    Some(claims) => Ok(claims),
                }
            },
        }
    }
}

proof fn lemma_split_without(s: Seq<char>, sep: char)
    requires
        !s.contains(sep),
    ensures
        split_on(s, sep) == seq![s],
    decreases s.len(),
{
    if s.len() > 0 {
        let t = s.drop_last();
        assert(!t.contains(sep)) by {
            if t.contains(sep) {
                let i = choose|i: int| 0 <= i < t.len() && t[i] == sep;
                assert(s[i] == sep);
            }
        }
        assert(s[s.len() - 1] == s.last());
        lemma_split_without(t, sep);
        assert(split_on(s, sep) =~= seq![t.push(s.last())]);
        assert(t.push(s.last()) =~= s);
    } else {
        assert(s =~= Seq::empty());
    }
}

proof fn lemma_split_append(a: Seq<char>, b: Seq<char>, sep: char)
    requires
        !b.contains(sep),
    ensures
        split_on(a + seq![sep] + b, sep) == split_on(a, sep).push(b),
    decreases b.len(),
{
    let s = a + seq![sep] + b;
    if b.len() == 0 {
        assert(s.drop_last() =~= a);
        assert(b =~= Seq::empty());
    } else {
        let c = b.drop_last();
        assert(!c.contains(sep)) by {
            if c.contains(sep) {
                let i = choose|i: int| 0 <= i < c.len() && c[i] == sep;
                assert(b[i] == sep);
            }
        }
        assert(b[b.len() - 1] == b.last());
        lemma_split_append(a, c, sep);
        assert(s.drop_last() =~= a + seq![sep] + c);
        let p = split_on(a, sep).push(c);
        assert(p.drop_last() =~= split_on(a, sep));
        assert(c.push(b.last()) =~= b);
    }
}

/// Signs claims. The token is accepted under the same secret, and gives the claims back; under
/// another secret it is accepted only if that secret signs the same.
pub fn encode_token(secret: &[u8], claims_json: &[u8]) -> (r: String)
    ensures
        token_claims(r@, secret@) == Ok::<Seq<u8>, TokenError>(claims_json@),
        ({
            let payload = base64url(encode_utf8(TOKEN_HEADER_JSON@)) + seq!['.'] + base64url(
                claims_json@,
            );
            &&& r@ == payload + seq!['.'] + base64url(
                hmac_sha256(secret@, encode_utf8(payload)),
            )
            &&& forall|other: Seq<u8>| #[trigger]
                token_claims(r@, other) is Ok <==> hmac_sha256(other, encode_utf8(payload))
                    == hmac_sha256(secret@, encode_utf8(payload))
        }),
{
    proof {
        reveal_strlit(".");
        assert("."@ =~= seq!['.']);
    }
    let header_b64 = encode_base64url(TOKEN_HEADER_JSON.as_bytes());
    let claims_b64 = encode_base64url(claims_json);
    let payload = join3(header_b64.as_str(), ".", claims_b64.as_str());
    let tag = sign(secret, payload.as_str().as_bytes());
    let signature_b64 = encode_base64url(tag.as_slice());
    let token = join3(payload.as_str(), ".", signature_b64.as_str());
    proof {
        lemma_split_without(header_b64@, '.');
        lemma_split_append(header_b64@, claims_b64@, '.');
        lemma_split_append(payload@, signature_b64@, '.');
        let p = split_on(token@, '.');
        assert(p =~= seq![header_b64@, claims_b64@, signature_b64@]);
    }
    token
}

/// The claims of a token that was signed with the secret.
pub fn verify_token_with_secret(token: &str, secret: &[u8]) -> (r: Result<Vec<u8>, TokenError>)
    ensures
        match r {
            Ok(c) => token_claims(token@, secret@) == Ok::<Seq<u8>, TokenError>(c@),
            Err(e) => token_claims(token@, secret@) == Err::<Seq<u8>, TokenError>(e),
        },
{
    let parts = split_text(token, '.');
    proof {
        assert(texts(parts@).len() == parts@.len());
        reveal_strlit(".");
        assert("."@ =~= seq!['.']);
    }
    if parts.len() < 2 {
        return Err(TokenError::MissingClaims);
    }
    if parts.len() < 3 {
        return Err(TokenError::MissingSignature);
    }
    if parts.len() > 3 {
        return Err(TokenError::TooManySegments);
    }
    proof {
        assert(texts(parts@)[0] == parts@[0]@);
        assert(texts(parts@)[1] == parts@[1]@);
        assert(texts(parts@)[2] == parts@[2]@);
    }
    let payload = join3(parts[0].as_str(), ".", parts[1].as_str());
    let tag = match decode_base64url(parts[2].as_str()) {
        Some(t) => t,
        None => {
            return Err(TokenError::SignatureEncoding);
        },
    };
    if !is_signature(secret, payload.as_str().as_bytes(), tag.as_slice()) {
        return Err(TokenError::SignatureMismatch);
    }
    match decode_base64url(parts[1].as_str()) {
        Some(c) => Ok(c),
        None => Err(TokenError::ClaimsEncoding),
    }
}

// ---------------------------------------------------------------------------
// Settings
// ---------------------------------------------------------------------------

#[derive(Debug, Clone)]
pub struct AuthConfig {
    pub active_secret: Vec<u8>,
    /// Secrets of before, whose tokens are still accepted.
    pub previous_secrets: Vec<Vec<u8>>,
    pub allow_local_without_token: bool,
    pub enforce_scopes: bool,
}

pub open spec fn byte_views(v: Seq<Vec<u8>>) -> Seq<Seq<u8>> {
    v.map_values(|b: Vec<u8>| b@)
}

#[verifier::ext_equal]
pub struct AuthView {
    pub active_secret: Seq<u8>,
    pub previous_secrets: Seq<Seq<u8>>,
    pub allow_local_without_token: bool,
    pub enforce_scopes: bool,
}

impl View for AuthConfig {
    type V = AuthView;

    open spec fn view(&self) -> AuthView {
        AuthView {
            active_secret: self.active_secret@,
            previous_secrets: byte_views(self.previous_secrets@),
            allow_local_without_token: self.allow_local_without_token,
            enforce_scopes: self.enforce_scopes,
        }
    }
}

/// The secrets in a list with commas between them, trimmed, without the blank ones.
pub open spec fn listed_secrets(parts: Seq<Seq<char>>) -> Seq<Seq<u8>>
    decreases parts.len(),
{
    if parts.len() == 0 {
        Seq::empty()
    } else {
        let before = listed_secrets(parts.drop_last());
        let last = trim(parts.last());
        if last.len() == 0 {
            before
        } else {
            before.push(encode_utf8(last))
        }
    }
}

/// The secret that tokens are signed with.
pub open spec fn active_secret_of(v: EnvView) -> Seq<char> {
    match v {
        EnvView::Text(s) => s,
        _ => DEFAULT_AUTH_SECRET@,
    }
}

pub open spec fn auth_of(
    secret: EnvView,
    dev_mode: EnvView,
    previous: EnvView,
    allow_local: EnvView,
    enforce_scopes: EnvView,
) -> Result<AuthView, Seq<char>> {
    let active = active_secret_of(secret);
    let is_default = active == DEFAULT_AUTH_SECRET@;
    if active.len() == 0 {
        Err("SCRYD_AUTH_SECRET cannot be empty"@)
    } else if is_default && flag_setting("SCRYD_DEV_MODE"@, dev_mode, false) is Err {
        Err(flag_setting("SCRYD_DEV_MODE"@, dev_mode, false)->Err_0)
    } else if is_default && flag_setting("SCRYD_DEV_MODE"@, dev_mode, false) == Ok::<
        bool,
        Seq<char>,
    >(false) {
        Err(
            "SCRYD_AUTH_SECRET is set to the default insecure value. Refusing to start without SCRYD_DEV_MODE=1; see docs/hardening.md"@,
        )
    } else if previous is NotUnicode {
        Err("SCRYD_AUTH_PREVIOUS_SECRETS must be valid unicode"@)
    } else {
        match flag_setting("SCRYD_ALLOW_LOCAL_NO_AUTH"@, allow_local, false) {
            Err(m) => Err(m),
            Ok(local) => match flag_setting("SCRYD_AUTH_ENFORCE_SCOPES"@, enforce_scopes, true) {
                Err(m) => Err(m),
                Ok(enforce) => Ok(
                    AuthView {
                        active_secret: encode_utf8(active),
                        previous_secrets: match previous {
                            EnvView::Text(raw) => listed_secrets(split_on(raw, ',')),
                            _ => Seq::empty(),
                        },
                        allow_local_without_token: local,
                        enforce_scopes: enforce,
                    },
                ),
            },
        }
    }
}

fn bytes_of(s: &str) -> (r: Vec<u8>)
    ensures
        r@ == encode_utf8(s@),
{
    let b = s.as_bytes();
    let mut r: Vec<u8> = Vec::new();
    let mut i: usize = 0;
    while i < b.len()
        invariant
            i <= b@.len(),
            r@ == b@.take(i as int),
        decreases b@.len() - i,
    {
        r.push(b[i]);
        proof {
            assert(r@ =~= b@.take(i + 1));
        }
        i += 1;
    }
    proof {
        assert(b@.take(b@.len() as int) =~= b@);
    }
    r
}

fn read_secret_list(raw: &str) -> (r: Vec<Vec<u8>>)
    ensures
        byte_views(r@) == listed_secrets(split_on(raw@, ',')),
{
    let parts = split_text(raw, ',');
    let ghost all = texts(parts@);
    let mut out: Vec<Vec<u8>> = Vec::new();
    let mut i: usize = 0;
    proof {
        assert(all.take(0) =~= Seq::empty());
        assert(byte_views(out@) =~= Seq::empty());
    }
    while i < parts.len()
        invariant
            all == texts(parts@),
            i <= parts@.len(),
            byte_views(out@) == listed_secrets(all.take(i as int)),
        decreases parts@.len() - i,
    {
        let s = trim_text(parts[i].as_str());
        let ghost before = byte_views(out@);
        proof {
            assert(all.take(i + 1).drop_last() =~= all.take(i as int));
            assert(all.take(i + 1).last() == parts@[i as int]@);
        }
        if !s.as_str().is_empty() {
            let b = bytes_of(s.as_str());
            let ghost bv = b@;
            out.push(b);
            proof {
                assert(byte_views(out@) =~= before.push(bv));
            }
        }
        i += 1;
    }
    proof {
        assert(all.take(all.len() as int) =~= all);
    }
    out
}

/// The settings of authentication. The secret for development is refused, unless the server runs
/// for development.
pub fn auth_from_settings(
    secret: &EnvValue,
    dev_mode: &EnvValue,
    previous_secrets: &EnvValue,
    allow_local_no_auth: &EnvValue,
    enforce_scopes: &EnvValue,
) -> (r: Result<AuthConfig, String>)
    ensures
        match r {
            Ok(c) => auth_of(
                secret@,
                dev_mode@,
                previous_secrets@,
                allow_local_no_auth@,
                enforce_scopes@,
            ) == Ok::<AuthView, Seq<char>>(c@),
            Err(m) => auth_of(
                secret@,
                dev_mode@,
                previous_secrets@,
                allow_local_no_auth@,
                enforce_scopes@,
            ) == Err::<AuthView, Seq<char>>(m@),
        },
{
    let active: &str = match secret {
        EnvValue::Text(s) => s.as_str(),
        _ => DEFAULT_AUTH_SECRET,
    };
    if active.is_empty() {
        return Err("SCRYD_AUTH_SECRET cannot be empty".to_owned());
    }
    if same_text(active, DEFAULT_AUTH_SECRET) {
        match env_bool_with_default("SCRYD_DEV_MODE", dev_mode, false) {
            Ok(dev) => {
                if !dev {
                    return Err(
                        "SCRYD_AUTH_SECRET is set to the default insecure value. Refusing to start without SCRYD_DEV_MODE=1; see docs/hardening.md".to_owned(),
                    );
                }
            },
            Err(m) => {
                return Err(m);
            },
        }
    }
    let previous: Vec<Vec<u8>> = match previous_secrets {
        EnvValue::Text(raw) => read_secret_list(raw.as_str()),
        EnvValue::Unset => {
            let none: Vec<Vec<u8>> = Vec::new();
            proof {
                assert(byte_views(none@) =~= Seq::empty());
            }
            none
        },
        EnvValue::NotUnicode => {
            return Err("SCRYD_AUTH_PREVIOUS_SECRETS must be valid unicode".to_owned());
        },
    };
    let local = match env_bool_with_default(
        "SCRYD_ALLOW_LOCAL_NO_AUTH",
        allow_local_no_auth,
        false,
    ) {
        Ok(b) => b,
        Err(m) => {
            return Err(m);
        },
    };
    let enforce = match env_bool_with_default("SCRYD_AUTH_ENFORCE_SCOPES", enforce_scopes, true) {
        Ok(b) => b,
        Err(m) => {
            return Err(m);
        },
    };
    Ok(
        AuthConfig {
            active_secret: bytes_of(active),
            previous_secrets: previous,
            allow_local_without_token: local,
            enforce_scopes: enforce,
        },
    )
}

// ---------------------------------------------------------------------------
// Who is asking
// ---------------------------------------------------------------------------

/// What the header of a request amounts to.
#[derive(Debug, Clone)]
pub enum Credentials {
    /// No token is needed.
    NotNeeded,
    /// A signed token with these claims, as JSON.
    Claims(Vec<u8>),
    Refused(Status),
}

#[verifier::ext_equal]
pub enum CredentialsView {
    NotNeeded,
    Claims(Seq<u8>),
    Refused(StatusView),
}

impl View for Credentials {
    type V = CredentialsView;

    open spec fn view(&self) -> CredentialsView {
        match *self {
            Credentials::NotNeeded => CredentialsView::NotNeeded,
            Credentials::Claims(c) => CredentialsView::Claims(c@),
            Credentials::Refused(s) => CredentialsView::Refused(s@),
        }
    }
}

/// The claims of a token under the first of the secrets that accepts it.
pub open spec fn claims_under(token: Seq<char>, secrets: Seq<Seq<u8>>) -> Option<Seq<u8>>
    decreases secrets.len(),
{
    if secrets.len() == 0 {
        None
    } else {
        match token_claims(token, secrets[0]) {
            Ok(c) => Some(c),
            Err(_) => claims_under(token, secrets.drop_first()),
        }
    }
}

/// The credentials in an authorization header, which is empty where there is none.
pub open spec fn credentials_of(header: Seq<char>, auth: AuthView) -> CredentialsView {
    let h = trim(header);
    if h.len() == 0 && auth.allow_local_without_token {
        CredentialsView::NotNeeded
    } else if !has_prefix(h, "Bearer "@) {
        CredentialsView::Refused(
            status_of(Code::Unauthenticated, "missing bearer authorization token"@),
        )
    } else {
        match claims_under(
            h.skip("Bearer "@.len() as int),
            seq![auth.active_secret] + auth.previous_secrets,
        ) {
            Some(c) => CredentialsView::Claims(c),
            None => CredentialsView::Refused(
                status_of(Code::Unauthenticated, "invalid token signature"@),
            ),
        }
    }
}

/// Reads the authorization header of a request.
pub fn read_credentials(header: &str, auth: &AuthConfig) -> (r: Credentials)
    ensures
        r@ == credentials_of(header@, auth@),
{
    let h = trim_text(header);
    if h.as_str().is_empty() && auth.allow_local_without_token {
        return Credentials::NotNeeded;
    }
    let token = match strip_prefix(h.as_str(), "Bearer ") {
        Some(t) => t,
        None => {
            return Credentials::Refused(
                Status::new(Code::Unauthenticated, "missing bearer authorization token"),
            );
        },
    };
    let ghost secrets = seq![auth@.active_secret] + auth@.previous_secrets;
    proof {
        assert(secrets.drop_first() =~= auth@.previous_secrets);
        assert(auth@.previous_secrets.skip(0) =~= auth@.previous_secrets);
    }
    match verify_token_with_secret(token.as_str(), auth.active_secret.as_slice()) {
        Ok(c) => {
            return Credentials::Claims(c);
        },
        Err(_) => {},
    }
    let mut i: usize = 0;
    while i < auth.previous_secrets.len()
        invariant
            i <= auth.previous_secrets@.len(),
            claims_under(token@, secrets) == claims_under(
                token@,
                auth@.previous_secrets.skip(i as int),
            ),
            secrets == seq![auth@.active_secret] + auth@.previous_secrets,
            h@ == trim(header@),
            has_prefix(h@, "Bearer "@),
            token@ == h@.skip("Bearer "@.len() as int),
            !(h@.len() == 0 && auth.allow_local_without_token),
        decreases auth.previous_secrets@.len() - i,
    {
        proof {
            assert(auth@.previous_secrets.skip(i as int)[0]
                == auth.previous_secrets@[i as int]@);
            assert(auth@.previous_secrets.skip(i as int).drop_first()
                =~= auth@.previous_secrets.skip(i + 1));
        }
        match verify_token_with_secret(token.as_str(), auth.previous_secrets[i].as_slice()) {
            Ok(c) => {
                return Credentials::Claims(c);
            },
            Err(_) => {},
        }
        i += 1;
    }
    Credentials::Refused(Status::new(Code::Unauthenticated, "invalid token signature"))
}

/// The claims of a token.
#[derive(Debug, Clone, PartialEq, Eq)]
pub struct TokenClaims {
    pub ws: Option<String>,
    pub kind: String,
    pub exp: u64,
    pub scope: Option<String>,
    pub scp: Vec<String>,
}

#[verifier::ext_equal]
pub struct ClaimsView {
    pub ws: Option<Seq<char>>,
    pub kind: Seq<char>,
    pub exp: u64,
    pub scope: Option<Seq<char>>,
    pub scp: Seq<Seq<char>>,
}

impl View for TokenClaims {
    type V = ClaimsView;

    open spec fn view(&self) -> ClaimsView {
        ClaimsView {
            ws: opt_string(self.ws),
            kind: self.kind@,
            exp: self.exp,
            scope: opt_string(self.scope),
            scp: texts(self.scp@),
        }
    }
}

// ---------------------------------------------------------------------------
// Scopes
// ---------------------------------------------------------------------------

/// The texts that are not blank, trimmed.
pub open spec fn trimmed_words(v: Seq<Seq<char>>) -> Seq<Seq<char>>
    decreases v.len(),
{
    if v.len() == 0 {
        Seq::empty()
    } else {
        let before = trimmed_words(v.drop_last());
        let last = trim(v.last());
        if last.len() == 0 {
            before
        } else {
            before.push(last)
        }
    }
}

impl ClaimsView {
    /// The scopes that a token grants: the words of its scope, and its list of scopes.
    pub open spec fn scopes(self) -> Seq<Seq<char>> {
        (match self.scope {
            Some(s) => words(s),
            None => Seq::empty(),
        }) + trimmed_words(self.scp)
    }

    /// A token grants a scope by naming it, or by a star.
    pub open spec fn grants(self, scope: Seq<char>) -> bool {
        self.scopes().contains(scope) || self.scopes().contains("*"@)
    }
}

fn parse_scope_set(claims: &TokenClaims) -> (r: Vec<String>)
    ensures
        texts(r@) == claims@.scopes(),
{
    let mut out = match &claims.scope {
        Some(s) => split_words(s.as_str()),
        None => {
            let none: Vec<String> = Vec::new();
            proof {
                assert(texts(none@) =~= Seq::empty());
            }
            none
        },
    };
    let ghost first = texts(out@);
    let ghost all = texts(claims.scp@);
    let mut i: usize = 0;
    proof {
        assert(all.take(0) =~= Seq::empty());
        assert(first + Seq::empty() =~= first);
    }
    while i < claims.scp.len()
        invariant
            all == texts(claims.scp@),
            i <= claims.scp@.len(),
            texts(out@) == first + trimmed_words(all.take(i as int)),
        decreases claims.scp@.len() - i,
    {
        let s = trim_text(claims.scp[i].as_str());
        let ghost before = texts(out@);
        let ghost sv = s@;
        proof {
            assert(all.take(i + 1).drop_last() =~= all.take(i as int));
            assert(all.take(i + 1).last() == claims.scp@[i as int]@);
        }
        if !s.as_str().is_empty() {
            out.push(s);
            proof {
                assert(texts(out@) =~= before.push(sv));
                assert(before.push(sv) =~= first + trimmed_words(all.take(i as int)).push(sv));
            }
        }
        i += 1;
    }
    proof {
        assert(all.take(all.len() as int) =~= all);
    }
    out
}

fn has_scope(scopes: &Vec<String>, required: &str) -> (r: bool)
    ensures
        r == (texts(scopes@).contains(required@) || texts(scopes@).contains("*"@)),
{
    holds_text(scopes, required) || holds_text(scopes, "*")
}

// ---------------------------------------------------------------------------
// What is allowed
// ---------------------------------------------------------------------------

/// What a request needs.
#[derive(Debug, Clone, PartialEq, Eq)]
pub enum AuthRequirement {
    WorkspaceScoped { workspace_id: String, required_scope: String },
    AdminOnly { required_scope: String },
}

#[verifier::ext_equal]
pub enum RequirementView {
    WorkspaceScoped { workspace_id: Seq<char>, required_scope: Seq<char> },
    AdminOnly { required_scope: Seq<char> },
}

impl View for AuthRequirement {
    type V = RequirementView;

    open spec fn view(&self) -> RequirementView {
        match *self {
            AuthRequirement::WorkspaceScoped { workspace_id, required_scope } =>
                RequirementView::WorkspaceScoped {
                workspace_id: workspace_id@,
                required_scope: required_scope@,
            },
            AuthRequirement::AdminOnly { required_scope } => RequirementView::AdminOnly {
                required_scope: required_scope@,
            },
        }
    }
}

impl RequirementView {
    pub open spec fn scope(self) -> Seq<char> {
        match self {
            RequirementView::WorkspaceScoped { required_scope, .. } => required_scope,
            RequirementView::AdminOnly { required_scope } => required_scope,
        }
    }
}

/// Why claims do not meet a requirement at the time `now`, if they do not. Admin tokens meet every
/// requirement, local ones those on workspaces, and a workspace's own those on that workspace;
/// where scopes are enforced, the token has to grant the scope too.
pub open spec fn denial(
    claims: ClaimsView,
    enforce_scopes: bool,
    now: u64,
    requirement: RequirementView,
) -> Option<StatusView> {
    let kind = TokenKind::named(claims.kind);
    let scope_missing = enforce_scopes && !claims.grants(requirement.scope());
    if claims.exp <= now {
        Some(status_of(Code::Unauthenticated, "token expired"@))
    } else if kind is None {
        Some(status_of(Code::Unauthenticated, "unknown token kind"@))
    } else {
        match requirement {
            RequirementView::AdminOnly { .. } => if kind != Some(TokenKind::Admin) {
                Some(status_of(Code::PermissionDenied, "admin token required"@))
            } else if scope_missing {
                Some(status_of(Code::PermissionDenied, "required scope missing"@))
            } else {
                None
            },
            RequirementView::WorkspaceScoped { workspace_id, .. } => if scope_missing {
                Some(status_of(Code::PermissionDenied, "required scope missing"@))
            } else if kind == Some(TokenKind::Workspace) && claims.ws != Some(workspace_id) {
                Some(status_of(Code::PermissionDenied, "workspace token mismatch"@))
            } else {
                None
            },
        }
    }
}

/// How often requests were let through or not.
#[derive(Debug, Clone, Copy, PartialEq, Eq, Structural)]
pub struct AuthCounters {
    pub success_total: u64,
    pub unauthenticated_total: u64,
    pub denied_total: u64,
}

impl AuthCounters {
    /// The counters behind a decision on claims. A token of an unknown kind counts for nothing, and
    /// counters wrap around.
    pub open spec fn decided(self, decision: Option<StatusView>) -> AuthCounters {
        match decision {
            None => AuthCounters {
                success_total: crate::credits::wrapped_sum(self.success_total, 1),
                ..self
            },
            Some(s) => if s.code == Code::PermissionDenied {
                AuthCounters {
                    denied_total: crate::credits::wrapped_sum(self.denied_total, 1),
                    ..self
                }
            } else if s.message == "token expired"@ {
                AuthCounters {
                    unauthenticated_total: crate::credits::wrapped_sum(
                        self.unauthenticated_total,
                        1,
                    ),
                    ..self
                }
            } else {
                self
            },
        }
    }

    pub fn new() -> (r: AuthCounters)
        ensures
            r == (AuthCounters { success_total: 0, unauthenticated_total: 0, denied_total: 0 }),
    {
        AuthCounters { success_total: 0, unauthenticated_total: 0, denied_total: 0 }
    }

    fn deny(&mut self, message: &str) -> (r: Status)
        ensures
            r@ == status_of(Code::PermissionDenied, message@),
            *final(self) == old(self).decided(Some(r@)),
    {
        self.denied_total = self.denied_total.wrapping_add(1);
        Status::new(Code::PermissionDenied, message)
    }

    fn allow(&mut self)
        ensures
            *final(self) == old(self).decided(None),
    {
        self.success_total = self.success_total.wrapping_add(1);
    }
}

/// Decides on a request by the claims of its token, and counts the decision.
pub fn authorize(
    claims: &TokenClaims,
    auth: &AuthConfig,
    now_unix_secs: u64,
    requirement: &AuthRequirement,
    counters: &mut AuthCounters,
) -> (r: Result<(), Status>)
    ensures
        match denial(claims@, auth.enforce_scopes, now_unix_secs, requirement@) {
            None => r is Ok,
            Some(s) => r matches Err(e) && e@ == s,
        },
        *final(counters) == old(counters).decided(
            denial(claims@, auth.enforce_scopes, now_unix_secs, requirement@),
        ),
{
    proof {
        reveal_strlit("token expired");
        reveal_strlit("unknown token kind");
        assert("token expired"@.len() != "unknown token kind"@.len());
    }
    if claims.exp <= now_unix_secs {
        counters.unauthenticated_total = counters.unauthenticated_total.wrapping_add(1);
        return Err(Status::new(Code::Unauthenticated, "token expired"));
    }
    let kind = match parse_token_kind(claims.kind.as_str()) {
        Some(k) => k,
        None => {
            return Err(Status::new(Code::Unauthenticated, "unknown token kind"));
        },
    };
    let scopes = parse_scope_set(claims);
    match requirement {
        AuthRequirement::AdminOnly { required_scope } => {
            if kind != TokenKind::Admin {
                return Err(counters.deny("admin token required"));
            }
            if auth.enforce_scopes && !has_scope(&scopes, required_scope.as_str()) {
                return Err(counters.deny("required scope missing"));
            }
            counters.allow();
            Ok(())
        },
        AuthRequirement::WorkspaceScoped { workspace_id, required_scope } => {
            if auth.enforce_scopes && !has_scope(&scopes, required_scope.as_str()) {
                return Err(counters.deny("required scope missing"));
            }
            if kind == TokenKind::Workspace {
                let matches_workspace = match &claims.ws {
                    Some(ws) => same_text(ws.as_str(), workspace_id.as_str()),
                    None => false,
                };
                if !matches_workspace {
                    return Err(counters.deny("workspace token mismatch"));
                }
            }
            counters.allow();
            Ok(())
        },
    }
}

/// Decides on a request whose header was read; `parsed` is what the claims are as JSON, where they
/// are well formed.
pub fn verify_auth(
    credentials: &Credentials,
    parsed: Option<TokenClaims>,
    auth: &AuthConfig,
    now_unix_secs: u64,
    requirement: &AuthRequirement,
    counters: &mut AuthCounters,
) -> (r: Result<(), Status>)
    ensures
        match (credentials@, parsed) {
            (CredentialsView::NotNeeded, _) => r is Ok && *final(counters) == *old(counters),
            (CredentialsView::Refused(s), _) => r matches Err(e) && e@ == s && *final(counters)
                == *old(counters),
            (CredentialsView::Claims(_), None) => r matches Err(e) && e@ == status_of(
                Code::Unauthenticated,
                "invalid token signature"@,
            ) && *final(counters) == *old(counters),
            (CredentialsView::Claims(_), Some(claims)) => {
                let d = denial(claims@, auth.enforce_scopes, now_unix_secs, requirement@);
                &&& match d {
                    None => r is Ok,
                    Some(s) => r matches Err(e) && e@ == s,
                }
                &&& *final(counters) == old(counters).decided(d)
            },
        },
{
    match credentials {
        Credentials::NotNeeded => Ok(()),
        Credentials::Refused(s) => Err(Status { code: s.code, message: s.message.clone() }),
        Credentials::Claims(_) => match parsed {
            None => Err(Status::new(Code::Unauthenticated, "invalid token signature")),
            Some(claims) => authorize(&claims, auth, now_unix_secs, requirement, counters),
        },
    }
}

/// The requirement of a request on a workspace.
pub fn workspace_requirement(workspace_id: &str) -> (r: AuthRequirement)
    ensures
        r@ == (RequirementView::WorkspaceScoped {
            workspace_id: workspace_id@,
            required_scope: "workspace.access"@,
        }),
{
    AuthRequirement::WorkspaceScoped {
        workspace_id: workspace_id.to_owned(),
        required_scope: "workspace.access".to_owned(),
    }
}

/// A workspace's token opens no other workspace, and none but an admin's token meets a requirement
/// of admins.
pub proof fn lemma_tokens_are_confined(
    claims: ClaimsView,
    enforce_scopes: bool,
    now: u64,
    workspace_id: Seq<char>,
    scope: Seq<char>,
)
    ensures
        TokenKind::named(claims.kind) == Some(TokenKind::Workspace) && claims.ws != Some(
            workspace_id,
        ) ==> denial(
            claims,
            enforce_scopes,
            now,
            RequirementView::WorkspaceScoped { workspace_id, required_scope: scope },
        ) is Some,
        TokenKind::named(claims.kind) != Some(TokenKind::Admin) ==> denial(
            claims,
            enforce_scopes,
            now,
            RequirementView::AdminOnly { required_scope: scope },
        ) is Some,
{
}

/// A token that has expired meets no requirement, and one that is met by a token that expires
/// earlier is met by it.
pub proof fn lemma_expiry(
    claims: ClaimsView,
    later: ClaimsView,
    enforce_scopes: bool,
    now: u64,
    requirement: RequirementView,
)
    requires
        later == (ClaimsView { exp: later.exp, ..claims }),
        claims.exp <= later.exp,
    ensures
        claims.exp <= now ==> denial(claims, enforce_scopes, now, requirement) is Some,
        denial(claims, enforce_scopes, now, requirement) is None ==> denial(
            later,
            enforce_scopes,
            now,
            requirement,
        ) is None,
{
}

/// A token stays valid when the secret is changed, as long as the old secret is kept among those of
/// before.
pub proof fn lemma_rotation_keeps_tokens(
    token: Seq<char>,
    new_secret: Seq<u8>,
    previous: Seq<Seq<u8>>,
    k: int,
)
    requires
        0 <= k < previous.len(),
        token_claims(token, previous[k]) is Ok,
    ensures
        claims_under(token, seq![new_secret] + previous) is Some,
    decreases previous.len(),
{
    let all = seq![new_secret] + previous;
    assert(all.drop_first() =~= previous);
    if token_claims(token, new_secret) is Err {
        lemma_some_secret_accepts(token, previous, k);
    }
}

proof fn lemma_some_secret_accepts(token: Seq<char>, secrets: Seq<Seq<u8>>, k: int)
    requires
        0 <= k < secrets.len(),
        token_claims(token, secrets[k]) is Ok,
    ensures
        claims_under(token, secrets) is Some,
    decreases secrets.len(),
{
    if token_claims(token, secrets[0]) is Err {
        assert(secrets.drop_first()[k - 1] == secrets[k]);
        lemma_some_secret_accepts(token, secrets.drop_first(), k - 1);
    }
}

// ---------------------------------------------------------------------------
// Minting
// ---------------------------------------------------------------------------

#[derive(Debug, Clone, PartialEq, Eq)]
pub struct MintTokenArgs {
    pub kind: TokenKind,
    pub workspace_id: Option<String>,
    pub scope: String,
    pub ttl_secs: u64,
    pub secret: Vec<u8>,
}

#[verifier::ext_equal]
pub struct MintState {
    pub kind: TokenKind,
    pub workspace_id: Option<Seq<char>>,
    pub scope: Seq<char>,
    pub ttl_secs: u64,
    pub secret: Option<Seq<char>>,
}

#[verifier::ext_equal]
pub struct MintView {
    pub kind: TokenKind,
    pub workspace_id: Option<Seq<char>>,
    pub scope: Seq<char>,
    pub ttl_secs: u64,
    pub secret: Seq<u8>,
}

impl View for MintTokenArgs {
    type V = MintView;

    open spec fn view(&self) -> MintView {
        MintView {
            kind: self.kind,
            workspace_id: opt_string(self.workspace_id),
            scope: self.scope@,
            ttl_secs: self.ttl_secs,
            secret: self.secret@,
        }
    }
}

/// What the arguments of a minting come to.
#[derive(Debug, Clone, PartialEq, Eq)]
pub enum MintRequest {
    Help,
    Mint(MintTokenArgs),
}

#[verifier::ext_equal]
pub enum MintRequestView {
    Help,
    Mint(MintView),
}

impl View for MintRequest {
    type V = MintRequestView;

    open spec fn view(&self) -> MintRequestView {
        match *self {
            MintRequest::Help => MintRequestView::Help,
            MintRequest::Mint(a) => MintRequestView::Mint(a@),
        }
    }
}

/// Checks what the arguments have set. Without a secret among them that of the environment is
/// taken, unless it is the one for development.
pub open spec fn mint_checked(s: MintState, env_secret: Option<Seq<char>>) -> Result<
    MintView,
    Seq<char>,
> {
    let from_env = match env_secret {
        Some(e) => e,
        None => DEFAULT_AUTH_SECRET@,
    };
    let secret = match s.secret {
        Some(x) => x,
        None => from_env,
    };
    if is_blank(s.scope) {
        Err("--scope cannot be empty"@)
    } else if s.ttl_secs == 0 {
        Err("--ttl-secs must be > 0"@)
    } else if s.kind == TokenKind::Workspace && (s.workspace_id is None || is_blank(
        s.workspace_id->0,
    )) {
        Err("workspace token requires --workspace-id <id>"@)
    } else if s.secret is None && from_env == DEFAULT_AUTH_SECRET@ {
        Err(
            "mint-token requires --secret or SCRYD_AUTH_SECRET set to a non-default value; see docs/hardening.md"@,
        )
    } else if secret.len() == 0 {
        Err("signing secret cannot be empty"@)
    } else {
        Ok(
            MintView {
                kind: s.kind,
                workspace_id: s.workspace_id,
                scope: s.scope,
                ttl_secs: s.ttl_secs,
                secret: encode_utf8(secret),
            },
        )
    }
}

/// Reads the arguments from `i` on; a later one outdoes an earlier one.
pub open spec fn mint_args_from(
    args: Seq<Seq<char>>,
    i: int,
    s: MintState,
    env_secret: Option<Seq<char>>,
) -> Result<MintRequestView, Seq<char>>
    decreases args.len() - i,
{
    if i >= args.len() {
        match mint_checked(s, env_secret) {
            Ok(m) => Ok(MintRequestView::Mint(m)),
            Err(e) => Err(e),
        }
    } else if args[i] == "--kind"@ {
        if i + 1 >= args.len() {
            Err("missing value for --kind (workspace/admin/local)"@)
        } else {
            match TokenKind::named(trim(args[i + 1])) {
                Some(kind) => mint_args_from(args, i + 2, MintState { kind, ..s }, env_secret),
                None => Err("invalid --kind value: "@ + args[i + 1]),
            }
        }
    } else if args[i] == "--workspace-id"@ {
        if i + 1 >= args.len() {
            Err("missing value for --workspace-id"@)
        } else {
            mint_args_from(
                args,
                i + 2,
                MintState { workspace_id: Some(trim(args[i + 1])), ..s },
                env_secret,
            )
        }
    } else if args[i] == "--scope"@ {
        if i + 1 >= args.len() {
            Err("missing value for --scope"@)
        } else {
            mint_args_from(args, i + 2, MintState { scope: trim(args[i + 1]), ..s }, env_secret)
        }
    } else if args[i] == "--ttl-secs"@ {
        if i + 1 >= args.len() {
            Err("missing value for --ttl-secs"@)
        } else {
            match parse_unsigned(args[i + 1], u64::MAX as nat) {
                Some(n) => mint_args_from(
                    args,
                    i + 2,
                    MintState { ttl_secs: n as u64, ..s },
                    env_secret,
                ),
                None => Err("invalid --ttl-secs value: "@ + args[i + 1]),
            }
        }
    } else if args[i] == "--secret"@ {
        if i + 1 >= args.len() {
            Err("missing value for --secret"@)
        } else {
            mint_args_from(args, i + 2, MintState { secret: Some(args[i + 1]), ..s }, env_secret)
        }
    } else if args[i] == "--help"@ || args[i] == "-h"@ {
        Ok(MintRequestView::Help)
    } else {
        Err("unknown mint-token argument: "@ + args[i])
    }
}

/// What is minted without any arguments.
pub open spec fn mint_start(default_ttl_secs: u64) -> MintState {
    MintState {
        kind: TokenKind::Workspace,
        workspace_id: None,
        scope: "workspace.access"@,
        ttl_secs: default_ttl_secs,
        secret: None,
    }
}

fn check_mint(
    kind: TokenKind,
    workspace_id: Option<String>,
    scope: String,
    ttl_secs: u64,
    secret: Option<String>,
    env_secret: Option<&str>,
) -> (r: Result<MintTokenArgs, String>)
    ensures
        match r {
            Ok(a) => mint_checked(
                MintState {
                    kind,
                    workspace_id: opt_string(workspace_id),
                    scope: scope@,
                    ttl_secs,
                    secret: opt_string(secret),
                },
                crate::paths::opt_text(env_secret),
            ) == Ok::<MintView, Seq<char>>(a@),
            Err(m) => mint_checked(
                MintState {
                    kind,
                    workspace_id: opt_string(workspace_id),
                    scope: scope@,
                    ttl_secs,
                    secret: opt_string(secret),
                },
                crate::paths::opt_text(env_secret),
            ) == Err::<MintView, Seq<char>>(m@),
        },
{
    if blank(scope.as_str()) {
        return Err("--scope cannot be empty".to_owned());
    }
    if ttl_secs == 0 {
        return Err("--ttl-secs must be > 0".to_owned());
    }
    if kind == TokenKind::Workspace {
        let given = match &workspace_id {
            Some(ws) => !blank(ws.as_str()),
            None => false,
        };
        if !given {
            return Err("workspace token requires --workspace-id <id>".to_owned());
        }
    }
    let bytes = match secret {
        Some(s) => bytes_of(s.as_str()),
        None => {
            let candidate: &str = match env_secret {
                Some(s) => s,
                None => DEFAULT_AUTH_SECRET,
            };
            if same_text(candidate, DEFAULT_AUTH_SECRET) {
                return Err(
                    "mint-token requires --secret or SCRYD_AUTH_SECRET set to a non-default value; see docs/hardening.md".to_owned(),
                );
            }
            bytes_of(candidate)
        },
    };
    proof {
        let text = match opt_string(secret) {
            Some(x) => x,
            None => match crate::paths::opt_text(env_secret) {
                Some(e) => e,
                None => DEFAULT_AUTH_SECRET@,
            },
        };
        assert(bytes@ == encode_utf8(text));
        assert((text.len() == 0) == (bytes@.len() == 0)) by {
            vstd::utf8::encode_utf8_decode_utf8(text);
            vstd::utf8::encode_utf8_valid_utf8(text);
            if bytes@.len() == 0 {
                assert(bytes@ =~= Seq::empty());
                assert(vstd::utf8::decode_utf8(bytes@) =~= Seq::empty());
            }
        }
    }
    if bytes.len() == 0 {
        return Err("signing secret cannot be empty".to_owned());
    }
    Ok(MintTokenArgs { kind, workspace_id, scope, ttl_secs, secret: bytes })
}

/// Reads the arguments of a minting.
pub fn parse_mint_token_args(
    args: &Vec<String>,
    default_ttl_secs: u64,
    env_secret: Option<&str>,
) -> (r: Result<MintRequest, String>)
    ensures
        match r {
            Ok(m) => mint_args_from(
                texts(args@),
                0,
                mint_start(default_ttl_secs),
                crate::paths::opt_text(env_secret),
            ) == Ok::<MintRequestView, Seq<char>>(m@),
            Err(e) => mint_args_from(
                texts(args@),
                0,
                mint_start(default_ttl_secs),
                crate::paths::opt_text(env_secret),
            ) == Err::<MintRequestView, Seq<char>>(e@),
        },
{
    let ghost all = texts(args@);
    let ghost env = crate::paths::opt_text(env_secret);
    let mut kind = TokenKind::Workspace;
    let mut workspace_id: Option<String> = None;
    let mut scope: String = "workspace.access".to_owned();
    let mut ttl_secs: u64 = default_ttl_secs;
    let mut secret: Option<String> = None;
    let mut i: usize = 0;
    while i < args.len()
        invariant
            all == texts(args@),
            env == crate::paths::opt_text(env_secret),
            i <= args@.len(),
            mint_args_from(all, 0, mint_start(default_ttl_secs), env) == mint_args_from(
                all,
                i as int,
                MintState {
                    kind,
                    workspace_id: opt_string(workspace_id),
                    scope: scope@,
                    ttl_secs,
                    secret: opt_string(secret),
                },
                env,
            ),
        decreases args@.len() - i,
    {
        let flag = args[i].as_str();
        assert(all[i as int] == flag@);
        if same_text(flag, "--help") || same_text(flag, "-h") {
            proof {
                lemma_mint_flags();
            }
            return Ok(MintRequest::Help);
        }
        let is_kind = same_text(flag, "--kind");
        let is_workspace = same_text(flag, "--workspace-id");
        let is_scope = same_text(flag, "--scope");
        let is_ttl = same_text(flag, "--ttl-secs");
        let is_secret = same_text(flag, "--secret");
        if !is_kind && !is_workspace && !is_scope && !is_ttl && !is_secret {
            return Err(join2("unknown mint-token argument: ", flag));
        }
        if i + 1 >= args.len() {
            if is_kind {
                return Err("missing value for --kind (workspace/admin/local)".to_owned());
            }
            if is_workspace {
                return Err("missing value for --workspace-id".to_owned());
            }
            if is_scope {
                return Err("missing value for --scope".to_owned());
            }
            if is_ttl {
                return Err("missing value for --ttl-secs".to_owned());
            }
            return Err("missing value for --secret".to_owned());
        }
        let raw = args[i + 1].as_str();
        assert(all[i + 1] == raw@);
        if is_kind {
            match parse_token_kind(trim_text(raw).as_str()) {
                Some(k) => {
                    kind = k;
                },
                None => {
                    return Err(join2("invalid --kind value: ", raw));
                },
            }
        } else if is_workspace {
            workspace_id = Some(trim_text(raw));
        } else if is_scope {
            scope = trim_text(raw);
        } else if is_ttl {
            match parse_u64(raw) {
                Some(n) => {
                    assert(parse_unsigned(raw@, u64::MAX as nat) == opt_nat_u64(Some(n)));
                    ttl_secs = n;
                },
                None => {
                    assert(parse_unsigned(raw@, u64::MAX as nat) == opt_nat_u64(None));
                    return Err(join2("invalid --ttl-secs value: ", raw));
                },
            }
        } else {
            secret = Some(args[i + 1].clone());
        }
        i += 2;
    }
    match check_mint(kind, workspace_id, scope, ttl_secs, secret, env_secret) {
        Ok(a) => Ok(MintRequest::Mint(a)),
        Err(m) => Err(m),
    }
}

/// The flag for help is none of the others.
proof fn lemma_mint_flags()
    ensures
        "--help"@ != "--kind"@,
        "--help"@ != "--workspace-id"@,
        "--help"@ != "--scope"@,
        "--help"@ != "--ttl-secs"@,
        "--help"@ != "--secret"@,
        "-h"@ != "--kind"@,
        "-h"@ != "--workspace-id"@,
        "-h"@ != "--scope"@,
        "-h"@ != "--ttl-secs"@,
        "-h"@ != "--secret"@,
{
    reveal_strlit("--help");
    reveal_strlit("-h");
    reveal_strlit("--kind");
    reveal_strlit("--workspace-id");
    reveal_strlit("--scope");
    reveal_strlit("--ttl-secs");
    reveal_strlit("--secret");
    assert("-h"@.len() == 2);
    assert("--kind"@.len() == 6);
    assert("--workspace-id"@.len() == 14);
    assert("--scope"@.len() == 7);
    assert("--ttl-secs"@.len() == 10);
    assert("--secret"@.len() == 8);
    assert("--help"@[2] == 'h');
    assert("--kind"@[2] == 'k');
    assert("--workspace-id"@[2] == 'w');
    assert("--scope"@[2] == 's');
    assert("--ttl-secs"@[2] == 't');
    assert("--secret"@[2] == 's');
}

/// The claims that a token is minted with; `ws` only in a workspace's token.
#[derive(Debug, Clone, PartialEq, Eq)]
pub struct TokenClaimsForMint {
    pub ws: Option<String>,
    pub kind: String,
    pub exp: u64,
    pub scope: String,
}

/// The claims of a token that is minted at the time `now_unix_secs`.
pub fn mint_claims(args: &MintTokenArgs, now_unix_secs: u64) -> (r: Result<
    TokenClaimsForMint,
    String,
>)
    ensures
        match r {
            Ok(c) => {
                &&& now_unix_secs + args.ttl_secs <= u64::MAX
                &&& c.exp == now_unix_secs + args.ttl_secs
                &&& opt_string(c.ws) == (if args.kind == TokenKind::Workspace {
                    opt_string(args.workspace_id)
                } else {
                    None
                })
                &&& c.kind@ == args.kind.name()
                &&& c.scope@ == args.scope@
            },
            Err(m) => now_unix_secs + args.ttl_secs > u64::MAX && m@
                == "token expiration overflow"@,
        },
{
    let exp = match now_unix_secs.checked_add(args.ttl_secs) {
        Some(e) => e,
        None => {
            return Err("token expiration overflow".to_owned());
        },
    };
    let ws = match args.kind {
        TokenKind::Workspace => match &args.workspace_id {
            Some(w) => Some(w.clone()),
            None => None,
        },
        _ => None,
    };
    Ok(TokenClaimsForMint { ws, kind: args.kind.as_str().to_owned(), exp, scope: args.scope.clone() })
}

/// A token that is minted for a workspace with the scope of its users opens that workspace until it
/// expires.
pub proof fn lemma_minted_token_opens_workspace(
    workspace_id: Seq<char>,
    exp: u64,
    now: u64,
    enforce_scopes: bool,
)
    requires
        now < exp,
    ensures
        denial(
            ClaimsView {
                ws: Some(workspace_id),
                kind: TokenKind::Workspace.name(),
                exp,
                scope: Some("workspace.access"@),
                scp: Seq::empty(),
            },
            enforce_scopes,
            now,
            RequirementView::WorkspaceScoped {
                workspace_id,
                required_scope: "workspace.access"@,
            },
        ) is None,
{
    let c = ClaimsView {
        ws: Some(workspace_id),
        kind: TokenKind::Workspace.name(),
        exp,
        scope: Some("workspace.access"@),
        scp: Seq::empty(),
    };
    lemma_token_kind_round_trip(TokenKind::Workspace);
    lemma_single_word();
    assert(c.scopes() =~= seq!["workspace.access"@]);
    assert(c.scopes()[0] == "workspace.access"@);
}

proof fn lemma_single_word()
    ensures
        words("workspace.access"@) == seq!["workspace.access"@],
{
    reveal_strlit("workspace.access");
    lemma_word("workspace.access"@);
}

// ---------------------------------------------------------------------------
// Who gets in
// ---------------------------------------------------------------------------

/// A token has three parts, and is believed exactly where the third is the signature of the other
/// two under the secret; its claims are then the second.
pub proof fn lemma_tokens_are_signed(a: Seq<char>, b: Seq<char>, c: Seq<char>, secret: Seq<u8>)
    requires
        !a.contains('.'),
        !b.contains('.'),
        !c.contains('.'),
    ensures
        ({
            let token = a + seq!['.'] + b + seq!['.'] + c;
            let signed = base64url_bytes(c) == Some(
                hmac_sha256(secret, encode_utf8(a + seq!['.'] + b)),
            );
            &&& token_claims(token, secret) is Ok ==> signed && base64url_bytes(b) == Some(
                token_claims(token, secret)->Ok_0,
            )
            &&& signed && base64url_bytes(b) is Some ==> token_claims(token, secret) is Ok
            &&& !signed ==> token_claims(token, secret) is Err
        }),
        token_claims(a, secret) is Err,
        token_claims(a + seq!['.'] + b, secret) is Err,
{
    crate::text::lemma_last_piece(a, '.', a);
    crate::text::lemma_last_piece(a, '.', b);
    crate::text::lemma_last_piece(a + seq!['.'] + b, '.', c);
    let p = split_on(a + seq!['.'] + b + seq!['.'] + c, '.');
    assert(p =~= seq![a, b, c]);
    assert(split_on(a + seq!['.'] + b, '.') =~= seq![a, b]);
}

/// A token is believed where one of the secrets signed it, with the claims that it has under that
/// one, and refused where none did.
pub proof fn lemma_any_secret_will_do(token: Seq<char>, secrets: Seq<Seq<u8>>)
    ensures
        claims_under(token, secrets) is Some <==> exists|k: int|
            0 <= k < secrets.len() && #[trigger] token_claims(token, secrets[k]) is Ok,
        claims_under(token, secrets) is Some ==> exists|k: int|
            0 <= k < secrets.len() && #[trigger] token_claims(token, secrets[k]) == Ok::<
                Seq<u8>,
                TokenError,
            >(claims_under(token, secrets)->0),
    decreases secrets.len(),
{
    if secrets.len() > 0 {
        let rest = secrets.drop_first();
        lemma_any_secret_will_do(token, rest);
        if token_claims(token, secrets[0]) is Err {
            if claims_under(token, rest) is Some {
                let k = choose|k: int|
                    0 <= k < rest.len() && #[trigger] token_claims(token, rest[k]) == Ok::<
                        Seq<u8>,
                        TokenError,
                    >(claims_under(token, rest)->0);
                assert(secrets[k + 1] == rest[k]);
            }
            if exists|k: int|
                0 <= k < secrets.len() && #[trigger] token_claims(token, secrets[k]) is Ok {
                let k = choose|k: int|
                    0 <= k < secrets.len() && #[trigger] token_claims(token, secrets[k]) is Ok;
                assert(rest[k - 1] == secrets[k]);
                assert(token_claims(token, rest[k - 1]) is Ok);
            }
        }
    }
}

/// Without a token only who may do without one gets in; what is no bearer token is refused; and a
/// bearer token gets in with its claims exactly where the secret of today or one of before signed
/// it.
pub proof fn lemma_credentials(token: Seq<char>, header: Seq<char>, auth: AuthView)
    requires
        token.len() > 0,
        !crate::text::is_white_space(token.last()),
    ensures
        is_blank(header) && auth.allow_local_without_token ==> credentials_of(header, auth)
            is NotNeeded,
        is_blank(header) && !auth.allow_local_without_token ==> credentials_of(header, auth)
            is Refused,
        credentials_of(header, auth) is NotNeeded ==> is_blank(header)
            && auth.allow_local_without_token,
        credentials_of(header, auth) matches CredentialsView::Refused(s) ==> s.code
            == Code::Unauthenticated,
        ({
            let r = credentials_of("Bearer "@ + token, auth);
            let active = token_claims(token, auth.active_secret);
            &&& active is Ok ==> r == CredentialsView::Claims(active->Ok_0)
            &&& r is Claims ==> active is Ok || exists|k: int|
                0 <= k < auth.previous_secrets.len() && #[trigger] token_claims(
                    token,
                    auth.previous_secrets[k],
                ) is Ok
            &&& forall|k: int|
                0 <= k < auth.previous_secrets.len() && (#[trigger] token_claims(
                    token,
                    auth.previous_secrets[k],
                )) is Ok ==> r is Claims
            &&& r is Claims || r is Refused
        }),
{
    crate::text::lemma_blank_trims_to_nothing(header);
    reveal_strlit("Bearer ");
    let text = "Bearer "@ + token;
    let p = "Bearer "@;
    assert(text[0] == 'B');
    assert(text.last() == token.last());
    assert(trim(text) == text);
    assert(text.take(7) =~= p);
    assert(text.skip(7) =~= token);
    let secrets = seq![auth.active_secret] + auth.previous_secrets;
    lemma_any_secret_will_do(token, secrets);
    assert(secrets[0] == auth.active_secret);
    if exists|k: int| 0 <= k < secrets.len() && #[trigger] token_claims(token, secrets[k]) is Ok {
        let k = choose|k: int|
            0 <= k < secrets.len() && #[trigger] token_claims(token, secrets[k]) is Ok;
        if k > 0 {
            assert(secrets[k] == auth.previous_secrets[k - 1]);
            assert(token_claims(token, auth.previous_secrets[k - 1]) is Ok);
        }
    }
    assert forall|k: int|
        0 <= k < auth.previous_secrets.len() && (#[trigger] token_claims(
            token,
            auth.previous_secrets[k],
        )) is Ok implies credentials_of(text, auth) is Claims by {
        assert(secrets[k + 1] == auth.previous_secrets[k]);
        assert(token_claims(token, secrets[k + 1]) is Ok);
    }
}

proof fn lemma_trimmed_words(v: Seq<Seq<char>>, x: Seq<char>)
    ensures
        trimmed_words(v).contains(x) <==> x.len() > 0 && exists|i: int|
            0 <= i < v.len() && trim(#[trigger] v[i]) == x,
    decreases v.len(),
{
    if v.len() > 0 {
        let t = v.drop_last();
        lemma_trimmed_words(t, x);
        let before = trimmed_words(t);
        let last = trim(v.last());
        assert(v[v.len() - 1] == v.last());
        if exists|i: int| 0 <= i < t.len() && trim(#[trigger] t[i]) == x {
            let i = choose|i: int| 0 <= i < t.len() && trim(#[trigger] t[i]) == x;
            assert(trim(v[i]) == x);
        }
        if exists|i: int| 0 <= i < v.len() && trim(#[trigger] v[i]) == x {
            let i = choose|i: int| 0 <= i < v.len() && trim(#[trigger] v[i]) == x;
            if i < t.len() {
                assert(trim(t[i]) == x);
            }
        }
        if last.len() > 0 {
            let all = before.push(last);
            assert(all[all.len() - 1] == last);
            if before.contains(x) {
                let i = choose|i: int| 0 <= i < before.len() && before[i] == x;
                assert(all[i] == x);
            }
            if all.contains(x) {
                let i = choose|i: int| 0 <= i < all.len() && all[i] == x;
                if i < before.len() {
                    assert(before[i] == x);
                }
            }
        }
    }
}

/// A token grants the scopes that it lists, in one text or one by one, and every scope where it
/// lists `*`.
pub proof fn lemma_granted_scopes(claims: ClaimsView, scope: Seq<char>)
    requires
        scope.len() > 0,
    ensures
        ({
            let lists = |x: Seq<char>|
                claims.scope is Some && words(claims.scope->0).contains(x) || exists|i: int|
                    0 <= i < claims.scp.len() && trim(#[trigger] claims.scp[i]) == x;
            claims.grants(scope) <==> lists(scope) || lists("*"@)
        }),
{
    reveal_strlit("*");
    lemma_trimmed_words(claims.scp, scope);
    lemma_trimmed_words(claims.scp, "*"@);
    let w = match claims.scope {
        Some(s) => words(s),
        None => Seq::empty(),
    };
    let t = trimmed_words(claims.scp);
    assert forall|x: Seq<char>| (w + t).contains(x) <==> w.contains(x) || t.contains(x) by {
        if w.contains(x) {
            let i = choose|i: int| 0 <= i < w.len() && w[i] == x;
            assert((w + t)[i] == x);
        }
        if t.contains(x) {
            let i = choose|i: int| 0 <= i < t.len() && t[i] == x;
            assert((w + t)[w.len() + i] == x);
        }
        if (w + t).contains(x) {
            let i = choose|i: int| 0 <= i < (w + t).len() && (w + t)[i] == x;
            if i < w.len() {
                assert(w[i] == x);
            } else {
                assert(t[i - w.len()] == x);
            }
        }
    }
}

/// Exactly these get in: tokens of a known kind that have not expired and grant the scope, where
/// scopes are enforced; of a workspace only into their own, and only those of an administrator to
/// administration. What is refused for want of a right is `PermissionDenied`, what cannot be
/// believed `Unauthenticated`.
pub proof fn lemma_who_gets_in(
    claims: ClaimsView,
    enforce_scopes: bool,
    now: u64,
    workspace_id: Seq<char>,
    scope: Seq<char>,
)
    ensures
        ({
            let into = denial(
                claims,
                enforce_scopes,
                now,
                RequirementView::WorkspaceScoped { workspace_id, required_scope: scope },
            );
            let admin = denial(
                claims,
                enforce_scopes,
                now,
                RequirementView::AdminOnly { required_scope: scope },
            );
            let alive = now < claims.exp;
            let scoped = !enforce_scopes || claims.grants(scope);
            let own = claims.kind == "workspace"@ && claims.ws == Some(workspace_id);
            let roaming = claims.kind == "admin"@ || claims.kind == "local"@;
            let known = claims.kind == "workspace"@ || roaming;
            &&& into is None <==> alive && scoped && (own || roaming)
            &&& admin is None <==> alive && scoped && claims.kind == "admin"@
            &&& into is Some && alive && known ==> into->0.code == Code::PermissionDenied
            &&& admin is Some && alive && known ==> admin->0.code == Code::PermissionDenied
            &&& !alive || !known ==> into is Some && into->0.code == Code::Unauthenticated
            &&& !alive || !known ==> admin is Some && admin->0.code == Code::Unauthenticated
        }),
{
    reveal_strlit("workspace");
    reveal_strlit("admin");
    reveal_strlit("local");
    assert("workspace"@.len() == 9 && "admin"@.len() == 5 && "local"@.len() == 5);
    assert("admin"@[0] == 'a' && "local"@[0] == 'l');
}

/// A decision is counted once: as a success, as a denial, or as an expired token.
pub proof fn lemma_decisions_are_counted(c: AuthCounters, denied: StatusView)
    requires
        c.success_total < u64::MAX,
        c.denied_total < u64::MAX,
        c.unauthenticated_total < u64::MAX,
    ensures
        c.decided(None).success_total == c.success_total + 1,
        c.decided(None).denied_total == c.denied_total,
        c.decided(None).unauthenticated_total == c.unauthenticated_total,
        denied.code == Code::PermissionDenied ==> c.decided(Some(denied)).denied_total
            == c.denied_total + 1,
        denied.code != Code::PermissionDenied ==> c.decided(Some(denied)).denied_total
            == c.denied_total,
        denied.code != Code::PermissionDenied && denied.message == "token expired"@ ==> c.decided(
            Some(denied),
        ).unauthenticated_total == c.unauthenticated_total + 1,
        c.decided(Some(denied)).success_total == c.success_total,
{
}

/// A server starts with the secret that it was given, never with an empty one, and with the
/// well-known one only in development. Scopes are enforced unless that is switched off, and nobody
/// does without a token unless that is switched on.
pub proof fn lemma_secrets_of_a_server(
    secret: EnvView,
    dev_mode: EnvView,
    previous: EnvView,
    allow_local: EnvView,
    enforce_scopes: EnvView,
)
    ensures
        ({
            let r = auth_of(secret, dev_mode, previous, allow_local, enforce_scopes);
            let weak = !(secret is Text) || secret->Text_0 == "dev-insecure-secret-change-me"@;
            &&& secret == EnvView::Text(Seq::empty()) ==> r is Err
            &&& weak && dev_mode is Unset ==> r is Err
            &&& r matches Ok(a) ==> {
                &&& secret is Text ==> a.active_secret == encode_utf8(secret->Text_0)
                    && secret->Text_0.len() > 0
                &&& !(secret is Text) ==> a.active_secret == encode_utf8(
                    "dev-insecure-secret-change-me"@,
                )
                &&& allow_local is Unset ==> !a.allow_local_without_token
                &&& enforce_scopes is Unset ==> a.enforce_scopes
                &&& previous is Unset ==> a.previous_secrets.len() == 0
                &&& Ok::<bool, Seq<char>>(a.allow_local_without_token) == flag_setting(
                    "SCRYD_ALLOW_LOCAL_NO_AUTH"@,
                    allow_local,
                    false,
                )
                &&& Ok::<bool, Seq<char>>(a.enforce_scopes) == flag_setting(
                    "SCRYD_AUTH_ENFORCE_SCOPES"@,
                    enforce_scopes,
                    true,
                )
            }
            &&& secret is Text && secret->Text_0.len() > 0 && !weak && previous is Unset
                && allow_local is Unset && enforce_scopes is Unset ==> r is Ok
        }),
{
    reveal_strlit("dev-insecure-secret-change-me");
}

/// The secrets of before are those that are listed, without white space around them, and blank
/// ones left out.
pub proof fn lemma_listed_secrets(parts: Seq<Seq<char>>, last: Seq<char>)
    ensures
        is_blank(last) ==> listed_secrets(parts.push(last)) == listed_secrets(parts),
        !is_blank(last) ==> listed_secrets(parts.push(last)) == listed_secrets(parts).push(
            encode_utf8(trim(last)),
        ),
        listed_secrets(Seq::empty()).len() == 0,
{
    crate::text::lemma_blank_trims_to_nothing(last);
    assert(parts.push(last).drop_last() =~= parts);
}

/// A token is minted exactly where it has a scope, lives for a while, names its workspace if it is
/// for one, and is signed with a secret of one's own.
pub proof fn lemma_what_can_be_minted(s: MintState, env_secret: Option<Seq<char>>)
    ensures
        match mint_checked(s, env_secret) {
            Ok(m) => {
                &&& m.kind == s.kind
                &&& m.workspace_id == s.workspace_id
                &&& m.scope == s.scope
                &&& m.ttl_secs == s.ttl_secs
                &&& s.secret is Some ==> m.secret == encode_utf8(s.secret->0)
                &&& s.secret is None ==> env_secret is Some && m.secret == encode_utf8(
                    env_secret->0,
                ) && env_secret->0 != "dev-insecure-secret-change-me"@
                &&& !is_blank(m.scope)
                &&& m.ttl_secs > 0
                &&& m.kind == TokenKind::Workspace ==> m.workspace_id is Some && !is_blank(
                    m.workspace_id->0,
                )
            },
            Err(_) => {
                ||| is_blank(s.scope)
                ||| s.ttl_secs == 0
                ||| s.kind == TokenKind::Workspace && (s.workspace_id is None || is_blank(
                    s.workspace_id->0,
                ))
                ||| s.secret is None && (env_secret is None || env_secret->0
                    == "dev-insecure-secret-change-me"@ || env_secret->0.len() == 0)
                ||| s.secret is Some && s.secret->0.len() == 0
            },
        },
{
}

/// An option of the command that mints a token sets what it is named after; one without a value,
/// or that there is none of, is refused.
pub proof fn lemma_mint_options(
    args: Seq<Seq<char>>,
    i: int,
    s: MintState,
    env_secret: Option<Seq<char>>,
)
    requires
        0 <= i < args.len(),
    ensures
        ({
            let r = mint_args_from(args, i, s, env_secret);
            let with = |t: MintState| mint_args_from(args, i + 2, t, env_secret);
            &&& args[i] == "--scope"@ && i + 1 < args.len() ==> r == with(
                MintState { scope: trim(args[i + 1]), ..s },
            )
            &&& args[i] == "--workspace-id"@ && i + 1 < args.len() ==> r == with(
                MintState { workspace_id: Some(trim(args[i + 1])), ..s },
            )
            &&& args[i] == "--secret"@ && i + 1 < args.len() ==> r == with(
                MintState { secret: Some(args[i + 1]), ..s },
            )
            &&& args[i] == "--kind"@ && i + 1 < args.len() && trim(args[i + 1]) == "admin"@ ==> r
                == with(MintState { kind: TokenKind::Admin, ..s })
            &&& args[i] == "--kind"@ && i + 1 < args.len() && trim(args[i + 1]) == "local"@ ==> r
                == with(MintState { kind: TokenKind::Local, ..s })
            &&& args[i] == "--kind"@ && i + 1 < args.len() && trim(args[i + 1]) == "workspace"@
                ==> r == with(MintState { kind: TokenKind::Workspace, ..s })
            &&& args[i] == "--help"@ || args[i] == "-h"@ ==> r == Ok::<MintRequestView, Seq<char>>(
                MintRequestView::Help,
            )
            &&& i + 1 == args.len() && args[i] != "--help"@ && args[i] != "-h"@ ==> r is Err
        }),
{
    reveal_strlit("--scope");
    reveal_strlit("--workspace-id");
    reveal_strlit("--secret");
    reveal_strlit("--kind");
    reveal_strlit("--ttl-secs");
    reveal_strlit("--help");
    reveal_strlit("-h");
    reveal_strlit("admin");
    reveal_strlit("local");
    reveal_strlit("workspace");
    assert("--scope"@.len() == 7 && "--workspace-id"@.len() == 14 && "--secret"@.len() == 8
        && "--kind"@.len() == 6 && "--ttl-secs"@.len() == 10 && "--help"@.len() == 6 && "-h"@.len()
        == 2);
    assert("--kind"@[2] == 'k' && "--help"@[2] == 'h');
    assert("admin"@[0] == 'a' && "local"@[0] == 'l' && "workspace"@.len() == 9 && "admin"@.len() == 5
        && "local"@.len() == 5);
}

/// A token that was signed is accepted under the secret that it was signed with and says what it
/// was made to say; under a secret that signs otherwise it is refused.
pub proof fn lemma_tokens_say_what_was_signed(
    secret: &[u8],
    other: &[u8],
    claims_json: &[u8],
    token: String,
    text: &str,
    own: Result<Vec<u8>, TokenError>,
    foreign: Result<Vec<u8>, TokenError>,
)
    requires
        call_ensures(encode_token, (secret, claims_json), token),
        text@ == token@,
        call_ensures(verify_token_with_secret, (text, secret), own),
        call_ensures(verify_token_with_secret, (text, other), foreign),
    ensures
        own is Ok && own->Ok_0@ == claims_json@,
        foreign is Ok <==> {
            let payload = base64url(encode_utf8(TOKEN_HEADER_JSON@)) + seq!['.'] + base64url(
                claims_json@,
            );
            hmac_sha256(other@, encode_utf8(payload)) == hmac_sha256(secret@, encode_utf8(payload))
        },
{
}

/// A token that is minted runs out as many seconds later as it was asked to live, and is for what it
/// was asked to be for.
pub proof fn lemma_minted_claims(
    args: &MintTokenArgs,
    now: u64,
    r: Result<TokenClaimsForMint, String>,
)
    requires
        call_ensures(mint_claims, (args, now), r),
    ensures
        r is Ok <==> now + args.ttl_secs <= u64::MAX,
        r is Ok ==> r->Ok_0.exp == now + args.ttl_secs,
        r is Ok ==> r->Ok_0.scope@ == args.scope@,
        r is Ok && args.kind == TokenKind::Workspace ==> r->Ok_0.kind@ == "workspace"@ && opt_string(
            r->Ok_0.ws,
        ) == opt_string(args.workspace_id),
        r is Ok && args.kind == TokenKind::Admin ==> r->Ok_0.kind@ == "admin"@ && r->Ok_0.ws is None,
{
}

/// A token that is not made of three parts is refused for what it lacks or has too much, and any
/// other for the part that does not fit.
pub proof fn lemma_why_tokens_are_refused(
    a: Seq<char>,
    b: Seq<char>,
    c: Seq<char>,
    d: Seq<char>,
    secret: Seq<u8>,
)
    requires
        !a.contains('.'),
        !b.contains('.'),
        !c.contains('.'),
        !d.contains('.'),
    ensures
        token_claims(a, secret) == Err::<Seq<u8>, TokenError>(TokenError::MissingClaims),
        token_claims(a + seq!['.'] + b, secret) == Err::<Seq<u8>, TokenError>(
            TokenError::MissingSignature,
        ),
        token_claims(a + seq!['.'] + b + seq!['.'] + c + seq!['.'] + d, secret) == Err::<
            Seq<u8>,
            TokenError,
        >(TokenError::TooManySegments),
        ({
            let r = token_claims(a + seq!['.'] + b + seq!['.'] + c, secret);
            let tag = base64url_bytes(c);
            let signed = hmac_sha256(secret, encode_utf8(a + seq!['.'] + b));
            &&& tag is None <==> r == Err::<Seq<u8>, TokenError>(TokenError::SignatureEncoding)
            &&& tag is Some && tag->0 != signed <==> r == Err::<Seq<u8>, TokenError>(
                TokenError::SignatureMismatch,
            )
            &&& tag == Some(signed) && base64url_bytes(b) is None <==> r == Err::<
                Seq<u8>,
                TokenError,
            >(TokenError::ClaimsEncoding)
        }),
{
    crate::text::lemma_last_piece(a, '.', a);
    crate::text::lemma_last_piece(a, '.', b);
    crate::text::lemma_last_piece(a + seq!['.'] + b, '.', c);
    crate::text::lemma_last_piece(a + seq!['.'] + b + seq!['.'] + c, '.', d);
    assert(split_on(a + seq!['.'] + b, '.') =~= seq![a, b]);
    assert(split_on(a + seq!['.'] + b + seq!['.'] + c, '.') =~= seq![a, b, c]);
    assert(split_on(a + seq!['.'] + b + seq!['.'] + c + seq!['.'] + d, '.') =~= seq![a, b, c, d]);
}

} // verus!
