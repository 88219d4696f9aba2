use base64::Engine;
use hmac::Mac;
use scry::auth::{
    auth_from_settings, authorize, encode_token, mint_claims, parse_mint_token_args,
    parse_token_kind, read_credentials, verify_auth, verify_token_with_secret,
    workspace_requirement, AuthConfig, AuthCounters, AuthRequirement, Credentials, MintRequest,
    TokenClaims, TokenError, TokenKind,
};
use scry::commands::{mint_token_args, MintCommand};
use scry::settings::EnvValue;
use scry::status::Code;

fn text(s: &str) -> EnvValue {
    EnvValue::Text(s.to_string())
}

fn strings(v: &[&str]) -> Vec<String> {
    v.iter().map(|s| s.to_string()).collect()
}

fn config(secret: &str) -> AuthConfig {
    AuthConfig {
        active_secret: secret.as_bytes().to_vec(),
        previous_secrets: vec![b"old".to_vec()],
        allow_local_without_token: false,
        enforce_scopes: true,
    }
}

fn claims(kind: &str, ws: Option<&str>, scope: &str) -> TokenClaims {
    TokenClaims {
        ws: ws.map(|s| s.to_string()),
        kind: kind.to_string(),
        exp: 100,
        scope: Some(scope.to_string()),
        scp: Vec::new(),
    }
}

#[test]
fn tokens_verify_under_their_secret() {
    let token = encode_token(b"key", b"{\"kind\":\"admin\"}");
    assert_eq!(token.split('.').count(), 3);
    assert_eq!(
        verify_token_with_secret(&token, b"key").unwrap(),
        b"{\"kind\":\"admin\"}".to_vec()
    );
    assert!(matches!(
        verify_token_with_secret(&token, b"other"),
        Err(TokenError::SignatureMismatch)
    ));
}

#[test]
fn tokens_are_signed_with_hmac_sha256() {
    let engine = base64::engine::general_purpose::URL_SAFE_NO_PAD;
    let header = engine.encode(b"{\"alg\":\"HS256\",\"typ\":\"JWT\"}");
    let payload = format!("{header}.{}", engine.encode(b"{}"));
    let mut mac = hmac::Hmac::<sha2::Sha256>::new_from_slice(b"key").unwrap();
    mac.update(payload.as_bytes());
    let sig = engine.encode(mac.finalize().into_bytes());
    assert_eq!(encode_token(b"key", b"{}"), format!("{payload}.{sig}"));
    assert_eq!(payload, "eyJhbGciOiJIUzI1NiIsInR5cCI6IkpXVCJ9.e30");
}

#[test]
fn malformed_tokens_are_told_apart() {
    let token = encode_token(b"key", b"{}");
    assert!(matches!(
        verify_token_with_secret("h", b"key"),
        Err(TokenError::MissingClaims)
    ));
    assert!(matches!(
        verify_token_with_secret("h.e30", b"key"),
        Err(TokenError::MissingSignature)
    ));
    assert!(matches!(
        verify_token_with_secret(&format!("{token}.x"), b"key"),
        Err(TokenError::TooManySegments)
    ));
    assert!(matches!(
        verify_token_with_secret("h.e30.***", b"key"),
        Err(TokenError::SignatureEncoding)
    ));
}

#[test]
fn kinds_of_tokens_have_names() {
    for kind in [TokenKind::Workspace, TokenKind::Admin, TokenKind::Local] {
        assert_eq!(parse_token_kind(kind.as_str()), Some(kind));
    }
    assert_eq!(parse_token_kind("root"), None);
}

#[test]
fn settings_of_authentication() {
    let unset = EnvValue::Unset;
    let c = auth_from_settings(
        &text("s3cret"),
        &unset,
        &text("old, ,older"),
        &unset,
        &text("false"),
    )
    .unwrap();
    assert_eq!(c.active_secret, b"s3cret".to_vec());
    assert_eq!(c.previous_secrets, vec![b"old".to_vec(), b"older".to_vec()]);
    assert!(!c.allow_local_without_token);
    assert!(!c.enforce_scopes);
    let e = auth_from_settings(&unset, &unset, &unset, &unset, &unset).unwrap_err();
    assert!(e.contains("default insecure value"));
    assert!(auth_from_settings(&unset, &text("1"), &unset, &unset, &unset).is_ok());
    let e = auth_from_settings(&text(""), &unset, &unset, &unset, &unset).unwrap_err();
    assert_eq!(e, "SCRYD_AUTH_SECRET cannot be empty");
    let e =
        auth_from_settings(&text("x"), &unset, &EnvValue::NotUnicode, &unset, &unset).unwrap_err();
    assert_eq!(e, "SCRYD_AUTH_PREVIOUS_SECRETS must be valid unicode");
}

#[test]
fn headers_carry_tokens() {
    let auth = config("key");
    let header = format!("Bearer {}", encode_token(b"key", b"{}"));
    assert!(matches!(read_credentials(&header, &auth), Credentials::Claims(c) if c == b"{}"));
    let header = format!("Bearer {}", encode_token(b"old", b"{}"));
    assert!(matches!(read_credentials(&header, &auth), Credentials::Claims(_)));
    let header = format!("Bearer {}", encode_token(b"bad", b"{}"));
    assert!(
        matches!(read_credentials(&header, &auth), Credentials::Refused(s) if s.code == Code::Unauthenticated)
    );
    assert!(matches!(read_credentials("", &auth), Credentials::Refused(_)));
    let open = AuthConfig {
        allow_local_without_token: true,
        ..config("key")
    };
    assert!(matches!(read_credentials("", &open), Credentials::NotNeeded));
}

#[test]
fn workspace_tokens_open_their_workspace() {
    let auth = config("key");
    let need = workspace_requirement("ws-1");
    let mut n = AuthCounters::new();
    let ok = claims("workspace", Some("ws-1"), "workspace.access");
    assert!(authorize(&ok, &auth, 50, &need, &mut n).is_ok());
    assert_eq!(n.success_total, 1);
    let other = claims("workspace", Some("ws-2"), "workspace.access");
    let e = authorize(&other, &auth, 50, &need, &mut n).unwrap_err();
    assert_eq!(e.code, Code::PermissionDenied);
    assert_eq!(n.denied_total, 1);
    let e = authorize(&ok, &auth, 101, &need, &mut n).unwrap_err();
    assert_eq!(e.code, Code::Unauthenticated);
    assert_eq!(n.unauthenticated_total, 1);
}

#[test]
fn administration_needs_an_admin() {
    let auth = config("key");
    let need = AuthRequirement::AdminOnly {
        required_scope: "admin.workspace.list".to_string(),
    };
    let mut n = AuthCounters::new();
    let admin = claims("admin", None, "admin.workspace.list");
    assert!(authorize(&admin, &auth, 50, &need, &mut n).is_ok());
    let narrow = claims("admin", None, "admin.workspace.stats");
    assert!(authorize(&narrow, &auth, 50, &need, &mut n).is_err());
    let ws = claims("workspace", Some("w"), "admin.workspace.list");
    assert!(authorize(&ws, &auth, 50, &need, &mut n).is_err());
}

#[test]
fn requests_are_let_in_or_not() {
    let auth = config("key");
    let need = workspace_requirement("w");
    let mut n = AuthCounters::new();
    assert!(verify_auth(&Credentials::NotNeeded, None, &auth, 1, &need, &mut n).is_ok());
    let c = claims("workspace", Some("w"), "workspace.access");
    assert!(verify_auth(
        &Credentials::Claims(b"{}".to_vec()),
        Some(c),
        &auth,
        1,
        &need,
        &mut n
    )
    .is_ok());
    let e = verify_auth(
        &Credentials::Claims(b"?".to_vec()),
        None,
        &auth,
        1,
        &need,
        &mut n,
    )
    .unwrap_err();
    assert_eq!(e.code, Code::Unauthenticated);
}

#[test]
fn minting_reads_arguments() {
    let args = strings(&[
        "--kind",
        "admin",
        "--scope",
        " admin.workspace.list ",
        "--ttl-secs",
        "60",
        "--secret",
        "k",
    ]);
    let m = match parse_mint_token_args(&args, 3600, None).unwrap() {
        MintRequest::Mint(m) => m,
        MintRequest::Help => panic!("no help was asked for"),
    };
    assert_eq!(m.kind, TokenKind::Admin);
    assert_eq!(m.scope, "admin.workspace.list");
    assert_eq!((m.ttl_secs, m.secret.clone()), (60, b"k".to_vec()));
    let c = mint_claims(&m, 1000).unwrap();
    assert_eq!((c.kind.as_str(), c.exp, c.ws), ("admin", 1060, None));
    assert_eq!(
        parse_mint_token_args(&strings(&["--help"]), 3600, None),
        Ok(MintRequest::Help)
    );
}

#[test]
fn minting_refuses_arguments() {
    for (args, message) in [
        (vec!["--kind"], "missing value for --kind (workspace/admin/local)"),
        (vec!["--kind", "x"], "invalid --kind value: x"),
        (vec!["--workspace-id"], "missing value for --workspace-id"),
        (vec!["--scope"], "missing value for --scope"),
        (vec!["--ttl-secs"], "missing value for --ttl-secs"),
        (vec!["--ttl-secs", "x"], "invalid --ttl-secs value: x"),
        (vec!["--secret"], "missing value for --secret"),
        (vec!["--what"], "unknown mint-token argument: --what"),
        (vec!["--scope", " "], "--scope cannot be empty"),
        (vec!["--ttl-secs", "0"], "--ttl-secs must be > 0"),
        (vec![], "workspace token requires --workspace-id <id>"),
        (
            vec!["--kind", "admin", "--secret", ""],
            "signing secret cannot be empty",
        ),
    ] {
        assert_eq!(
            parse_mint_token_args(&strings(&args), 3600, Some("env")),
            Err(message.to_string())
        );
    }
    let e = parse_mint_token_args(&strings(&["--kind", "admin"]), 3600, None).unwrap_err();
    assert!(e.starts_with("mint-token requires --secret or SCRYD_AUTH_SECRET"));
}

#[test]
fn minted_tokens_open_their_workspace() {
    let command = MintCommand {
        kind: None,
        workspace_id: Some("ws-9".to_string()),
        scope: None,
        ttl_secs: 30,
        secret: Some("key".to_string()),
    };
    let args = mint_token_args(&command);
    assert_eq!(
        args,
        strings(&[
            "--workspace-id",
            "ws-9",
            "--ttl-secs",
            "30",
            "--secret",
            "key"
        ])
    );
    let m = match parse_mint_token_args(&args, 1, None).unwrap() {
        MintRequest::Mint(m) => m,
        MintRequest::Help => panic!("no help was asked for"),
    };
    let c = mint_claims(&m, 10).unwrap();
    assert_eq!(c.ws.as_deref(), Some("ws-9"));
    let held = TokenClaims {
        ws: c.ws,
        kind: c.kind,
        exp: c.exp,
        scope: Some(c.scope),
        scp: Vec::new(),
    };
    let mut n = AuthCounters::new();
    let need = workspace_requirement("ws-9");
    assert!(authorize(&held, &config("key"), 20, &need, &mut n).is_ok());
}
