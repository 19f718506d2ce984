use gdkit::http::{
    ct_eq, decide_transport, parse_addr, require_bearer, resolve_transport, Addr, HttpOptions, Ip,
    Transport,
};

fn s(v: &[&str]) -> Vec<String> {
    v.iter().map(|x| x.to_string()).collect()
}

fn v4(a: u8, b: u8, c: u8, d: u8, port: u16) -> Addr {
    Addr { ip: Ip::V4(a, b, c, d), port, flow: 0, scope: 0 }
}

fn no_env(_: &str) -> Option<String> {
    None
}

fn tok(k: &str) -> Option<String> {
    if k == "GDKIT_HTTP_TOKEN" {
        Some("tok".to_string())
    } else {
        None
    }
}

fn http(bind: Addr, token: &str) -> Result<Transport, String> {
    Ok(Transport::Http(HttpOptions { bind, token: token.to_string() }))
}

// ---- transport resolution ----------------------------------------------------------------

#[test]
fn no_args_is_stdio() {
    assert!(resolve_transport(&[], &[], no_env) == Ok(Transport::Stdio));
}

#[test]
fn the_environment_is_asked_only_for_a_token_that_is_missing() {
    fn never(k: &str) -> Option<String> {
        panic!("{k} is not needed")
    }
    assert!(resolve_transport(&[], &[], never) == Ok(Transport::Stdio));
    assert!(resolve_transport(&s(&["--odd"]), &[None], never).is_err());
    let args = s(&["--http", "--token", "t"]);
    assert!(resolve_transport(&args, &[None, None, None], never).is_ok());
}

#[test]
fn token_env_alone_leaves_stdio() {
    assert!(resolve_transport(&[], &[], tok) == Ok(Transport::Stdio));
}

#[test]
fn http_without_token_refuses_to_start() {
    assert!(resolve_transport(&s(&["--http"]), &[None], no_env).is_err());
}

#[test]
fn http_with_empty_token_refuses_to_start() {
    let env = |k: &str| {
        if k == "GDKIT_HTTP_TOKEN" {
            Some(String::new())
        } else {
            None
        }
    };
    assert!(resolve_transport(&s(&["--http"]), &[None], env).is_err());
}

#[test]
fn http_defaults_to_loopback() {
    let t = resolve_transport(&s(&["--http"]), &[None], tok);
    assert!(t == http(v4(127, 0, 0, 1, 8642), "tok"));
}

#[test]
fn http_takes_addr_or_bare_port() {
    let addr = v4(127, 0, 0, 1, 9000);
    let t = resolve_transport(&s(&["--http", "127.0.0.1:9000"]), &[None, Some(addr)], tok);
    assert!(t == http(addr, "tok"));
    let t = resolve_transport(&s(&["--http", "9001"]), &[None, None], tok);
    assert!(t == http(v4(127, 0, 0, 1, 9001), "tok"));
}

#[test]
fn bind_overrides_and_widens() {
    let wide = v4(0, 0, 0, 0, 9000);
    let t = resolve_transport(
        &s(&["--http", "--bind", "0.0.0.0:9000", "--token", "tok"]),
        &[None, None, Some(wide), None, None],
        no_env,
    );
    assert!(t == http(wide, "tok"));
}

#[test]
fn token_flag_beats_env() {
    let env = |k: &str| {
        if k == "GDKIT_HTTP_TOKEN" {
            Some("env-tok".to_string())
        } else {
            None
        }
    };
    let args = s(&["--http", "--token", "flag-tok"]);
    match resolve_transport(&args, &[None, None, None], env).unwrap() {
        Transport::Http(o) => assert_eq!(o.token, "flag-tok"),
        Transport::Stdio => panic!("expected Http, got Stdio"),
    }
}

#[test]
fn ambient_env_never_enables_http() {
    // A GDKIT_HTTP variable inherited by a plugin-launched stdio instance must be inert: the
    // explicit flag is the only switch.
    let env = |k: &str| match k {
        "GDKIT_HTTP" => Some("127.0.0.1:9100".to_string()),
        "GDKIT_HTTP_TOKEN" => Some("tok".to_string()),
        _ => None,
    };
    assert!(resolve_transport(&[], &[], env) == Ok(Transport::Stdio));
}

#[test]
fn debug_redacts_token() {
    let opts = HttpOptions { bind: v4(127, 0, 0, 1, 8642), token: "sekrit".into() };
    let printed = opts.redacted("127.0.0.1:8642");
    assert!(!printed.contains("sekrit"));
    assert!(printed.contains("<redacted>"));
    assert_eq!(printed, "HttpOptions { bind: 127.0.0.1:8642, token: \"<redacted>\" }");
}

#[test]
fn bind_or_token_without_http_errors() {
    let wide = v4(0, 0, 0, 0, 9000);
    let bind = resolve_transport(&s(&["--bind", "0.0.0.0:9000"]), &[None, Some(wide)], no_env);
    assert!(bind == Err("--bind requires --http".to_string()));
    let token = resolve_transport(&s(&["--token", "tok"]), &[None, None], no_env);
    assert!(token == Err("--token requires --http".to_string()));
}

#[test]
fn unknown_arg_errors() {
    let e = resolve_transport(&s(&["--htpp"]), &[None], no_env).err().unwrap();
    assert!(e.starts_with("unknown argument: --htpp\nusage:"), "{e}");
}

#[test]
fn a_flag_without_its_value_errors() {
    let e = decide_transport(&s(&["--http", "--bind"]), &[None, None], None).err().unwrap();
    assert_eq!(e, "--bind requires an address");
    let e = decide_transport(&s(&["--http", "--token"]), &[None, None], None).err().unwrap();
    assert_eq!(e, "--token requires a value");
}

#[test]
fn a_malformed_address_errors() {
    let e = decide_transport(&s(&["--http", "no\"where"]), &[None, None], None).err().unwrap();
    assert_eq!(e, "invalid address \"no\\\"where\" — expected ip:port or a bare port");
    let e = decide_transport(&s(&["--bind", "x"]), &[None, None], None).err().unwrap();
    assert_eq!(e, "invalid address \"x\" — expected ip:port or a bare port");
}

#[test]
fn http_is_off_without_its_flag_whatever_else_is_given() {
    let e = decide_transport(&s(&["--token", "--http"]), &[None, None], Some("t".to_string()));
    assert!(e == Err("--token requires --http".to_string()));
}

#[test]
fn ports_are_sixteen_bit_numbers() {
    assert_eq!(parse_addr("0", None), Ok(v4(127, 0, 0, 1, 0)));
    assert_eq!(parse_addr("+0080", None), Ok(v4(127, 0, 0, 1, 80)));
    assert_eq!(parse_addr("65535", None), Ok(v4(127, 0, 0, 1, 65535)));
    for bad in ["65536", "99999999999999999999", "", "+", "-1", "80 ", "8_0"] {
        assert!(parse_addr(bad, None).is_err(), "{bad:?}");
    }
    let wide = v4(10, 0, 0, 1, 5);
    assert_eq!(parse_addr("10.0.0.1:5", Some(wide)), Ok(wide));
}

#[test]
fn only_loopback_keeps_the_host_check() {
    let at = |bind: Addr| HttpOptions { bind, token: "t".to_string() }.checks_hosts();
    assert!(at(v4(127, 0, 0, 1, 1)));
    assert!(at(v4(127, 9, 9, 9, 1)));
    assert!(!at(v4(0, 0, 0, 0, 1)));
    assert!(at(Addr { ip: Ip::V6(1), port: 1, flow: 0, scope: 0 }));
    assert!(!at(Addr { ip: Ip::V6(0), port: 1, flow: 0, scope: 0 }));
}

// ---- bearer gate -------------------------------------------------------------------------

fn hit(auth: Option<&str>) -> bool {
    require_bearer("secret", auth.map(str::as_bytes))
}

#[test]
fn the_gate_refuses_a_missing_token() {
    assert!(!hit(None));
}

#[test]
fn the_gate_refuses_a_wrong_token() {
    assert!(!hit(Some("Bearer wrong")));
    // Same for a non-Bearer scheme.
    assert!(!hit(Some("Basic secret")));
    assert!(!hit(Some("bearer secret")));
    assert!(!hit(Some("Bearer  secret")));
    assert!(!hit(Some("Bearer secret ")));
    assert!(!hit(Some("Bearer ")));
    assert!(!hit(Some("Bear")));
}

#[test]
fn the_gate_lets_the_right_token_pass() {
    assert!(hit(Some("Bearer secret")));
}

#[test]
fn a_header_that_is_no_text_is_refused() {
    assert!(!require_bearer("s\u{e9}", Some("Bearer s\u{e9}".as_bytes())));
    assert!(require_bearer("a\tb", Some(b"Bearer a\tb")));
}

#[test]
fn ct_eq_matches_exactly() {
    assert!(ct_eq(b"abc", b"abc"));
    assert!(!ct_eq(b"abc", b"abd"));
    assert!(!ct_eq(b"abc", b"abcd"));
    assert!(!ct_eq(b"", b"a"));
    assert!(ct_eq(b"", b""));
    assert!(!ct_eq(b"a\0", b"a"));
}
