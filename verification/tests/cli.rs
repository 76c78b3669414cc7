use noide::cli::{
    auth_mode, forward_args, port_of, query_port, read_args, server_url, Auth, Flags, Startup,
};

fn args(v: &[&str]) -> Vec<String> {
    v.iter().map(|s| s.to_string()).collect()
}

fn flags(token: Option<&str>, no_auth: bool, no_cloudflare: bool) -> Startup {
    Startup::Serve(Flags { token: token.map(|t| t.to_string()), no_auth, no_cloudflare })
}

#[test]
fn version_comes_before_help() {
    assert_eq!(read_args(&args(&["--help", "-V"]), None), Startup::Version);
    assert_eq!(read_args(&args(&["--version"]), None), Startup::Version);
    assert_eq!(read_args(&args(&["-h"]), None), Startup::Help);
    assert_eq!(read_args(&args(&["--token", "--help"]), None), Startup::Help);
}

#[test]
fn without_arguments_clients_pair() {
    assert_eq!(read_args(&args(&[]), None), flags(None, false, false));
    assert_eq!(read_args(&args(&["--other", "x"]), None), flags(None, false, false));
    assert_eq!(
        auth_mode(Flags { token: None, no_auth: false, no_cloudflare: false }),
        Auth::Pairing
    );
}

#[test]
fn a_token_is_taken_from_the_environment_or_the_arguments() {
    let env = || Some("abc".to_string());
    assert_eq!(read_args(&args(&[]), env()), flags(Some("abc"), false, false));
    assert_eq!(read_args(&args(&[]), Some("  ".to_string())), flags(None, false, false));
    assert_eq!(read_args(&args(&["--token", "x y"]), env()), flags(Some("x y"), false, false));
    assert_eq!(read_args(&args(&["--token=q"]), env()), flags(Some("q"), false, false));
    assert_eq!(read_args(&args(&["--token= "]), env()), flags(Some("abc"), false, false));
    assert_eq!(read_args(&args(&["--token", " "]), env()), flags(Some("abc"), false, false));
    assert_eq!(read_args(&args(&["--token"]), env()), flags(Some("abc"), false, false));
    assert_eq!(
        read_args(&args(&["--token", "a", "--token=b"]), None),
        flags(Some("b"), false, false)
    );
}

#[test]
fn a_value_of_a_token_is_no_argument() {
    assert_eq!(
        read_args(&args(&["--token", "--no-auth"]), None),
        flags(Some("--no-auth"), false, false)
    );
}

#[test]
fn switches_are_read() {
    assert_eq!(
        read_args(&args(&["--no-auth", "--no-cloudflare"]), Some("t".to_string())),
        flags(Some("t"), true, true)
    );
}

#[test]
fn no_auth_comes_before_a_token() {
    let token = Some("t".to_string());
    assert_eq!(
        auth_mode(Flags { token: token.clone(), no_auth: true, no_cloudflare: false }),
        Auth::Open { overrides: true }
    );
    assert_eq!(
        auth_mode(Flags { token: None, no_auth: true, no_cloudflare: false }),
        Auth::Open { overrides: false }
    );
    assert_eq!(
        auth_mode(Flags { token, no_auth: false, no_cloudflare: true }),
        Auth::Token("t".to_string())
    );
}

#[test]
fn the_port_is_what_the_address_names_last() {
    assert_eq!(port_of("0.0.0.0:1421"), 1421);
    assert_eq!(port_of("[::1]:9000"), 9000);
    assert_eq!(port_of("8080"), 8080);
    assert_eq!(port_of("localhost"), 1421);
    assert_eq!(port_of("localhost:"), 1421);
    assert_eq!(port_of("localhost:70000"), 1421);
    assert_eq!(server_url("10.0.0.2", 80), "ws://10.0.0.2:80");
}

#[test]
fn a_forward_needs_a_provider() {
    assert_eq!(forward_args(None, Some(1)), None);
    assert_eq!(forward_args(Some(String::new()), None), None);
    assert_eq!(
        forward_args(Some("localtunnel".to_string()), None),
        Some(("localtunnel".to_string(), 3000))
    );
    assert_eq!(forward_args(Some("x".to_string()), Some(8)), Some(("x".to_string(), 8)));
    assert_eq!(query_port(&None), 3000);
    assert_eq!(query_port(&Some("8080".to_string())), 8080);
    assert_eq!(query_port(&Some("80a".to_string())), 3000);
}
