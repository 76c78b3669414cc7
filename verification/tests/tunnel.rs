use noide::path::Platform;
use noide::process::ProcessOutcome;
use noide::tunnel::{
    cloudflared_binary_name, cloudflared_failure, cloudflared_path, download_refused,
    download_url, ensure_cloudflared, escape_json, install_provider, install_refusal,
    install_tool, json_forward, npm_installed, npm_missing, parse_url_any, platform_triple,
    quick_tunnel_args, quick_tunnel_url, run_tunnel, script_installed, sse_error, start_failure,
    start_tunnel, stop_forward, CloudflaredFault, Fetch, ForwardLog, ForwardResponse, Heard,
    InstallPlan, Provider, QuickLine, TunnelLines, TunnelPlan, UserDirs,
};

fn owned(s: &str) -> String {
    s.to_string()
}

fn ended(success: bool, out: &[u8], err: &[u8]) -> ProcessOutcome {
    ProcessOutcome::Exited {
        success,
        code: Some(if success { 0 } else { 1 }),
        stdout: out.to_vec(),
        stderr: err.to_vec(),
    }
}

#[test]
fn providers_are_known_by_name() {
    assert_eq!(Provider::from_str("trycloudflare"), Some(Provider::TryCloudflare));
    assert_eq!(Provider::from_str("localhost.run"), Some(Provider::LocalhostRun));
    assert_eq!(Provider::from_str("localtunnel"), Some(Provider::Localtunnel));
    assert_eq!(Provider::from_str("Localtunnel"), None);
    assert_eq!(Provider::TryCloudflare.binary_name(), "cloudflared");
    assert_eq!(Provider::LocalhostRun.binary_name(), "ssh");
    assert_eq!(Provider::Localtunnel.binary_name(), "lt");
    assert_eq!(
        Provider::Localtunnel.install_hint(),
        Some("Run: npm install -g localtunnel  (requires Node.js/npm)")
    );
}

#[test]
fn programs_are_told_the_port() {
    assert_eq!(
        Provider::TryCloudflare.args(8080),
        vec!["tunnel", "--url", "http://127.0.0.1:8080", "--no-autoupdate"]
    );
    assert_eq!(
        Provider::LocalhostRun.args(0),
        vec!["-o", "StrictHostKeyChecking=no", "-R", "*:80:127.0.0.1:0", "nokey@localhost.run"]
    );
    assert_eq!(Provider::Localtunnel.args(65535), vec!["--port=65535"]);
}

#[test]
fn addresses_are_found_in_lines() {
    let p = Provider::TryCloudflare;
    assert_eq!(
        p.parse_url(" | https://a-b.trycloudflare.com,, | "),
        Some(owned("https://a-b.trycloudflare.com"))
    );
    assert_eq!(p.parse_url("http://a.trycloudflare.com"), None);
    assert_eq!(p.parse_url("see trycloudflare.com"), None);
    let p = Provider::LocalhostRun;
    assert_eq!(
        p.parse_url("tunneled, http://x.lhr.life https://y.lhr.life"),
        Some(owned("http://x.lhr.life"))
    );
    let p = Provider::Localtunnel;
    assert_eq!(p.parse_url("your url is: https://q.loca.lt"), Some(owned("https://q.loca.lt")));
    assert_eq!(
        p.parse_url("http://q.localtunnel.me,"),
        Some(owned("http://q.localtunnel.me"))
    );
    assert_eq!(p.parse_url("https://q.lhr.life"), None);
    assert_eq!(
        parse_url_any("https://z.loca.lt https://z.trycloudflare.com"),
        Some(owned("https://z.trycloudflare.com"))
    );
    assert_eq!(parse_url_any("nothing"), None);
}

#[test]
fn tunnels_need_their_program() {
    assert_eq!(run_tunnel("x", 1, Some(owned("/bin/x"))), Err(owned("Unknown provider: x")));
    assert_eq!(
        run_tunnel("localhost.run", 1, None),
        Err(owned(
            "`ssh` is not installed. Install OpenSSH client via your system package manager \
             (apt, brew, etc.)"
        ))
    );
    assert_eq!(
        run_tunnel("localtunnel", 81, Some(owned("/bin/lt"))),
        Ok(TunnelPlan {
            provider: Provider::Localtunnel,
            program: owned("/bin/lt"),
            args: vec![owned("--port=81")],
        })
    );
    assert_eq!(start_failure(Provider::Localtunnel, "denied"), "Failed to start lt: denied");
}

#[test]
fn an_address_is_told_once() {
    let mut t = TunnelLines::new(Provider::Localtunnel);
    assert_eq!(t.line("starting \n", false), (vec![owned("starting")], None));
    assert_eq!(t.line("starting", false), (vec![], None));
    assert_eq!(
        t.line("at https://a.loca.lt\r\n", false),
        (
            vec![owned("at https://a.loca.lt"), owned("[URL] https://a.loca.lt")],
            Some(owned("https://a.loca.lt"))
        )
    );
    assert_eq!(t.line("at https://b.loca.lt", false), (vec![owned("at https://b.loca.lt")], None));
    assert_eq!(t.line("starting", true), (vec![owned("starting")], None));
}

#[test]
fn an_address_that_is_known_is_not_told_again() {
    let mut t = TunnelLines::new(Provider::Localtunnel);
    assert_eq!(t.line("", false), (vec![], None));
    assert_eq!(t.line("https://a.loca.lt", true), (vec![owned("https://a.loca.lt")], None));
}

#[test]
fn requests_wait_for_an_address_or_bad_news() {
    let mut log = ForwardLog::new();
    assert_eq!(log.hear("connecting"), Heard::More);
    assert_eq!(log.hear("`lt` is NOT Installed."), Heard::Stop);
    assert_eq!(log.hear("an ERROR"), Heard::Stop);
    assert_eq!(log.hear("an error"), Heard::More);
    assert_eq!(log.hear("ERROR at https://a.lhr.life"), Heard::Url(owned("https://a.lhr.life")));
    let all = "connecting\n`lt` is NOT Installed.\nan ERROR\nan error\nERROR at https://a.lhr.life";
    assert_eq!(log.message(), all);
    assert_eq!(json_forward(None, &log), ForwardResponse { ok: false, message: owned(all) });
    assert_eq!(
        json_forward(Some(owned("u")), &log),
        ForwardResponse { ok: true, message: owned("u") }
    );
    assert_eq!(stop_forward(), ForwardResponse { ok: true, message: owned("stopped") });
    assert_eq!(ForwardLog::new().message(), "");
}

#[test]
fn programs_are_installed_where_that_can_be() {
    assert_eq!(
        install_provider("x", "linux"),
        InstallPlan::Refuse(owned("Unknown provider: x"))
    );
    assert!(matches!(
        install_provider("trycloudflare", "linux"),
        InstallPlan::Refuse(t) if t.starts_with("Cloudflared must be installed manually.")
    ));
    assert!(matches!(
        install_provider("localhost.run", "windows"),
        InstallPlan::Refuse(t) if t.ends_with("on this OS. Install it manually.")
    ));
    assert!(matches!(
        install_provider("localhost.run", "linux"),
        InstallPlan::Script { script, fault, .. }
            if script.starts_with("apt-get") && fault == "Failed to run package manager: "
    ));
    assert!(matches!(
        install_provider("localhost.run", "macos"),
        InstallPlan::Script { script, fault, .. }
            if script == "brew install openssh 2>/dev/null || true"
                && fault == "Failed to run brew: "
    ));
    assert_eq!(install_provider("localtunnel", "any"), InstallPlan::Npm);
}

#[test]
fn scripts_have_to_bring_the_program() {
    let o = ended(false, b"out", b"err\xff");
    assert_eq!(script_installed(&o, true, "f: ", "m"), Ok(owned("outerr\u{fffd}")));
    assert_eq!(script_installed(&o, false, "f: ", "m"), Err(owned("m")));
    let o = ProcessOutcome::Failed(owned("denied"));
    assert_eq!(script_installed(&o, true, "f: ", "m"), Err(owned("f: denied")));
    let o = ProcessOutcome::NotFound(owned("gone"));
    assert_eq!(script_installed(&o, true, "f: ", "m"), Err(owned("f: gone")));
}

#[test]
fn npm_has_to_succeed() {
    assert_eq!(npm_installed(&ended(true, b"added", b"")), Ok(owned("added")));
    assert_eq!(npm_installed(&ended(true, b"added", b"warn")), Ok(owned("added\nwarn")));
    assert_eq!(npm_installed(&ended(false, b"", b"no")), Err(owned("\nno")));
    let o = ProcessOutcome::Failed(owned("denied"));
    assert_eq!(npm_installed(&o), Err(owned("Failed to run npm: denied")));
    assert_eq!(npm_missing(), "npm is not installed. Install Node.js (>= 18) first.");
    assert_eq!(
        install_refusal(""),
        Some(ForwardResponse { ok: false, message: owned("missing provider") })
    );
    assert_eq!(install_refusal("x"), None);
    assert_eq!(install_tool(Ok(owned("a"))), ForwardResponse { ok: true, message: owned("a") });
    assert_eq!(install_tool(Err(owned("b"))), ForwardResponse { ok: false, message: owned("b") });
}

#[test]
fn events_escape_their_text() {
    assert_eq!(escape_json("a\\b\"c\nd\te"), "a\\\\b\\\"c\\nd\te");
    assert_eq!(sse_error("x\ny"), "event: error\ndata: x\\ny\n\n");
}

#[test]
fn cloudflared_is_fetched_when_it_is_missing() {
    let dirs = |home: Option<&str>, local: Option<&str>, profile: Option<&str>| UserDirs {
        home: home.map(owned),
        local_data: local.map(owned),
        profile: profile.map(owned),
    };
    let unix = |home| cloudflared_path(Platform::Unix, &dirs(home, Some("L"), Some("P")));
    assert_eq!(unix(Some("/root")), "/root/.noide/cloudflared");
    assert_eq!(unix(None), "/tmp/.noide/cloudflared");
    let windows = |local, profile| {
        cloudflared_path(Platform::Windows, &dirs(Some("/h"), local, profile))
    };
    let user = Some(r"C:\Users\ann");
    assert_eq!(windows(Some(r"D:\data"), user), r"D:\data\noide\cloudflared.exe");
    assert_eq!(
        windows(None, user),
        r"C:\Users\ann\AppData\Local\noide\cloudflared.exe"
    );
    assert_eq!(windows(None, None), r"\AppData\Local\noide\cloudflared.exe");
    assert_eq!(cloudflared_binary_name(Platform::Windows), "cloudflared.exe");
    assert_eq!(cloudflared_binary_name(Platform::Unix), "cloudflared");
    assert_eq!(ensure_cloudflared(true, "linux", "x86_64"), Fetch::Ready);
    let base = "https://github.com/cloudflare/cloudflared/releases/latest/download/cloudflared-";
    assert_eq!(
        ensure_cloudflared(false, "macos", "aarch64"),
        Fetch::Download(format!("{}darwin-arm64", base))
    );
    assert_eq!(download_url("t"), format!("{}t", base));
    assert_eq!(platform_triple("linux", "x86_64"), "linux-amd64");
    assert_eq!(platform_triple("linux", "aarch64"), "linux-arm64");
    assert_eq!(platform_triple("macos", "x86_64"), "darwin-amd64");
    assert_eq!(platform_triple("windows", "x86_64"), "windows-amd64");
    assert_eq!(platform_triple("windows", "aarch64"), "linux-amd64");
    assert_eq!(
        download_refused("404 Not Found"),
        "cloudflared download failed (HTTP 404 Not Found)"
    );
}

#[test]
fn cloudflared_tells_where_it_fails() {
    let said = |at| cloudflared_failure(at, "e");
    assert_eq!(said(CloudflaredFault::MakeClient), "failed to build HTTP client: e");
    assert_eq!(said(CloudflaredFault::Download), "failed to download cloudflared: e");
    assert_eq!(said(CloudflaredFault::MakeDir), "failed to create ~/.noide: e");
    assert_eq!(said(CloudflaredFault::MakeTemp), "failed to create temp file: e");
    assert_eq!(said(CloudflaredFault::ReadBody), "failed to read download: e");
    assert_eq!(said(CloudflaredFault::WriteBody), "failed to write binary: e");
    assert_eq!(said(CloudflaredFault::MakeExecutable), "failed to chmod cloudflared: e");
    assert_eq!(said(CloudflaredFault::Start), "failed to start cloudflared: e");
}

#[test]
fn quick_tunnels_read_their_address() {
    assert_eq!(quick_tunnel_args(7), vec!["tunnel", "--url", "http://127.0.0.1:7"]);
    let line = "INF |  https://a.trycloudflare.com, |";
    assert_eq!(quick_tunnel_url(line), Some(owned("https://a.trycloudflare.com,")));
    assert_eq!(quick_tunnel_url("https://example.com"), None);
    assert_eq!(quick_tunnel_url("at trycloudflare.com"), None);
    assert_eq!(start_tunnel(&QuickLine::Line(owned("INF starting"))), Ok(None));
    assert_eq!(
        start_tunnel(&QuickLine::Line(owned("https://q.trycloudflare.com"))),
        Ok(Some(owned("https://q.trycloudflare.com")))
    );
    assert_eq!(
        start_tunnel(&QuickLine::End),
        Err(owned("cloudflared exited before producing a tunnel URL"))
    );
    assert_eq!(
        start_tunnel(&QuickLine::Fault(owned("eof"))),
        Err(owned("cloudflared stderr read error: eof"))
    );
}
