use adguard::{
    base64_encode, classify_reply, is_success, plan_set_rewrite, transport, AdguardBackend,
    AdguardError, Config, Rewrite, Runtime, ServiceCapability,
};

#[test]
fn base64_matches_known_vectors() {
    assert_eq!(base64_encode(b""), "");
    assert_eq!(base64_encode(b"f"), "Zg==");
    assert_eq!(base64_encode(b"fo"), "Zm8=");
    assert_eq!(base64_encode(b"foo"), "Zm9v");
    assert_eq!(base64_encode(b"foob"), "Zm9vYg==");
    assert_eq!(base64_encode(b"fooba"), "Zm9vYmE=");
    assert_eq!(base64_encode(b"foobar"), "Zm9vYmFy");
}

#[test]
fn auth_header_is_basic_scheme() {
    let cfg = Config::new("http://host", "admin", "s3cret");
    // base64("admin:s3cret")
    assert_eq!(cfg.auth_header_value(), "Basic YWRtaW46czNjcmV0");
}

#[test]
fn declares_provider() {
    let b = AdguardBackend::new("adguard");
    assert_eq!(b.provider(), "adguard");
}

#[test]
fn control_url_joins_cleanly() {
    let cfg = Config::new("http://host:80/", "u", "p");
    assert_eq!(
        cfg.control_url("rewrite/list"),
        "http://host:80/control/rewrite/list"
    );
    assert_eq!(cfg.control_url("/status"), "http://host:80/control/status");
}

fn rw(domain: &str, answer: &str) -> Rewrite {
    Rewrite {
        domain: domain.to_string(),
        answer: answer.to_string(),
    }
}

fn pair(r: &Rewrite) -> (String, String) {
    (r.domain.clone(), r.answer.clone())
}

/// Applies an upsert to a table the way AdGuard's rewrite/delete (drop every
/// equal row) and rewrite/add (append) do.
fn apply(table: &[Rewrite], domain: &str, answer: &str) -> Vec<Rewrite> {
    let existing: Vec<Rewrite> = table.iter().map(|r| rw(&r.domain, &r.answer)).collect();
    let plan = plan_set_rewrite(&existing, domain, answer);
    let mut rows: Vec<(String, String)> = table.iter().map(pair).collect();
    for stale in &plan.stale {
        let gone = pair(stale);
        rows.retain(|row| *row != gone);
    }
    rows.push(pair(&plan.desired));
    rows.iter().map(|(d, a)| rw(d, a)).collect()
}

#[test]
fn base64_handles_all_byte_values_and_lengths() {
    assert_eq!(base64_encode(&[0, 0, 0]), "AAAA");
    assert_eq!(base64_encode(&[255, 255, 255]), "////");
    assert_eq!(base64_encode(&[0xfb, 0xff]), "+/8=");
    assert_eq!(base64_encode(&[0]), "AA==");
    for n in 0..20usize {
        let input: Vec<u8> = (0..n).map(|i| (i * 37 + 11) as u8).collect();
        assert_eq!(base64_encode(&input).len(), 4 * ((n + 2) / 3));
    }
}

#[test]
fn base64_concatenates_on_whole_groups() {
    let a = b"Man";
    let b = b"ly";
    let mut ab = a.to_vec();
    ab.extend_from_slice(b);
    assert_eq!(
        base64_encode(&ab),
        format!("{}{}", base64_encode(a), base64_encode(b))
    );
    assert_eq!(base64_encode(&ab), "TWFubHk=");
}

#[test]
fn base64_distinguishes_inputs() {
    assert_ne!(base64_encode(b"a"), base64_encode(b"a\0"));
    assert_ne!(base64_encode(b"ab"), base64_encode(b"ab\0"));
    assert_ne!(base64_encode(b"abc"), base64_encode(b"abd"));
}

#[test]
fn auth_header_encodes_utf8_credentials() {
    let cfg = Config::new("http://host", "\u{fc}ser", "p\u{e4}ss");
    // base64 of the UTF-8 bytes of "üser:päss"
    assert_eq!(cfg.auth_header_value(), "Basic w7xzZXI6cMOkc3M=");
    let empty = Config::new("http://host", "", "");
    assert_eq!(empty.auth_header_value(), "Basic Og==");
}

#[test]
fn config_new_and_insecure() {
    let cfg = Config::new("https://dns.lan", "admin", "pw");
    assert_eq!(cfg.base_url, "https://dns.lan");
    assert_eq!(cfg.username, "admin");
    assert_eq!(cfg.password, "pw");
    assert!(!cfg.insecure);
    let cfg = cfg.insecure(true);
    assert!(cfg.insecure);
    assert_eq!(cfg.base_url, "https://dns.lan");
    let cfg = cfg.insecure(false);
    assert!(!cfg.insecure);
}

#[test]
fn control_url_absorbs_extra_slashes() {
    let plain = Config::new("http://h", "u", "p");
    let slashed = Config::new("http://h///", "u", "p");
    assert_eq!(plain.control_url("status"), "http://h/control/status");
    assert_eq!(slashed.control_url("//status"), "http://h/control/status");
    assert_eq!(plain.control_url(""), "http://h/control/");
    let bare = Config::new("/", "u", "p");
    assert_eq!(bare.control_url("/"), "/control/");
}

#[test]
fn reply_classification() {
    assert!(!is_success(199));
    assert!(is_success(200));
    assert!(is_success(204));
    assert!(is_success(299));
    assert!(!is_success(300));
    assert!(!is_success(404));
    match classify_reply(200, "{}".to_string()) {
        Ok(body) => assert_eq!(body, "{}"),
        Err(e) => panic!("unexpected {:?}", e),
    }
    match classify_reply(401, "Unauthorized".to_string()) {
        Err(AdguardError::Api { status, body }) => {
            assert_eq!(status, 401);
            assert_eq!(body, "Unauthorized");
        }
        other => panic!("unexpected {:?}", other),
    }
}

#[test]
fn error_variants() {
    match transport("connection refused".to_string()) {
        AdguardError::Transport(m) => assert_eq!(m, "connection refused"),
        other => panic!("unexpected {:?}", other),
    }
    let e = AdguardError::Malformed("expected value".to_string());
    assert!(matches!(e, AdguardError::Malformed(_)));
}

#[test]
fn plan_deletes_every_rewrite_for_the_domain() {
    let existing = vec![
        rw("a.lan", "10.0.0.1"),
        rw("b.lan", "10.0.0.2"),
        rw("a.lan", "10.0.0.3"),
        rw("a.lanx", "10.0.0.4"),
    ];
    let plan = plan_set_rewrite(&existing, "a.lan", "10.0.0.9");
    let stale: Vec<(String, String)> = plan.stale.iter().map(pair).collect();
    assert_eq!(
        stale,
        vec![
            ("a.lan".to_string(), "10.0.0.1".to_string()),
            ("a.lan".to_string(), "10.0.0.3".to_string()),
        ]
    );
    assert_eq!(plan.desired, rw("a.lan", "10.0.0.9"));
    let none = plan_set_rewrite(&Vec::new(), "a.lan", "x");
    assert!(none.stale.is_empty());
}

#[test]
fn upsert_leaves_one_rewrite_and_is_idempotent() {
    let table = vec![
        rw("a.lan", "10.0.0.1"),
        rw("b.lan", "10.0.0.2"),
        rw("a.lan", "10.0.0.3"),
        rw("a.lan", "10.0.0.1"),
    ];
    let once = apply(&table, "a.lan", "10.0.0.9");
    assert_eq!(once, vec![rw("b.lan", "10.0.0.2"), rw("a.lan", "10.0.0.9")]);
    let twice = apply(&once, "a.lan", "10.0.0.9");
    assert_eq!(twice, once);
}

#[test]
fn backend_declarations() {
    let b = AdguardBackend::new("adguard");
    assert_eq!(
        b.runtimes(),
        vec![Runtime::Docker, Runtime::Podman, Runtime::Lxc, Runtime::Vm]
    );
    assert_eq!(
        b.capabilities(),
        vec![
            ServiceCapability::Deploy,
            ServiceCapability::Backup,
            ServiceCapability::Restore,
            ServiceCapability::Configure,
            ServiceCapability::Status,
        ]
    );
    assert_eq!(b.default_port(), 3000);
    assert_eq!(b.data_paths(), vec!["/config".to_string()]);
}
