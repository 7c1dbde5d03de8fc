use tls_certificate_exporter::config::{ApplicationConfig, FileCaching, FileSource, ModuleConfig};
use tls_certificate_exporter::error::ErrorReason;
use tls_certificate_exporter::loader::ApplicationContext;
use tls_certificate_exporter::modules::{modules_wf, resolve_module_config, ResolvedModuleConfig};

fn module(extends: &[&str]) -> ModuleConfig {
    ModuleConfig {
        extends: extends.iter().map(|s| String::from(*s)).collect(),
        timeout_ms: None,
        trustedanchors: None,
        certs: None,
        key: None,
        server_name: None,
        starttls: None,
        insecure_skip_verify: None,
    }
}

fn find<'a>(out: &'a [(String, ResolvedModuleConfig)], name: &str) -> &'a ResolvedModuleConfig {
    &out.iter().find(|(n, _)| n == name).unwrap().1
}

#[test]
fn child_inherits_and_overrides() {
    // base sets a timeout and trust anchors; child extends base and sets
    // a server name: the resolved child carries all three
    let mut base = module(&[]);
    base.timeout_ms = Some(5000);
    base.trustedanchors = Some(FileSource::Path { path: String::from("/a") });
    let mut child = module(&["base"]);
    child.server_name = Some(String::from("x"));

    let modules = vec![(String::from("base"), base), (String::from("child"), child)];
    let out = resolve_module_config(&modules).unwrap();
    assert_eq!(out.len(), 2);

    let resolved_child = find(&out, "child");
    assert_eq!(resolved_child.timeout_ms, 5000);
    assert_eq!(resolved_child.trustedanchors, FileSource::Path { path: String::from("/a") });
    assert_eq!(resolved_child.server_name, Some(String::from("x")));
    assert_eq!(resolved_child.insecure_skip_verify, false);

    let resolved_base = find(&out, "base");
    assert_eq!(resolved_base.timeout_ms, 5000);
    assert_eq!(resolved_base.server_name, None);
}

#[test]
fn grandchild_inherits_transitively() {
    let mut base = module(&[]);
    base.timeout_ms = Some(7000);
    let mid = module(&["base"]);
    let leaf = module(&["mid"]);
    let modules = vec![
        (String::from("base"), base),
        (String::from("mid"), mid),
        (String::from("leaf"), leaf),
    ];
    let out = resolve_module_config(&modules).unwrap();
    assert_eq!(find(&out, "leaf").timeout_ms, 7000);
}

#[test]
fn own_fields_win_over_parents() {
    let mut base = module(&[]);
    base.timeout_ms = Some(5000);
    base.insecure_skip_verify = Some(true);
    let mut child = module(&["base"]);
    child.timeout_ms = Some(1000);
    let modules = vec![(String::from("base"), base), (String::from("child"), child)];
    let out = resolve_module_config(&modules).unwrap();
    let resolved = find(&out, "child");
    assert_eq!(resolved.timeout_ms, 1000);
    assert_eq!(resolved.insecure_skip_verify, true);
}

#[test]
fn cyclic_extends_is_rejected() {
    let a = module(&["b"]);
    let b = module(&["a"]);
    let modules = vec![(String::from("a"), a), (String::from("b"), b)];
    match resolve_module_config(&modules) {
        Err(ErrorReason::CyclicExtends) => {}
        other => panic!("expected a cyclic-extends rejection, got {:?}", other),
    }
}

#[test]
fn self_extends_is_rejected() {
    let modules = vec![(String::from("a"), module(&["a"]))];
    match resolve_module_config(&modules) {
        Err(ErrorReason::CyclicExtends) => {}
        other => panic!("expected a cyclic-extends rejection, got {:?}", other),
    }
}

#[test]
fn defaults_hold_without_parents() {
    let modules = vec![(String::from("solo"), module(&[]))];
    let out = resolve_module_config(&modules).unwrap();
    let solo = find(&out, "solo");
    assert_eq!(solo.timeout_ms, 3000);
    assert_eq!(solo.trustedanchors, FileSource::Path { path: String::new() });
    assert_eq!(solo.certs, None);
    assert_eq!(solo.key, None);
    assert_eq!(solo.server_name, None);
    assert_eq!(solo.insecure_skip_verify, false);
}

#[test]
fn override_with_folds_set_fields() {
    let mut resolved = ResolvedModuleConfig::default();
    let mut cfg = module(&[]);
    cfg.timeout_ms = Some(1234);
    cfg.server_name = Some(String::from("a.example"));
    resolved.override_with(&cfg);
    assert_eq!(resolved.timeout_ms, 1234);
    assert_eq!(resolved.server_name, Some(String::from("a.example")));
    // unset fields inherit
    assert_eq!(resolved.insecure_skip_verify, false);
}

#[test]
fn application_context_resolves_modules() {
    let mut base = module(&[]);
    base.timeout_ms = Some(9000);
    let config = ApplicationConfig {
        workers: None,
        filecaching: FileCaching::Lazy,
        modules: vec![(String::from("base"), base), (String::from("child"), module(&["base"]))],
    };
    let ctx = ApplicationContext::load_from_config(&config).unwrap();
    assert_eq!(ctx.modules.len(), 2);
    assert_eq!(ctx.get_module(&String::from("child")).unwrap().timeout_ms, 9000);
    assert!(ctx.get_module(&String::from("missing")).is_none());
}

#[test]
fn module_table_health_check() {
    let good = vec![
        (String::from("base"), module(&[])),
        (String::from("child"), module(&["base"])),
    ];
    assert!(modules_wf(&good));

    let duplicate = vec![
        (String::from("base"), module(&[])),
        (String::from("base"), module(&[])),
    ];
    assert!(!modules_wf(&duplicate));

    let dangling = vec![(String::from("child"), module(&["missing"]))];
    assert!(!modules_wf(&dangling));
}
