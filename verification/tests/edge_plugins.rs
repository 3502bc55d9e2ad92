use sievetube::addr::IpAddr;
use sievetube::config::Protocol;
use sievetube::digest::sha256_hex;
use sievetube::edge::config::PluginConfig;
use sievetube::edge::plugins::{
    check_abi, classify, classify_text, engine, judge, verify_exports, ModuleCache, PluginFailure, PluginSet,
    PluginSource, PluginVerdict, RequestContext, TrapKind,
};
use wasmtime::Engine;

fn module(abi_version: i32, evaluate_body: &str, extra: &str) -> String {
    format!(
        r#"(module
  {extra}
  (memory (export "memory") 1)
  (global $heap (mut i32) (i32.const 1024))
  (func (export "sievetube_abi_version") (result i32) (i32.const {abi_version}))
  (func (export "sievetube_alloc") (param $len i32) (result i32)
    (local $ptr i32)
    (local.set $ptr (global.get $heap))
    (global.set $heap (i32.add (global.get $heap) (local.get $len)))
    (local.get $ptr))
  (func (export "sievetube_evaluate") (param $ptr i32) (param $len i32) (result i32)
    {evaluate_body}))"#
    )
}

fn allow_all() -> String {
    module(1, "(i32.const 0)", "")
}

/// Deny when the request context contains `/admin`.
fn deny_admin_paths() -> String {
    let byte_at = |offset: i32, value: u8| {
        format!("(i32.eq (i32.load8_u (i32.add (local.get $i) (i32.const {offset}))) (i32.const {value}))")
    };
    let matched = b"/admin"
        .iter()
        .enumerate()
        .map(|(offset, b)| byte_at(offset as i32, *b))
        .reduce(|acc, next| format!("(i32.and {acc} {next})"))
        .unwrap();
    module(
        1,
        &format!(
            r#"(local $i i32) (local $end i32)
    (local.set $i (local.get $ptr))
    (local.set $end (i32.sub (i32.add (local.get $ptr) (local.get $len)) (i32.const 6)))
    (block $done
      (loop $scan
        (br_if $done (i32.gt_s (local.get $i) (local.get $end)))
        (if {matched} (then (return (i32.const 1))))
        (local.set $i (i32.add (local.get $i) (i32.const 1)))
        (br $scan)))
    (i32.const 0)"#
        ),
        "",
    )
}

fn config(name: &str, source: &str) -> PluginSource {
    PluginSource {
        config: PluginConfig {
            name: name.to_string(),
            path: format!("/plugins/{name}.wat"),
            sha256: sha256_hex(source.as_bytes()),
            applies_to: Vec::new(),
            max_memory_bytes: 2 * 1024 * 1024,
            fuel: 5_000_000,
            timeout_ms: 1000,
            max_concurrent: 16,
        },
        content: Ok(source.as_bytes().to_vec()),
    }
}

fn ctx<'a>(hostname: &'a str, path: &'a str) -> RequestContext<'a> {
    RequestContext {
        tenant_id: "tenant",
        hostname,
        protocol: Protocol::Http,
        client_ip: IpAddr::V4(0xc000_0201),
        method: "GET",
        path,
    }
}

struct Loaded {
    engine: Engine,
    set: PluginSet,
}

impl Loaded {
    fn evaluate(&self, ctx: &RequestContext) -> PluginVerdict {
        self.set.evaluate(&self.engine, ctx)
    }
}

/// An engine for plugins that reserves no address space beyond what a module uses.
fn small_engine() -> Engine {
    let mut config = wasmtime::Config::new();
    config.consume_fuel(true).epoch_interruption(true).max_wasm_stack(256 * 1024);
    config.memory_reservation(0).memory_reservation_for_growth(0).memory_guard_size(0);
    Engine::new(&config).unwrap()
}

fn load(sources: Vec<PluginSource>) -> Result<Loaded, String> {
    let engine = small_engine();
    let set = PluginSet::load(&engine, &sources, &mut ModuleCache::new())?;
    Ok(Loaded { engine, set })
}

fn failure(sources: Vec<PluginSource>) -> String {
    match load(sources) {
        Ok(_) => panic!("the plugin was loaded"),
        Err(e) => e,
    }
}

#[test]
fn plugins_receive_the_request_context() {
    let set = load(vec![config("admin", &deny_admin_paths())]).unwrap_or_else(|e| panic!("{e}"));
    assert_eq!(set.evaluate(&ctx("a.test", "/public")), PluginVerdict::Allow);
    assert_eq!(
        set.evaluate(&ctx("a.test", "/admin/users")),
        PluginVerdict::Deny { plugin: "admin".into() }
    );
}

#[test]
fn applies_to_limits_plugins_to_hostnames() {
    let mut cfg = config("deny", &module(1, "(i32.const 1)", ""));
    cfg.config.applies_to = vec!["*.strict.test".into()];
    let set = load(vec![cfg, config("allow", &allow_all())]).unwrap_or_else(|e| panic!("{e}"));
    assert_eq!(
        set.evaluate(&ctx("api.strict.test", "/")),
        PluginVerdict::Deny { plugin: "deny".into() }
    );
    assert_eq!(set.evaluate(&ctx("other.test", "/")), PluginVerdict::Allow);
}

#[test]
fn runaway_plugins_are_stopped() {
    let infinite = module(1, "(loop $forever (br $forever)) (i32.const 0)", "");

    let fuel_limited = load(vec![config("spin", &infinite)]).unwrap_or_else(|e| panic!("{e}"));
    assert_eq!(
        fuel_limited.evaluate(&ctx("a.test", "/")),
        PluginVerdict::Failed { plugin: "spin".into(), failure: PluginFailure::OutOfFuel }
    );

    let mut timed = config("spin-timeout", &infinite);
    timed.config.fuel = u64::MAX / 2;
    timed.config.timeout_ms = 20;
    let set = load(vec![timed]).unwrap_or_else(|e| panic!("{e}"));
    let ticks = set.engine.clone();
    let runtime = tokio::runtime::Runtime::new().unwrap();
    runtime.spawn(async move {
        loop {
            tokio::time::sleep(std::time::Duration::from_millis(1)).await;
            ticks.increment_epoch();
        }
    });
    let started = std::time::Instant::now();
    assert_eq!(
        set.evaluate(&ctx("a.test", "/")),
        PluginVerdict::Failed { plugin: "spin-timeout".into(), failure: PluginFailure::Timeout }
    );
    assert!(started.elapsed() < std::time::Duration::from_secs(2));
    runtime.shutdown_background();

    let hog = module(1, "(drop (memory.grow (i32.const 1000))) (i32.const 0)", "");
    let set = load(vec![config("hog", &hog)]).unwrap_or_else(|e| panic!("{e}"));
    assert!(matches!(
        set.evaluate(&ctx("a.test", "/")),
        PluginVerdict::Failed {
            failure: PluginFailure::MemoryLimit | PluginFailure::Trap,
            ..
        }
    ));

    let invalid = load(vec![config("seven", &module(1, "(i32.const 7)", ""))]).unwrap_or_else(|e| panic!("{e}"));
    assert_eq!(
        invalid.evaluate(&ctx("a.test", "/")),
        PluginVerdict::Failed { plugin: "seven".into(), failure: PluginFailure::InvalidOutput }
    );

    let crash = load(vec![config("crash", &module(1, "(unreachable)", ""))]).unwrap_or_else(|e| panic!("{e}"));
    assert!(matches!(
        crash.evaluate(&ctx("a.test", "/")),
        PluginVerdict::Failed { failure: PluginFailure::Trap, .. }
    ));

    // The failures above did not poison later calls.
    let set = load(vec![config("allow", &allow_all())]).unwrap_or_else(|e| panic!("{e}"));
    assert_eq!(set.evaluate(&ctx("a.test", "/")), PluginVerdict::Allow);
}

#[test]
fn unsafe_or_mismatched_modules_are_rejected() {
    let with_import = module(
        1,
        "(i32.const 0)",
        r#"(import "wasi_snapshot_preview1" "fd_write" (func (param i32 i32 i32 i32) (result i32)))"#,
    );
    let err = failure(vec![config("io", &with_import)]);
    assert!(err.contains("imports are not allowed"), "{err}");

    let err = failure(vec![config("v2", &module(2, "(i32.const 0)", ""))]);
    assert!(err.contains("ABI version"), "{err}");

    let mut tampered = config("tampered", &allow_all());
    tampered.config.sha256 = "00".repeat(32);
    let err = failure(vec![tampered]);
    assert!(err.contains("SHA-256 mismatch"), "{err}");

    let err = failure(vec![config("partial", "(module (memory (export \"memory\") 1))")]);
    assert!(err.contains("missing export"), "{err}");
}

#[test]
fn concurrency_limit_fails_fast() {
    let mut cfg = config("single", &allow_all());
    cfg.config.max_concurrent = 1;
    let set = load(vec![cfg]).unwrap_or_else(|e| panic!("{e}"));
    let _held = set.set.plugins[0].permits.try_acquire().unwrap();
    assert_eq!(
        set.evaluate(&ctx("a.test", "/")),
        PluginVerdict::Failed { plugin: "single".into(), failure: PluginFailure::Busy }
    );
}

#[test]
fn module_cache_reuses_compiled_modules() {
    let engine = small_engine();
    let mut cache = ModuleCache::new();
    let sources = vec![config("allow", &allow_all())];
    assert!(PluginSet::load(&engine, &sources, &mut cache).is_ok());
    assert!(PluginSet::load(&engine, &sources, &mut cache).is_ok());
    assert_eq!(cache.len(), 1);
    let other = vec![config("deny", &module(1, "(i32.const 1)", ""))];
    assert!(PluginSet::load(&engine, &other, &mut cache).is_ok());
    assert_eq!(cache.len(), 2);
}

#[test]
fn unreadable_and_invalid_files_are_reported() {
    let mut missing = config("missing", &allow_all());
    missing.content = Err("No such file or directory".to_string());
    let err = failure(vec![missing]);
    assert!(err.contains("missing") && err.contains("No such file"), "{err}");
    let err = failure(vec![config("text", "this is no module")]);
    assert!(err.contains("invalid WebAssembly module"), "{err}");
    let mut twice = vec![config("same", &allow_all()), config("same", &allow_all())];
    twice[0].config.applies_to = vec!["bad host".to_string()];
    assert!(load(twice).is_err());
}

#[test]
fn the_first_objection_decides() {
    let deny = || config("deny", &module(1, "(i32.const 1)", ""));
    let broken = || config("broken", &module(1, "(unreachable)", ""));
    let set = load(vec![config("ok", &allow_all()), deny(), broken()]).unwrap_or_else(|e| panic!("{e}"));
    assert_eq!(
        set.evaluate(&ctx("a.test", "/")),
        PluginVerdict::Deny { plugin: "deny".into() }
    );
    let set = load(vec![broken(), deny()]).unwrap_or_else(|e| panic!("{e}"));
    assert_eq!(
        set.evaluate(&ctx("a.test", "/")),
        PluginVerdict::Failed { plugin: "broken".into(), failure: PluginFailure::Trap }
    );
    assert_eq!(judge("p", Ok(0)), None);
    assert_eq!(judge("p", Ok(1)), Some(PluginVerdict::Deny { plugin: "p".into() }));
    assert_eq!(
        judge("p", Ok(2)),
        Some(PluginVerdict::Failed { plugin: "p".into(), failure: PluginFailure::InvalidOutput })
    );
    assert_eq!(
        judge("p", Err(PluginFailure::Busy)),
        Some(PluginVerdict::Failed { plugin: "p".into(), failure: PluginFailure::Busy })
    );
}

#[test]
fn the_context_is_prepared_only_where_a_plugin_applies() {
    let mut cfg = config("strict", &allow_all());
    cfg.config.applies_to = vec!["strict.test".into()];
    let set = load(vec![cfg]).unwrap_or_else(|e| panic!("{e}"));
    assert!(set.set.prepare(&ctx("other.test", "/")).is_none());
    let job = set.set.prepare(&ctx("strict.test", "/a\"b")).unwrap();
    assert_eq!(job.hostname, "strict.test");
    let value: serde_json::Value = serde_json::from_slice(&job.input).unwrap();
    assert_eq!(value["hostname"], "strict.test");
    assert_eq!(value["tenant_id"], "tenant");
    assert_eq!(value["client_ip"], "192.0.2.1");
    assert_eq!(value["method"], "GET");
    assert_eq!(value["path"], "/a\"b");
    assert_eq!(set.set.evaluate_prepared(&set.engine, &job), PluginVerdict::Allow);

    let long = "x".repeat(20_000);
    assert_eq!(
        set.evaluate(&ctx("strict.test", &long)),
        PluginVerdict::Failed { plugin: "strict".into(), failure: PluginFailure::InputTooLarge }
    );
}

#[test]
fn failures_are_told_apart() {
    assert_eq!(classify_text(TrapKind::OutOfFuel, ""), PluginFailure::OutOfFuel);
    assert_eq!(classify_text(TrapKind::Interrupt, ""), PluginFailure::Timeout);
    assert_eq!(classify_text(TrapKind::OtherTrap, "unreachable"), PluginFailure::Trap);
    let trap = wasmtime::Error::from(wasmtime::Trap::OutOfFuel);
    assert_eq!(classify(&trap), PluginFailure::OutOfFuel);
    let trap = wasmtime::Error::from(wasmtime::Trap::StackOverflow);
    assert_eq!(classify(&trap), PluginFailure::Trap);
    assert_eq!(PluginFailure::InputTooLarge.as_str(), "input_too_large");
    let engine = engine().ok().unwrap();
    let bare = wasmtime::Module::new(&engine, "(module)").unwrap();
    assert!(verify_exports(&bare).is_err());
    let full = wasmtime::Module::new(&engine, allow_all()).unwrap();
    assert_eq!(verify_exports(&full), Ok(()));
}

#[test]
fn functions_are_found_before_the_plugin_is_called() {
    // The plugin has no function to evaluate with two numbers, so its allocator, which
    // never returns, is not called.
    let endless = r#"(module
  (memory (export "memory") 1)
  (func (export "sievetube_abi_version") (result i32) (i32.const 1))
  (func (export "sievetube_alloc") (param i32) (result i32)
    (loop $forever (br $forever)) (i32.const 0))
  (func (export "sievetube_evaluate") (param i32) (result i32) (i32.const 0)))"#;
    let set = load(vec![config("endless", endless)]).unwrap_or_else(|e| panic!("{e}"));
    assert_eq!(
        set.evaluate(&ctx("a.test", "/")),
        PluginVerdict::Failed { plugin: "endless".into(), failure: PluginFailure::Trap }
    );
    // Room that lies outside of the memory is not written to.
    let outside = module(1, "(i32.const 0)", "").replace("(i32.const 1024)", "(i32.const -1)");
    let set = load(vec![config("outside", &outside)]).unwrap_or_else(|e| panic!("{e}"));
    assert!(matches!(
        set.evaluate(&ctx("a.test", "/")),
        PluginVerdict::Failed { failure: PluginFailure::Trap | PluginFailure::MemoryLimit, .. }
    ));
}

#[test]
fn only_one_version_of_the_abi_will_do() {
    assert_eq!(check_abi("p", Ok(1)), Ok(()));
    assert_eq!(
        check_abi("p", Ok(-7)),
        Err("plugin p: unsupported ABI version -7 (expected 1)".to_string())
    );
    assert_eq!(
        check_abi("p", Err(PluginFailure::OutOfFuel)),
        Err("plugin p: ABI version check failed: out_of_fuel".to_string())
    );
    let err = failure(vec![config("v2", &module(2, "(i32.const 0)", ""))]);
    assert_eq!(err, "plugin v2: unsupported ABI version 2 (expected 1)");
}
