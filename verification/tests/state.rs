use nexus::state::layer::{
    into_flags, CpuMaxTable, Entry, IdMapTable, LibcTable, ResourcesTable, SandboxTable,
};
use nexus::state::{descriptors_from, system_from, System, SystemFile};
use nexus::{
    CpuMax, DefaultHealthCheck, DefaultSelector, Error, HealthCheck, LayerDescriptor, LayerSelector,
    LayerType, Seccomp,
};

fn libc(name: &str, loader: Option<&str>) -> LibcTable {
    LibcTable { name: name.to_string(), loader: loader.map(str::to_string) }
}

fn entry(layer_type: &str, priority: u32, libc: LibcTable) -> Entry {
    Entry {
        layer_type: layer_type.to_string(),
        priority,
        libc,
        sandbox: None,
        resources: None,
        flags: Vec::new(),
    }
}

fn sandbox() -> SandboxTable {
    SandboxTable {
        read: Vec::new(),
        write: Vec::new(),
        seccomp: None,
        idmap: None,
        keep_caps: Vec::new(),
    }
}

fn resources() -> ResourcesTable {
    ResourcesTable { memory_max: None, pids_max: None, cpu_weight: None, cpu_max: None }
}

// the sample layers.toml: [layer.debian], [layer.tools] and [layer.void],
// in the key order the file's table yields them
fn sample() -> Vec<(String, Entry)> {
    let mut void = entry("native", 3, libc("musl", Some("/lib/ld-musl-x86_64.so.1")));
    void.flags.push(("pinned".to_string(), true));
    vec![
        (
            "debian".to_string(),
            entry("shadowed", 1, libc("glibc", Some("/lib64/ld-linux-x86-64.so.2"))),
        ),
        ("tools".to_string(), entry("native", 5, libc("static", None))),
        ("void".to_string(), void),
    ]
}

fn one(id: &str, e: Entry) -> Vec<(String, Entry)> {
    vec![(id.to_string(), e)]
}

fn glibc_native() -> Entry {
    entry("native", 2, libc("glibc", Some("/lib/ld.so")))
}

#[test]
fn parses_descriptors() {
    let mut layers = descriptors_from(sample()).unwrap();
    layers.sort_by_key(|l| l.priority);
    assert_eq!(layers.len(), 3);

    let debian = &layers[0];
    assert_eq!(debian.id.as_str(), "debian");
    assert_eq!(debian.layer_type, LayerType::Shadowed);
    assert_eq!(debian.libc.name, "glibc");
    assert!(!debian.libc.is_static());

    let void = &layers[1];
    assert!(void.flags.pinned);

    // static layer has no loader
    assert!(layers[2].libc.is_static());
}

#[test]
fn false_flags_dropped() {
    let mut x = glibc_native();
    x.flags.push(("hidden".to_string(), false));
    x.flags.push(("ephemeral".to_string(), true));
    let layers = descriptors_from(one("x", x)).unwrap();
    assert!(layers[0].flags.ephemeral);
    assert!(!layers[0].flags.hidden);
}

#[test]
fn unknown_flag_goes_to_extra() {
    let mut x = glibc_native();
    x.flags.push(("my_fork_flag".to_string(), true));
    let f = &descriptors_from(one("x", x)).unwrap()[0].flags;
    assert_eq!(f.extra, ["my_fork_flag"]);
    assert!(!f.meta);
}

#[test]
fn every_known_flag_is_typed() {
    let raw = ["meta", "non-fhs", "atomic", "ephemeral", "pinned", "hidden"]
        .iter()
        .map(|k| (k.to_string(), true))
        .collect();
    let f = into_flags(raw);
    assert!(f.meta && f.non_fhs && f.atomic && f.ephemeral && f.pinned && f.hidden);
    assert!(f.extra.is_empty());
    // unknown keys keep their file order; false ones are dropped
    let raw = vec![
        ("b".to_string(), true),
        ("a".to_string(), true),
        ("c".to_string(), false),
        ("non_fhs".to_string(), true),
    ];
    let f = into_flags(raw);
    assert_eq!(f.extra, ["b", "a", "non_fhs"]);
    assert!(!f.non_fhs);
}

#[test]
fn parses_sandbox() {
    let mut x = glibc_native();
    let mut sb = sandbox();
    sb.read = vec!["/usr".to_string(), "/etc".to_string()];
    sb.write = vec!["/home".to_string()];
    sb.seccomp = Some("baseline".to_string());
    x.sandbox = Some(sb);
    let l = &descriptors_from(one("x", x)).unwrap()[0];
    assert_eq!(l.sandbox.read.len(), 2);
    assert_eq!(l.sandbox.write, ["/home"]);
    assert_eq!(l.sandbox.seccomp, Seccomp::Baseline);
}

#[test]
fn no_sandbox_is_empty() {
    let l = &descriptors_from(sample()).unwrap()[0];
    assert!(l.sandbox.is_empty());
}

#[test]
fn parses_keep_caps() {
    let mut x = glibc_native();
    let mut sb = sandbox();
    sb.keep_caps = vec!["net_bind_service".to_string(), "sys_time".to_string()];
    x.sandbox = Some(sb);
    let l = &descriptors_from(one("x", x)).unwrap()[0];
    assert_eq!(l.sandbox.keep_caps.iter().map(|c| c.raw()).collect::<Vec<_>>(), [10, 25]);
    assert!(!l.sandbox.is_empty());
}

#[test]
fn unknown_cap_is_rejected() {
    let mut x = glibc_native();
    let mut sb = sandbox();
    sb.keep_caps = vec!["not_a_cap".to_string()];
    x.sandbox = Some(sb);
    assert!(descriptors_from(one("x", x)).is_err());
}

#[test]
fn sandbox_errors_name_what_is_wrong() {
    let mut sb = sandbox();
    sb.seccomp = Some("strict".to_string());
    sb.keep_caps = vec!["nope".to_string()];
    // seccomp is checked first
    assert_eq!(sb.into_sandbox().unwrap_err().message(), "config: unknown seccomp: strict");
    let mut sb = sandbox();
    sb.keep_caps = vec!["kill".to_string(), "nope".to_string(), "also_nope".to_string()];
    assert_eq!(sb.into_sandbox().unwrap_err().message(), "config: unknown capability: nope");
    let mut sb = sandbox();
    sb.idmap = Some(IdMapTable { outer_start: 1, count: 0 });
    assert_eq!(sb.into_sandbox().unwrap_err().message(), "config: idmap count must be at least 1");
    let mut sb = sandbox();
    sb.seccomp = Some("off".to_string());
    assert_eq!(sb.into_sandbox().unwrap().seccomp, Seccomp::Off);
}

#[test]
fn parses_idmap() {
    let mut x = glibc_native();
    let mut sb = sandbox();
    sb.idmap = Some(IdMapTable { outer_start: 100000, count: 65536 });
    x.sandbox = Some(sb);
    let m = descriptors_from(one("x", x)).unwrap()[0].sandbox.idmap.unwrap();
    assert_eq!(m.outer_start(), 100000);
    assert_eq!(m.count(), 65536);
}

// stub health check; never touches the real filesystem
struct AllHealthy;

impl HealthCheck for AllHealthy {
    fn is_healthy(&self, _l: &LayerDescriptor, _root: &str) -> bool {
        true
    }
}

#[test]
fn selects_lowest_priority() {
    let layers = descriptors_from(sample()).unwrap();
    let picked = DefaultSelector.select(&layers, &AllHealthy, "/store").unwrap();
    assert_eq!(picked.as_str(), "debian");
}

// simulate: only musl and static layers pass this round
struct OnlyStatic;

impl HealthCheck for OnlyStatic {
    fn is_healthy(&self, l: &LayerDescriptor, _root: &str) -> bool {
        l.libc.name != "glibc"
    }
}

#[test]
fn skips_unhealthy() {
    // debian is unhealthy; void and tools remain, void wins on priority
    let layers = descriptors_from(sample()).unwrap();
    let picked = DefaultSelector.select(&layers, &OnlyStatic, "/store").unwrap();
    assert_eq!(picked.as_str(), "void");
}

#[test]
fn default_health_static_is_healthy() {
    let layers = descriptors_from(sample()).unwrap();
    let tools = layers.iter().find(|l| l.id.as_str() == "tools").unwrap();
    // static layer has no loader, so the root is irrelevant
    assert!(DefaultHealthCheck.is_healthy(tools, "/nonexistent"));
}

#[test]
fn parses_resources() {
    let mut svc = glibc_native();
    let mut r = resources();
    r.memory_max = Some(104857600);
    r.pids_max = Some(128);
    r.cpu_weight = Some(200);
    r.cpu_max = Some(CpuMaxTable { quota_us: 50000, period_us: 100000 });
    svc.resources = Some(r);
    let layers = descriptors_from(one("svc", svc)).unwrap();
    let r = &layers[0].resources;
    assert_eq!(r.memory_max, Some(104_857_600));
    assert_eq!(r.pids_max, Some(128));
    assert_eq!(r.cpu_weight, Some(200));
    assert_eq!(r.cpu_max, Some(CpuMax::new(50_000, 100_000).unwrap()));
}

#[test]
fn no_resources_is_empty() {
    let layers = descriptors_from(sample()).unwrap();
    assert!(layers.iter().all(|l| l.resources.is_empty()));
}

#[test]
fn invalid_cpu_max_is_rejected() {
    let mut svc = entry("native", 2, libc("static", None));
    let mut r = resources();
    r.cpu_max = Some(CpuMaxTable { quota_us: 0, period_us: 100000 });
    svc.resources = Some(r);
    assert!(descriptors_from(one("svc", svc)).is_err());
}

#[test]
fn entry_errors_come_in_order() {
    let bad_type = entry("nativ", 1, libc("glibc", None));
    assert_eq!(
        descriptors_from(one("x", bad_type)).unwrap_err().message(),
        "config: unknown layer type: nativ"
    );
    // a bad id is reported after the tables it carries
    let good = glibc_native();
    assert_eq!(
        descriptors_from(one("a/b", good)).unwrap_err().message(),
        "config: layer id contains an invalid character: '/'"
    );
    // the first refused table fails the whole file
    let mut entries = sample();
    entries.insert(1, ("".to_string(), glibc_native()));
    entries.push(("z".to_string(), entry("bogus", 1, libc("glibc", None))));
    assert_eq!(descriptors_from(entries).unwrap_err().message(), "config: layer id is empty");
    assert!(descriptors_from(Vec::new()).unwrap().is_empty());
}

fn file(backend: Option<&str>, idle: Option<u64>, cgroup_root: Option<&str>) -> SystemFile {
    SystemFile {
        backend: backend.map(str::to_string),
        idle_evict_secs: idle,
        cgroup_root: cgroup_root.map(str::to_string),
    }
}

#[test]
fn defaults_when_empty() {
    let s = system_from(file(None, None, None)).unwrap();
    assert_eq!(s, System::default());
    assert_eq!(s.backend, "overlay");
    assert_eq!(s.idle_evict_secs, 900);
}

#[test]
fn reads_overrides() {
    let s = system_from(file(Some("erofs"), Some(60), None)).unwrap();
    assert_eq!(s.backend, "erofs");
    assert_eq!(s.idle_evict_secs, 60);
}

#[test]
fn rejects_unknown_backend() {
    let err = system_from(file(Some("compsefs"), None, None)).unwrap_err();
    assert!(err.message().contains("unknown backend"), "got: {}", err.message());
    match err {
        Error::Config(m) => assert_eq!(m, "unknown backend \"compsefs\"; expected \"overlay\" or \"erofs\""),
        _ => panic!("a bad backend is a config error"),
    }
    let err = system_from(file(Some("a\"b\\c\n"), None, None)).unwrap_err();
    assert_eq!(
        err.message(),
        "config: unknown backend \"a\\\"b\\\\c\\n\"; expected \"overlay\" or \"erofs\""
    );
}

#[test]
fn zero_evict_disables() {
    let s = system_from(file(None, Some(0), None)).unwrap();
    assert_eq!(s.idle_evict_secs, 0);
}

#[test]
fn cgroup_root_defaults_to_system_subtree() {
    let s = system_from(file(None, None, None)).unwrap();
    assert_eq!(s.cgroup_root, "/sys/fs/cgroup/nexus");
}

#[test]
fn cgroup_root_override_is_read() {
    let s = system_from(file(None, None, Some("/tmp/spark/cgroup"))).unwrap();
    assert_eq!(s.cgroup_root, "/tmp/spark/cgroup");
}
