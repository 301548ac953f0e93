use nexus::init::early::{early_plan, require_init, rollback, switch_moves, MountAction};
use nexus::init::select::select_from;
use nexus::{
    DefaultHealthCheck, DefaultSelector, Error, HealthCheck, LayerDescriptor, LayerFlags, LayerId,
    LayerSelector, LayerType, Layout, Libc, Limits, Result, Sandbox,
};

fn health_desc(loader: Option<&str>) -> LayerDescriptor {
    LayerDescriptor {
        id: LayerId::new("void").unwrap(),
        layer_type: LayerType::Native,
        priority: 1,
        libc: Libc { name: "test".to_string(), loader: loader.map(str::to_string) },
        flags: LayerFlags::default(),
        sandbox: Sandbox::default(),
        resources: Limits::default(),
    }
}

#[test]
fn static_layer_is_always_healthy() {
    // no loader: healthy even against a root that does not exist
    assert!(DefaultHealthCheck.is_healthy(&health_desc(None), "/nonexistent/root"));
}

#[test]
fn loader_missing_from_layer_is_unhealthy() {
    // a layer tree that holds nothing: the loader is not there
    let root = "/nonexistent/health-missing";
    assert!(!DefaultHealthCheck.is_healthy(&health_desc(Some("/lib/ld.so")), root));
}

#[test]
fn loader_resolves_inside_layer_not_host() {
    // /bin/sh exists on the caller but not in this empty layer root: the
    // check must fail, proving resolution is relative to root, never outside
    let root = "/nonexistent/health-host";
    assert!(!DefaultHealthCheck.is_healthy(&health_desc(Some("/bin/sh")), root));
}

#[test]
fn probe_path_is_the_loader_under_the_root() {
    let d = health_desc(Some("/lib/ld.so"));
    assert_eq!(DefaultHealthCheck.probe_path(&d, "/store/void").unwrap(), "/store/void/lib/ld.so");
    let d = health_desc(Some("lib/ld.so"));
    assert_eq!(DefaultHealthCheck.probe_path(&d, "/store/void").unwrap(), "/store/void/lib/ld.so");
    assert!(DefaultHealthCheck.probe_path(&health_desc(None), "/store/void").is_none());
}

#[test]
fn probe_path_strips_every_leading_slash() {
    let d = health_desc(Some("//bin/sh"));
    assert_eq!(DefaultHealthCheck.probe_path(&d, "/store/void").unwrap(), "/store/void/bin/sh");
    let d = health_desc(Some("///lib/ld.so"));
    assert_eq!(DefaultHealthCheck.probe_path(&d, "/store/void").unwrap(), "/store/void/lib/ld.so");
    let root = "/nonexistent/health-host";
    assert!(!DefaultHealthCheck.is_healthy(&health_desc(Some("//bin/sh")), root));
}

// a health check answering from a fixed set of healthy ids, so selection
// is tested without touching the filesystem
struct Healthy(&'static [&'static str]);

impl HealthCheck for Healthy {
    fn is_healthy(&self, layer: &LayerDescriptor, _root: &str) -> bool {
        self.0.contains(&layer.id.as_str())
    }
}

fn desc(id: &str, priority: u32) -> LayerDescriptor {
    LayerDescriptor {
        id: LayerId::new(id).unwrap(),
        layer_type: LayerType::Native,
        priority,
        libc: Libc { name: "static".to_string(), loader: None },
        flags: LayerFlags::default(),
        sandbox: Sandbox::default(),
        resources: Limits::default(),
    }
}

fn rescue(id: &str, priority: u32) -> LayerDescriptor {
    LayerDescriptor { layer_type: LayerType::Rescue, ..desc(id, priority) }
}

fn pick(candidates: &[LayerDescriptor], healthy: &'static [&'static str]) -> Result<LayerId> {
    DefaultSelector.select(candidates, &Healthy(healthy), "/store")
}

#[test]
fn picks_lowest_priority_healthy() {
    let layers = [desc("a", 3), desc("b", 1), desc("c", 2)];
    assert_eq!(pick(&layers, &["a", "b", "c"]).unwrap().as_str(), "b");
}

#[test]
fn skips_unhealthy_for_next_lowest() {
    // b is lowest but unhealthy, so the healthy c at priority 2 wins
    let layers = [desc("a", 3), desc("b", 1), desc("c", 2)];
    assert_eq!(pick(&layers, &["a", "c"]).unwrap().as_str(), "c");
}

#[test]
fn no_healthy_layer_is_an_error() {
    let layers = [desc("a", 1), desc("b", 2)];
    assert!(matches!(pick(&layers, &[]), Err(Error::NoHealthyLayer)));
}

#[test]
fn empty_candidates_is_an_error() {
    assert!(matches!(pick(&[], &["a"]), Err(Error::NoHealthyLayer)));
}

#[test]
fn rescue_is_last_resort_when_native_is_unhealthy() {
    // rescue has priority 9, native has 5 but is unhealthy; rescue wins
    let layers = [desc("n", 5), rescue("r", 9)];
    assert_eq!(pick(&layers, &["r"]).unwrap().as_str(), "r");
}

#[test]
fn native_beats_rescue_when_both_are_healthy() {
    // rescue priority 1 vs native priority 99: native still wins
    let layers = [rescue("r", 1), desc("n", 99)];
    assert_eq!(pick(&layers, &["r", "n"]).unwrap().as_str(), "n");
}

// a health check that answers yes only when it is handed the layer's own
// tree under the store root
struct OwnTree;

impl HealthCheck for OwnTree {
    fn is_healthy(&self, layer: &LayerDescriptor, root: &str) -> bool {
        root == format!("/store/{}", layer.id.as_str())
    }
}

#[test]
fn each_candidate_is_checked_in_its_own_tree() {
    let layers = [desc("a", 3), desc("b", 1)];
    assert_eq!(DefaultSelector.select(&layers, &OwnTree, "/store").unwrap().as_str(), "b");
    assert_eq!(DefaultSelector.select(&layers, &OwnTree, "/store/").unwrap().as_str(), "b");
}

#[test]
fn ties_go_to_the_first_listed() {
    let layers = [desc("x", 2), desc("y", 2)];
    assert_eq!(select_from(&layers, &[true, true]).unwrap().as_str(), "x");
    assert_eq!(select_from(&layers, &[false, true]).unwrap().as_str(), "y");
}

fn pseudo() -> Vec<(String, String)> {
    vec![("proc".to_string(), "/proc".to_string()), ("sysfs".to_string(), "/sys".to_string())]
}

fn describe(a: &MountAction) -> String {
    match a {
        MountAction::MakeDir(d) => format!("mkdir {d}"),
        MountAction::Mount { fstype, target } => format!("mount {fstype} {target}"),
    }
}

#[test]
fn early_plan_mounts_pseudo_then_runtime() {
    let plan = early_plan(&Layout::new("/rust"), &pseudo());
    let steps: Vec<String> = plan.iter().map(describe).collect();
    assert_eq!(
        steps,
        [
            "mount proc /proc",
            "mount sysfs /sys",
            "mkdir /rust/run",
            "mount tmpfs /rust/run",
            "mkdir /rust/run/ns",
        ]
    );
}

#[test]
fn failed_boot_window_unmounts_what_succeeded() {
    let plan = early_plan(&Layout::new("/rust"), &pseudo());
    // the first pseudo mount fails: nothing to undo
    assert!(rollback(&plan, 0).is_empty());
    // sysfs fails: proc goes
    assert_eq!(rollback(&plan, 1), ["/proc"]);
    // the runtime directory or its tmpfs fails: every pseudo mount goes,
    // newest first
    assert_eq!(rollback(&plan, 2), ["/sys", "/proc"]);
    assert_eq!(rollback(&plan, 3), ["/sys", "/proc"]);
    // the pin directory fails: the runtime tmpfs goes too, first
    assert_eq!(rollback(&plan, 4), ["/rust/run", "/sys", "/proc"]);
}

#[test]
fn switch_carries_pseudo_and_runtime_into_the_new_root() {
    let moves = switch_moves("/newroot", &pseudo());
    assert_eq!(
        moves,
        [
            ("/proc".to_string(), "/newroot/proc".to_string()),
            ("/sys".to_string(), "/newroot/sys".to_string()),
            ("/run".to_string(), "/newroot/run".to_string()),
        ]
    );
    // every leading slash is dropped before joining
    let moves = switch_moves("/n", &[("devtmpfs".to_string(), "//dev".to_string())]);
    assert_eq!(moves[0], ("//dev".to_string(), "/n/dev".to_string()));
}

#[test]
fn empty_init_rejected_before_entering() {
    let err = require_init("").unwrap_err();
    assert!(err.message().contains("native init path is empty"), "got: {}", err.message());
    assert!(require_init("/sbin/init").is_ok());
}
