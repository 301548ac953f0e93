use nexus::sys::ancestry::{ancestor_verdict, symlink_probe_points, AncestorStat};
use nexus::api::sandbox::Cap;
use nexus::sys::caps::{bounding_drops, cap_last_cap, keep_mask};
use nexus::sys::cgroup::{cpu_max_line, enable_line, filter, read_controllers};
use nexus::sys::probe::{libc_wexitstatus, libc_wifexited, probe_verdict, Features};
use nexus::sys::proc::{fork_safe, threads_in_stat};
use nexus::sys::sandbox::{
    baseline_program, deny_list, deny_table, program_from, sandbox_plan, FilterStage, SandboxStep,
    SeccompArch,
};
use nexus::sys::userns::{idmap_line, proc_file};
use nexus::{Cgroups, CpuMax, Error, IdMap, Limits, Sandbox, Seccomp};

fn names(v: &[&str]) -> Vec<String> {
    v.iter().map(|s| s.to_string()).collect()
}

#[test]
fn prepare_enables_available_controllers_only() {
    let avail = read_controllers("cpu memory pids\n");
    // io is not available here, so it is dropped
    let usable = filter(&names(&["memory", "pids", "io"]), &avail);
    assert_eq!(usable, vec!["memory", "pids"]);
    let sc = enable_line(&usable).unwrap();
    assert!(sc.contains("+memory"));
    assert!(sc.contains("+pids"));
    assert!(!sc.contains("+io"));
    assert_eq!(sc, "+memory +pids");
}

#[test]
fn nothing_to_enable_writes_nothing() {
    assert!(enable_line(&[]).is_none());
    assert!(filter(&names(&["io"]), &read_controllers("cpu")).is_empty());
    assert!(read_controllers("").is_empty());
    assert!(read_controllers(" \n\t").is_empty());
}

#[test]
fn scope_paths_live_under_the_subtree() {
    let cg = Cgroups::new("/sys/fs/cgroup/nexus");
    assert_eq!(cg.root(), "/sys/fs/cgroup/nexus");
    assert_eq!(cg.scope_path("void"), "/sys/fs/cgroup/nexus/void");
    assert_eq!(Cgroups::system().root(), "/sys/fs/cgroup/nexus");
}

#[test]
fn apply_writes_each_present_limit() {
    let cg = Cgroups::new("/cg");
    let lim = Limits {
        memory_max: Some(1024),
        pids_max: Some(16),
        cpu_weight: Some(200),
        cpu_max: Some(CpuMax::new(50_000, 100_000).unwrap()),
    };
    let w = cg.limit_writes("void", &lim);
    assert_eq!(
        w,
        [
            ("/cg/void/memory.max".to_string(), "1024".to_string()),
            ("/cg/void/pids.max".to_string(), "16".to_string()),
            ("/cg/void/cpu.weight".to_string(), "200".to_string()),
            ("/cg/void/cpu.max".to_string(), "50000 100000".to_string()),
        ]
    );
    // an absent limit writes nothing
    assert!(cg.limit_writes("void", &Limits::default()).is_empty());
    let only_pids = Limits { pids_max: Some(3), ..Default::default() };
    assert_eq!(
        cg.limit_writes("void", &only_pids),
        [("/cg/void/pids.max".to_string(), "3".to_string())]
    );
}

#[test]
fn cpu_weight_is_clamped() {
    let cg = Cgroups::new("/cg");
    let hi = Limits { cpu_weight: Some(50_000), ..Default::default() };
    assert_eq!(cg.limit_writes("s", &hi)[0].1, "10000");
    let lo = Limits { cpu_weight: Some(0), ..Default::default() };
    assert_eq!(cg.limit_writes("s", &lo)[0].1, "1");
    assert_eq!(cpu_max_line(&CpuMax::new(1, 2).unwrap()), "1 2");
}

fn caps(v: &[&str]) -> Vec<Cap> {
    v.iter().map(|n| Cap::from_name(n).unwrap()).collect()
}

#[test]
fn keep_mask_holds_exactly_the_kept() {
    assert_eq!(keep_mask(&[]), 0);
    assert_eq!(keep_mask(&caps(&["chown", "net_bind_service"])), (1 << 0) | (1 << 10));
    assert_eq!(keep_mask(&caps(&["kill", "kill"])), 1 << 5);
}

#[test]
fn bounding_set_drops_every_cap_not_kept() {
    let all: Vec<u8> = (0..=40).collect();
    assert_eq!(bounding_drops(&[], 40), all);
    let kept = caps(&["chown", "net_bind_service", "checkpoint_restore"]);
    let want: Vec<u8> = (0..=40).filter(|n| *n != 0 && *n != 10 && *n != 40).collect();
    assert_eq!(bounding_drops(&kept, 40), want);
    assert_eq!(bounding_drops(&caps(&["chown"]), 0), Vec::<u8>::new());
}

#[test]
fn cap_last_is_read_and_clamped() {
    assert_eq!(cap_last_cap(Some("40\n")), 40);
    assert_eq!(cap_last_cap(Some(" 41 ")), 41);
    assert_eq!(cap_last_cap(Some("200")), 63);
    assert_eq!(cap_last_cap(Some("300")), 40);
    assert_eq!(cap_last_cap(Some("junk")), 40);
    assert_eq!(cap_last_cap(None), 40);
}

#[test]
fn required_features_fail_with_the_kernel_floor() {
    let none = Features { mount_api: false, idmapped: false, cgroup2: false };
    match none.require_mount_api() {
        Err(Error::Init(m)) => assert_eq!(m, "kernel lacks the mount api (need linux 5.2+)"),
        _ => panic!("a missing mount api is fatal"),
    }
    match none.require_idmapped() {
        Err(Error::Init(m)) => assert_eq!(m, "kernel lacks idmapped mounts (need linux 5.12+)"),
        _ => panic!("a missing idmap is refused"),
    }
    assert!(!none.cgroup_usable());
    let all = Features { mount_api: true, idmapped: true, cgroup2: true };
    assert!(all.require_mount_api().is_ok() && all.require_idmapped().is_ok());
    assert!(all.cgroup_usable());
}

#[test]
fn probe_child_status_is_decoded() {
    // exit(0), exit(1), killed by SIGKILL, core-dumped SIGSEGV
    assert!(libc_wifexited(0) && libc_wexitstatus(0) == 0);
    assert!(libc_wifexited(1 << 8) && libc_wexitstatus(1 << 8) == 1);
    assert!(!libc_wifexited(9));
    assert!(probe_verdict(0));
    assert!(!probe_verdict(1 << 8));
    assert!(!probe_verdict(9));
    assert!(!probe_verdict(0x8b));
}

#[test]
fn deny_table_covers_both_arches() {
    // each row carries a number for both arches, so the two never drift
    for (name, x, a) in deny_table() {
        assert!(x > 0, "x86_64 number missing for {name}");
        assert!(a > 0, "aarch64 number missing for {name}");
    }
}

#[test]
fn deny_list_is_nonempty_on_supported_arch() {
    for arch in [SeccompArch::X86_64, SeccompArch::Aarch64] {
        let list = deny_list(arch);
        assert!(!list.is_empty(), "baseline deny list is empty");
        // every row maps to a distinct number on this arch
        let mut sorted = list.clone();
        sorted.sort_unstable();
        sorted.dedup();
        assert_eq!(sorted.len(), list.len(), "duplicate syscall numbers in deny list");
    }
    assert_eq!(deny_list(SeccompArch::X86_64), [165, 166, 246, 175, 313, 176]);
    assert_eq!(deny_list(SeccompArch::Aarch64), [40, 39, 104, 105, 273, 106]);
}

#[test]
fn confinement_order_is_fixed() {
    assert_eq!(sandbox_plan(&Sandbox::default()), [SandboxStep::NoNewPrivs, SandboxStep::DropCaps]);
    let sb = Sandbox {
        read: vec!["/usr".to_string()],
        seccomp: Seccomp::Baseline,
        ..Default::default()
    };
    assert_eq!(
        sandbox_plan(&sb),
        [
            SandboxStep::NoNewPrivs,
            SandboxStep::Landlock,
            SandboxStep::DropCaps,
            SandboxStep::SeccompBaseline,
        ]
    );
}

#[test]
fn counts_at_least_the_current_thread() {
    let stat = "1234 (my (odd) comm) S 1 1234 1234 0 -1 4194560 100 0 0 0 1 2 0 0 20 0 3 0 \
                555 1000 10 18446744073709551615";
    assert_eq!(threads_in_stat(stat), Some(3));
    assert!(threads_in_stat("1234 no paren").is_none());
    assert!(threads_in_stat("1 (x) S 1").is_none());
    assert!(fork_safe(Some(1)) && fork_safe(None) && !fork_safe(Some(2)));
}

#[test]
fn userns_maps_start_at_zero_inside() {
    let m = IdMap::new(100_000, 65_536).unwrap();
    assert_eq!(idmap_line(&m), "0 100000 65536\n");
    assert_eq!(proc_file(42, "uid_map"), "/proc/42/uid_map");
    assert_eq!(proc_file(-1, "setgroups"), "/proc/-1/setgroups");
}

#[test]
fn baseline_program_checks_the_arch_then_refuses_the_deny_list() {
    let x86 = baseline_program(SeccompArch::X86_64).unwrap();
    // load the arch word, kill on a foreign arch
    assert_eq!(x86[0], (0x20, 0, 0, 4));
    assert_eq!(x86[1], (0x15, 1, 0, 0xC000_003E));
    // every denied number is compared against, and a match fails with errno 1
    for nr in deny_list(SeccompArch::X86_64) {
        assert!(x86.iter().any(|i| i.0 == 0x15 && i.3 == nr as u32));
    }
    assert!(x86.iter().any(|i| i.0 == 0x06 && i.3 == 0x0005_0001));
    // anything else is allowed
    assert_eq!(*x86.last().unwrap(), (0x06, 0, 0, 0x7fff_0000));
    let arm = baseline_program(SeccompArch::Aarch64).unwrap();
    assert_eq!(arm[1], (0x15, 1, 0, 0xC000_00B7));
    assert_ne!(x86, arm);
}

#[test]
fn filter_failures_name_their_step() {
    match program_from(Err((FilterStage::Compile, "too large".to_string()))) {
        Err(Error::Io(m)) => assert_eq!(m, "seccomp compile: too large"),
        other => panic!("expected an io error, got {other:?}"),
    }
    match program_from(Err((FilterStage::Build, "equal actions".to_string()))) {
        Err(Error::Io(m)) => assert_eq!(m, "seccomp build: equal actions"),
        other => panic!("expected an io error, got {other:?}"),
    }
    assert_eq!(program_from(Ok(vec![(6, 0, 0, 0)])).unwrap(), vec![(6, 0, 0, 0)]);
}

#[test]
fn symlink_check_stats_the_ancestors_below_the_root() {
    assert_eq!(
        symlink_probe_points("/state/overlay/void/upper", "/state"),
        ["/state/overlay/void", "/state/overlay"]
    );
    // the root is matched by components, not by spelling
    assert_eq!(symlink_probe_points("/state/overlay/x", "/state/"), ["/state/overlay"]);
    // a path outside the root is walked to the top
    assert_eq!(symlink_probe_points("/a/b", "/x"), ["/a", "/"]);
    // nothing between a path and its own parent
    assert!(symlink_probe_points("/state/x", "/state").is_empty());
}

#[test]
fn symlink_ancestor_verdicts() {
    assert!(ancestor_verdict("/s/a/b", "/s/a", &AncestorStat::Present).is_ok());
    assert!(ancestor_verdict("/s/a/b", "/s/a", &AncestorStat::Missing).is_ok());
    match ancestor_verdict("/s/a/b", "/s/a", &AncestorStat::Symlink) {
        Err(Error::Io(m)) => {
            assert_eq!(m, "refusing to use \"/s/a/b\": ancestor \"/s/a\" is a symlink")
        }
        other => panic!("a symlinked ancestor is refused, got {other:?}"),
    }
    match ancestor_verdict("/s/a/b", "/s/a", &AncestorStat::Failed("Permission denied".into())) {
        Err(Error::Io(m)) => assert_eq!(m, "stat \"/s/a\": Permission denied"),
        other => panic!("a failed stat is reported, got {other:?}"),
    }
}
