use nexus::api::sandbox::{Cap, IdMap};
use nexus::{CpuMax, Error, Gen, LayerFlags, LayerId, Limits, Mounts, ObjectHash, Sandbox, Seccomp};

#[test]
fn string_errors_have_no_source() {
    assert!(!Error::Config("boom".to_string()).has_source());
    assert!(!Error::NoHealthyLayer.has_source());
    assert!(!Error::Corrupt { hash: "x".to_string() }.has_source());
}

#[test]
fn sys_errors_carry_their_errno_as_source() {
    let e = Error::sys("open", 2);
    assert!(e.has_source());
    assert_eq!(e.message(), "open failed: errno 2");
}

#[test]
fn messages_name_their_variant() {
    assert_eq!(Error::sys("mount", -1).message(), "mount failed: errno -1");
    assert_eq!(Error::UnknownLayer("void".to_string()).message(), "unknown layer: void");
    assert_eq!(Error::NoHealthyLayer.message(), "no healthy layer to select");
    assert_eq!(Error::Corrupt { hash: "ab".to_string() }.message(), "corrupt object: ab");
    assert_eq!(Error::Config("x".to_string()).message(), "config: x");
    assert_eq!(Error::Io("y".to_string()).message(), "io: y");
    assert_eq!(Error::Init("z".to_string()).message(), "init: z");
    assert_eq!(Error::Libc("w".to_string()).message(), "libc: w");
}

#[test]
fn valid_ids_accepted() {
    for id in ["void", "debian-12", "my.layer", "a_b", "x"] {
        assert!(LayerId::new(id).is_ok(), "{id} should be valid");
    }
}

#[test]
fn empty_id_rejected() {
    assert!(LayerId::new("").is_err());
}

#[test]
fn path_traversal_ids_rejected() {
    // a slash would escape the store dir; "." / ".." are path specials
    for id in ["a/b", "/abs", ".", "..", "foo/", "with\0nul"] {
        assert!(LayerId::new(id).is_err(), "{id:?} should be rejected");
    }
}

#[test]
fn roundtrips_through_str() {
    let id = LayerId::new("void").unwrap();
    assert_eq!(id.as_str(), "void");
    assert_eq!(id.to_string(), "void");
    assert_eq!("void".parse::<LayerId>().unwrap(), id);
}

#[test]
fn id_errors_say_what_is_wrong() {
    assert_eq!(LayerId::new("").unwrap_err(), "layer id is empty");
    assert_eq!(LayerId::new(".").unwrap_err(), "layer id is a reserved name: \".\"");
    assert_eq!(LayerId::new("..").unwrap_err(), "layer id is a reserved name: \"..\"");
    assert_eq!(LayerId::new("a/b").unwrap_err(), "layer id contains an invalid character: '/'");
    assert_eq!(LayerId::new("a\0b").unwrap_err(), "layer id contains an invalid character: '\\0'");
    // the first offending character decides
    assert_eq!(LayerId::new("a\0/b").unwrap_err(), "layer id contains an invalid character: '\\0'");
}

#[test]
fn teardown_reverses_creation_order() {
    let mut m = Mounts::new();
    m.record("/lower");
    m.record("/stage");
    let order = m.teardown_order();
    assert_eq!(order, ["/stage", "/lower"]);
}

#[test]
fn record_then_teardown_puts_the_newest_first() {
    let mut m = Mounts::new();
    m.record("/a");
    m.record("/b");
    m.record("/c");
    assert_eq!(m.teardown_order(), ["/c", "/b", "/a"]);
    assert!(Mounts::new().teardown_order().is_empty());
}

#[test]
fn empty_by_default() {
    assert!(Limits::default().is_empty());
}

#[test]
fn any_field_makes_it_non_empty() {
    let l = Limits { pids_max: Some(64), ..Default::default() };
    assert!(!l.is_empty());
}

#[test]
fn cpumax_rejects_zero() {
    assert!(CpuMax::new(0, 100_000).is_err());
    assert!(CpuMax::new(50_000, 0).is_err());
    assert!(CpuMax::new(50_000, 100_000).is_ok());
}

#[test]
fn cpumax_errors_and_fields() {
    assert_eq!(CpuMax::new(1, 0).unwrap_err(), "cpu.max period must be at least 1us");
    assert_eq!(
        CpuMax::new(0, 1).unwrap_err(),
        "cpu.max quota must be at least 1us (use none for unlimited)"
    );
    let c = CpuMax::new(50_000, 100_000).unwrap();
    assert_eq!((c.quota_us(), c.period_us()), (50_000, 100_000));
}

#[test]
fn idmap_rejects_empty_and_overflowing_ranges() {
    assert_eq!(IdMap::new(100_000, 0).unwrap_err(), "idmap count must be at least 1");
    assert_eq!(
        IdMap::new(u32::MAX, 1).unwrap_err(),
        "idmap range 4294967295+1 overflows the id space"
    );
    let m = IdMap::new(100_000, 65_536).unwrap();
    assert_eq!((m.outer_start(), m.count()), (100_000, 65_536));
    // the range may end exactly at the top of the id space
    assert!(IdMap::new(u32::MAX - 1, 1).is_ok());
}

#[test]
fn capability_names_are_canonical() {
    assert_eq!(Cap::from_name("chown").unwrap().raw(), 0);
    assert_eq!(Cap::from_name("net_bind_service").unwrap().raw(), 10);
    assert_eq!(Cap::from_name("sys_time").unwrap().raw(), 25);
    assert_eq!(Cap::from_name("checkpoint_restore").unwrap().raw(), 40);
    assert!(Cap::from_name("CAP_CHOWN").is_none());
    assert!(Cap::from_name("not_a_cap").is_none());
    assert!(Cap::from_name("").is_none());
}

#[test]
fn empty_sandbox_is_unconfined() {
    assert!(Sandbox::default().is_empty());
    let s = Sandbox { seccomp: Seccomp::Baseline, ..Default::default() };
    assert!(!s.is_empty());
    let s = Sandbox { keep_caps: vec![Cap::from_name("kill").unwrap()], ..Default::default() };
    assert!(!s.is_empty());
}

#[test]
fn upper_modes_follow_the_flags() {
    let none = LayerFlags::default();
    assert!(!none.ephemeral_upper() && !none.no_persistent_upper());
    let eph = LayerFlags { ephemeral: true, ..Default::default() };
    assert!(eph.ephemeral_upper() && eph.no_persistent_upper());
    let atomic = LayerFlags { atomic: true, ephemeral: true, ..Default::default() };
    assert!(!atomic.ephemeral_upper() && atomic.no_persistent_upper());
}

#[test]
fn hashes_and_gens_render_as_written() {
    let h = ObjectHash::new("abc123");
    assert_eq!(h.as_str(), "abc123");
    assert_eq!(h.to_string(), "abc123");
    assert_eq!(Gen::new(42).get(), 42);
    assert_eq!(Gen::new(42).to_string(), "42");
    assert_eq!(Gen::new(0).to_string(), "0");
}

#[test]
fn every_capability_number_has_its_own_name() {
    let names = [
        "chown",
        "dac_override",
        "dac_read_search",
        "fowner",
        "fsetid",
        "kill",
        "setgid",
        "setuid",
        "setpcap",
        "linux_immutable",
        "net_bind_service",
        "net_broadcast",
        "net_admin",
        "net_raw",
        "ipc_lock",
        "ipc_owner",
        "sys_module",
        "sys_rawio",
        "sys_chroot",
        "sys_ptrace",
        "sys_pacct",
        "sys_admin",
        "sys_boot",
        "sys_nice",
        "sys_resource",
        "sys_time",
        "sys_tty_config",
        "mknod",
        "lease",
        "audit_write",
        "audit_control",
        "setfcap",
        "mac_override",
        "mac_admin",
        "syslog",
        "wake_alarm",
        "block_suspend",
        "audit_read",
        "perfmon",
        "bpf",
        "checkpoint_restore",
    ];
    for (n, name) in names.iter().enumerate() {
        assert_eq!(Cap::from_name(name).unwrap().raw() as usize, n);
    }
    for (a, x) in names.iter().enumerate() {
        for y in &names[a + 1..] {
            assert_ne!(x, y);
        }
    }
}
