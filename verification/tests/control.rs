use nexus::engine::{build_reply, Core, Step, Warm};
use nexus::state::System;
use nexus::{
    Error, LayerDescriptor, LayerFlags, LayerId, LayerType, Layout, Libc, Limits, Mounts,
    Reply, Request, Sandbox, Shutdown,
};

#[test]
fn request_roundtrip() {
    for r in [
        Request::Build("void".to_string()),
        Request::Evict("void".to_string()),
        Request::List,
        Request::Status,
    ] {
        assert_eq!(Request::parse(&r.encode()).unwrap(), r);
    }
}

#[test]
fn missing_arg_errors() {
    assert!(Request::parse("build").is_err());
    assert!(Request::parse("bogus x").is_err());
}

#[test]
fn reply_terminates_blank() {
    assert!(Reply::Okay.encode().ends_with("\n\n"));
}

#[test]
fn parse_errors_name_the_problem() {
    assert_eq!(Request::parse("build").unwrap_err().message(), "config: build: missing layer");
    assert_eq!(Request::parse("evict").unwrap_err().message(), "config: evict: missing layer");
    assert_eq!(Request::parse("bogus x").unwrap_err().message(), "config: unknown verb: bogus");
    assert_eq!(Request::parse("").unwrap_err().message(), "config: unknown verb: ");
    // extra words after the argument are ignored, whitespace is free
    assert_eq!(Request::parse("  build   void extra\n").unwrap(), Request::Build("void".to_string()));
    assert_eq!(Request::parse("list now").unwrap(), Request::List);
}

#[test]
fn replies_have_their_wire_form() {
    assert_eq!(Reply::Okay.encode(), "ok\n\n");
    assert_eq!(Reply::Failed("boom".to_string()).encode(), "err boom\n\n");
    assert_eq!(
        Reply::Lines(vec!["a".to_string(), "b".to_string()]).encode(),
        "a\nb\n\n"
    );
    assert_eq!(Reply::Lines(Vec::new()).encode(), "\n\n");
}

#[test]
fn shutdown_flag_round_trips() {
    let s = Shutdown::new();
    assert!(!s.is_triggered());
    s.trigger();
    assert!(s.is_triggered());
    // a clone shares the flag
    assert!(s.clone().is_triggered());
}

fn desc(id: &str) -> LayerDescriptor {
    LayerDescriptor {
        id: LayerId::new(id).unwrap(),
        layer_type: LayerType::Native,
        priority: 1,
        libc: Libc { name: "static".to_string(), loader: None },
        flags: LayerFlags::default(),
        sandbox: Sandbox::default(),
        resources: Limits::default(),
    }
}

fn core_with(ids: &[&str], idle: u64) -> Core {
    let system = System { idle_evict_secs: idle, ..System::default() };
    Core::open(Layout::new("/rust"), ids.iter().map(|i| desc(i)).collect(), system)
}

fn answer(step: Step) -> Reply {
    match step {
        Step::Answer(r) => r,
        _ => panic!("expected an answer"),
    }
}

#[test]
fn status_and_list_of_an_empty_core() {
    let mut core = core_with(&["void"], 900);
    assert_eq!(answer(core.dispatch_line("status", 0)), Reply::Lines(vec!["built 0".to_string()]));
    assert_eq!(answer(core.dispatch_line("list", 0)), Reply::Lines(Vec::new()));
    assert_eq!(
        answer(core.dispatch_line("frobnicate", 0)),
        Reply::Failed("config: unknown verb: frobnicate".to_string())
    );
}

#[test]
fn build_of_an_unknown_layer_fails() {
    let mut core = core_with(&["void"], 900);
    assert_eq!(
        answer(core.dispatch_line("build debian", 0)),
        Reply::Failed("unknown layer: debian".to_string())
    );
    // an id that cannot be valid names no layer either
    assert_eq!(
        answer(core.dispatch_line("build a/b", 0)),
        Reply::Failed("unknown layer: a/b".to_string())
    );
    assert!(matches!(core.begin_build("..", 0), Err(Error::UnknownLayer(_))));
}

#[test]
fn build_then_list_then_evict() {
    let mut core = core_with(&["void", "debian"], 900);
    let d = match core.dispatch_line("build void", 1) {
        Step::Build(d) => d,
        _ => panic!("an unbuilt layer needs its namespace built"),
    };
    assert_eq!(d.id.as_str(), "void");
    let layer = core.finish_build(d, Mounts::new(), 1);
    // the recorded layer's namespace file is the layout's for its id
    assert_eq!(layer.ns_path, "/rust/run/ns/void/mnt");
    assert_eq!(layer.desc.id.as_str(), "void");
    assert_eq!(core.built_count(), 1);
    // a built layer is ready at once
    assert_eq!(answer(core.dispatch_line("build void", 2)), Reply::Okay);
    assert_eq!(answer(core.dispatch_line("list", 2)), Reply::Lines(vec!["void".to_string()]));
    assert_eq!(answer(core.dispatch_line("status", 2)), Reply::Lines(vec!["built 1".to_string()]));
    match core.dispatch_line("evict void", 3) {
        Step::Evict { entry, scope } => {
            assert_eq!(scope, "void");
            let e = entry.expect("void was built");
            assert_eq!(e.layer.ns_path, "/rust/run/ns/void/mnt");
        }
        _ => panic!("evict hands the entry back"),
    }
    assert_eq!(core.built_count(), 0);
    // evicting what is not built still drops the scope
    match core.dispatch_line("evict debian", 3) {
        Step::Evict { entry, scope } => {
            assert!(entry.is_none());
            assert_eq!(scope, "debian");
        }
        _ => panic!("a valid id is evicted"),
    }
    // an invalid id was never built: a no-op answered ok
    assert_eq!(answer(core.dispatch_line("evict ..", 3)), Reply::Okay);
}

#[test]
fn build_reply_renders_the_outcome() {
    assert_eq!(build_reply(&Ok(())), Reply::Okay);
    assert_eq!(
        build_reply(&Err(Error::Init("ns build thread died before pinning".to_string()))),
        Reply::Failed("init: ns build thread died before pinning".to_string())
    );
}

fn built(core: &mut Core, id: &str, now: u64) {
    let d = match core.begin_build(id, now).unwrap() {
        Warm::Build(d) => d,
        Warm::Ready(_) => panic!("not built yet"),
    };
    let layer = core.finish_build(d, Mounts::new(), now);
    assert_eq!(layer.ns_path, format!("/rust/run/ns/{id}/mnt"));
}

#[test]
fn zero_idle_limit_never_evicts() {
    let mut core = core_with(&["void", "debian"], 0);
    built(&mut core, "void", 0);
    built(&mut core, "debian", 0);
    assert!(core.evict_idle(u64::MAX).is_empty());
    assert_eq!(core.built_count(), 2);
}

#[test]
fn idle_layers_are_evicted_and_used_ones_stay() {
    let mut core = core_with(&["void", "debian"], 60);
    built(&mut core, "void", 0);
    built(&mut core, "debian", 50);
    // void idles 60s at 60: stale; debian was used at 50: kept
    let stale = core.evict_idle(60);
    assert_eq!(stale.len(), 1);
    assert_eq!(stale[0].layer.desc.id.as_str(), "void");
    assert_eq!(core.built_layers(), ["debian"]);
    // using a layer resets its idle clock
    match core.begin_build("debian", 100).unwrap() {
        Warm::Ready(l) => assert_eq!(l.ns_path, "/rust/run/ns/debian/mnt"),
        Warm::Build(_) => panic!("debian is built"),
    }
    assert!(core.evict_idle(159).is_empty());
    assert_eq!(core.evict_idle(160).len(), 1);
}
