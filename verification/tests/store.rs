use nexus::store::cas::{check_object, sort_entries, tree_hash, verify_tally, Entry};
use nexus::store::Digest;
use nexus::store::gc::{count_swept, object_sweeps, tree_fates, TreeFate};
use nexus::store::overlay::Upper;
use nexus::{
    ErofsBackend, Error, Gen, Generations, LayerDescriptor, LayerFlags, LayerId, LayerType, Libc,
    Limits, ObjectHash, OverlayBackend, Sandbox, Store,
};

fn desc(id: &str) -> LayerDescriptor {
    LayerDescriptor {
        id: LayerId::new(id).unwrap(),
        layer_type: LayerType::Native,
        priority: 1,
        libc: Libc { name: "glibc".to_string(), loader: Some("/lib/ld.so".to_string()) },
        flags: LayerFlags::default(),
        sandbox: Sandbox::default(),
        resources: Limits::default(),
    }
}

#[test]
fn image_is_flat_erofs_in_store() {
    let b = ErofsBackend::new("/store", "/state");
    // the lower is a single flat image named by the layer id
    assert_eq!(b.image(&desc("void")), "/store/void.erofs");
}

#[test]
fn lower_mountpoint_is_per_layer_under_state() {
    let b = ErofsBackend::new("/store", "/state");
    // the image is mounted at a per-layer lower, kept out of the store
    assert_eq!(b.lower(&desc("void")), "/state/lower/void");
}

#[test]
fn images_and_lowers_are_distinct_per_layer() {
    let b = ErofsBackend::new("/store", "/state");
    assert_ne!(b.image(&desc("void")), b.image(&desc("debian")));
    assert_ne!(b.lower(&desc("void")), b.lower(&desc("debian")));
}

#[test]
fn erofs_unmount_root_reclaims_ephemeral_scratch() {
    let b = ErofsBackend::new("/store", "/state");
    let mut d = desc("void");
    d.flags.ephemeral = true;
    assert_eq!(b.reclaim_dirs(&d), ["/state/ephemeral/void", "/state/lower/void"]);
    assert_eq!(
        b.mount_points(&d, "/rust/run/root").teardown_order(),
        ["/rust/run/root", "/state/ephemeral/void", "/state/lower/void"]
    );
}

#[test]
fn unmount_root_reclaims_the_lower_mountpoint() {
    let b = ErofsBackend::new("/store", "/state");
    let d = desc("void");
    assert_eq!(b.reclaim_dirs(&d), ["/state/lower/void"]);
    assert_eq!(
        b.mount_points(&d, "/rust/run/root").teardown_order(),
        ["/rust/run/root", "/state/lower/void"]
    );
}

#[test]
fn lower_is_layer_only_without_base() {
    let b = OverlayBackend::new("/store", "/state");
    // no base dir on disk, so the lower is just the layer tree
    assert_eq!(b.lowerdir(&desc("void")), "/store/void");
}

#[test]
fn lower_puts_layer_before_base_when_present() {
    let b = OverlayBackend::new("/store", "/state");
    // the layer's own tree must win over the shared base, so it comes
    // first in the colon list
    assert_eq!(b.lowerdir_with(&desc("void"), true), "/store/void:/store/base");
}

#[test]
fn lower_does_not_list_base_twice_for_a_base_named_layer() {
    let b = OverlayBackend::new("/store", "/state");
    // the layer's dir is the base dir: a single lower, not "base:base",
    // which overlay would reject as overlapping (ELOOP)
    assert_eq!(b.lowerdir_with(&desc("base"), true), "/store/base");
}

#[test]
fn upper_and_work_are_per_layer() {
    let b = OverlayBackend::new("/store", "/state");
    assert_eq!(b.upperdir(&desc("void")), "/state/upper/void");
    assert_eq!(b.workdir(&desc("void")), "/state/work/void");
}

#[test]
fn ephemeral_base_is_per_layer_under_state() {
    let b = OverlayBackend::new("/store", "/state");
    assert_eq!(b.ephemeral_base(&desc("void")), "/state/ephemeral/void");
}

#[test]
fn ephemeral_layer_takes_tmpfs_upper_not_disk() {
    let mut d = desc("void");
    d.flags.ephemeral = true;
    // ephemeral wants a (tmpfs) upper, and that upper is not the
    // persistent on-disk one
    assert!(d.flags.ephemeral_upper());
    assert!(d.flags.no_persistent_upper());
}

#[test]
fn atomic_overrides_ephemeral_no_upper() {
    let mut d = desc("void");
    d.flags.ephemeral = true;
    d.flags.atomic = true;
    // atomic takes no upper, even when ephemeral is also set
    assert!(!d.flags.ephemeral_upper());
    assert!(d.flags.no_persistent_upper());
}

#[test]
fn overlay_unmount_root_reclaims_ephemeral_scratch() {
    let b = OverlayBackend::new("/store", "/state");
    let mut d = desc("void");
    d.flags.ephemeral = true;
    assert_eq!(b.reclaim_dirs(&d), ["/state/ephemeral/void"]);
    assert_eq!(
        b.mount_points(&d, "/rust/run/root").teardown_order(),
        ["/rust/run/root", "/state/ephemeral/void"]
    );
}

#[test]
fn unmount_root_keeps_persistent_upper() {
    let b = OverlayBackend::new("/store", "/state");
    // evict bounds memory, not state: a rebuild must restore these writes
    assert!(b.reclaim_dirs(&desc("void")).is_empty());
    assert_eq!(b.mount_points(&desc("void"), "/t").teardown_order(), ["/t"]);
}

#[test]
fn upper_follows_the_flags() {
    let b = OverlayBackend::new("/store", "/state");
    match b.upper(&desc("void")) {
        Upper::Disk { upper, work } => {
            assert_eq!(upper, "/state/upper/void");
            assert_eq!(work, "/state/work/void");
        }
        _ => panic!("a plain layer keeps a persistent upper"),
    }
    let mut d = desc("void");
    d.flags.ephemeral = true;
    match b.upper(&d) {
        Upper::Tmpfs { base, upper, work } => {
            assert_eq!(base, "/state/ephemeral/void");
            assert_eq!(upper, "/state/ephemeral/void/upper");
            assert_eq!(work, "/state/ephemeral/void/work");
        }
        _ => panic!("an ephemeral layer takes a tmpfs upper"),
    }
    d.flags.atomic = true;
    assert!(matches!(b.upper(&d), Upper::ReadOnly));
    let e = ErofsBackend::new("/store", "/state");
    assert!(matches!(e.upper(&d), Upper::ReadOnly));
}

fn entries() -> Vec<Entry> {
    vec![
        Entry::file("etc/hostname", 0o644, "aa".repeat(32)),
        Entry::dir("etc", 0o755),
        Entry::link("bin", "usr/bin"),
    ]
}

#[test]
fn tree_hash_is_independent_of_listing_order() {
    // the same content, listed in any order, names the same tree
    let a = tree_hash(&sort_entries(entries()));
    let mut rev = entries();
    rev.reverse();
    let b = tree_hash(&sort_entries(rev));
    assert_eq!(a, b);
    assert_eq!(a.as_str().len(), 64);
    assert!(a.as_str().chars().all(|c| c.is_ascii_hexdigit() && !c.is_ascii_uppercase()));
}

#[test]
fn sorted_entries_put_directories_before_their_contents() {
    let hash = "bb".repeat(32);
    let listing = vec![
        Entry::file("etc/ssl/certs/ca.pem", 0o644, hash),
        Entry::dir("etc/ssl/certs", 0o755),
        Entry::link("etc/ssl/cert.pem", "certs/ca.pem"),
        Entry::dir("etc/ssl", 0o755),
        Entry::dir("etc", 0o755),
    ];
    let sorted: Vec<String> = sort_entries(listing).into_iter().map(|e| e.rel).collect();
    assert_eq!(
        sorted,
        ["etc", "etc/ssl", "etc/ssl/cert.pem", "etc/ssl/certs", "etc/ssl/certs/ca.pem"]
    );
}

#[test]
fn manifest_lists_entries_in_path_order() {
    let text = nexus::store::cas::manifest_text(&sort_entries(entries()));
    let hash = "aa".repeat(32);
    assert_eq!(text, format!("l usr/bin bin\nd 755 etc\nf 644 {hash} etc/hostname\n"));
}

#[test]
fn tree_hash_depends_on_content() {
    let a = tree_hash(&sort_entries(entries()));
    let mut other = entries();
    other.push(Entry::dir("var", 0o755));
    let b = tree_hash(&sort_entries(other));
    assert_ne!(a, b);
    // the hash is not the manifest handed back
    let text = nexus::store::cas::manifest_text(&sort_entries(entries()));
    assert_ne!(a.as_str(), text);
}

#[test]
fn objects_are_keyed_by_hash_and_mode() {
    let s = Store::new("/rust/.store");
    assert_eq!(s.objects(), "/rust/.store/objects");
    assert_eq!(s.object_path("abc", 0o100644), "/rust/.store/objects/abc.644");
    assert_eq!(s.object_path("abc", 0o4755), "/rust/.store/objects/abc.4755");
    assert_eq!(s.tree_path(&ObjectHash::new("t1")), "/rust/.store/trees/t1");
}

#[test]
fn verify_reads_the_hash_back_from_an_object_name() {
    assert_eq!(Store::object_name_kind("abc.644").unwrap(), Some("abc".to_string()));
    assert_eq!(Store::object_name_kind("a.b.755").unwrap(), Some("a.b".to_string()));
    // bookkeeping dotfiles are skipped
    assert_eq!(Store::object_name_kind(".lock").unwrap(), None);
    assert_eq!(Store::object_name_kind(".stage-1-2").unwrap(), None);
    match Store::object_name_kind("nodot") {
        Err(Error::Corrupt { hash }) => assert_eq!(hash, "nodot: object missing mode suffix"),
        _ => panic!("a name without a mode suffix is corrupt"),
    }
}

#[test]
fn digest_mismatch_is_corruption() {
    assert!(Store::check_digest("abc", "abc").is_ok());
    match Store::check_digest("abd", "abc") {
        Err(Error::Corrupt { hash }) => assert_eq!(hash, "abc"),
        _ => panic!("a mismatching digest is corruption"),
    }
}

fn hex_of(bytes: &[u8]) -> String {
    let mut d = Digest::new();
    d.update(bytes);
    d.hex()
}

#[test]
fn digest_of_nothing_is_blake3_of_the_empty_input() {
    assert_eq!(
        Digest::new().hex(),
        "af1349b9f5f9a1a6a0404dea36dcc9499bcb25c9adc112b7cc9a93cae41f3262"
    );
}

#[test]
fn digest_fed_in_chunks_names_the_whole_content() {
    let mut d = Digest::new();
    d.update(b"foo");
    d.update(b"");
    d.update(b"bar");
    assert_eq!(d.hex(), blake3::hash(b"foobar").to_hex().to_string());
    assert_eq!(d.hex(), hex_of(b"foobar"));
    assert_ne!(d.hex(), hex_of(b"foo"));
    assert!(d.check(&hex_of(b"foobar")).is_ok());
    match d.check(&hex_of(b"foo")) {
        Err(Error::Corrupt { hash }) => assert_eq!(hash, hex_of(b"foo")),
        _ => panic!("content that differs from its name is corrupt"),
    }
}

#[test]
fn an_object_is_named_by_its_content() {
    let name = hex_of(b"ELF");
    assert!(check_object(b"ELF", &name).is_ok());
    match check_object(b"TAMPERED", &name) {
        Err(Error::Corrupt { hash }) => assert_eq!(hash, name),
        _ => panic!("tampered content no longer matches its name"),
    }
}

#[test]
fn verify_catches_tampered_object() {
    let name = hex_of(b"ELF");
    let listing = [(format!("{name}.755"), hex_of(b"TAMPERED"))];
    match verify_tally(&listing) {
        Err(Error::Corrupt { hash }) => assert_eq!(hash, name),
        other => panic!("expected Corrupt, got {other:?}"),
    }
}

#[test]
fn verify_passes_on_intact_store() {
    let sh = hex_of(b"ELF");
    let os = hex_of(b"ID=void");
    let listing = [
        (".lock".to_string(), String::new()),
        (format!("{sh}.755"), sh.clone()),
        (".stage-1-0".to_string(), String::new()),
        (format!("{os}.644"), os.clone()),
    ];
    assert_eq!(verify_tally(&listing).unwrap(), 2);
}

#[test]
fn verify_empty_store_is_ok() {
    assert_eq!(verify_tally(&[]).unwrap(), 0);
}

#[test]
fn verify_stops_at_the_first_bad_entry() {
    let sh = hex_of(b"ELF");
    let listing = [
        (format!("{sh}.755"), sh.clone()),
        ("nodot".to_string(), String::new()),
        (format!("{sh}.644"), hex_of(b"other")),
    ];
    match verify_tally(&listing) {
        Err(Error::Corrupt { hash }) => assert_eq!(hash, "nodot: object missing mode suffix"),
        other => panic!("expected the naming error first, got {other:?}"),
    }
}

#[test]
fn generations_are_ordered_by_number() {
    assert!(Gen::new(1) < Gen::new(2));
    assert!(!(Gen::new(3) < Gen::new(2)));
    assert!(Gen::new(9) > Gen::new(8));
    assert!(Gen::new(2) <= Gen::new(2));
    assert_eq!(Gen::new(2), Gen::new(2));
    let gens = [Gen::new(4), Gen::new(11), Gen::new(7)];
    assert_eq!(gens.iter().max(), Some(&Gen::new(11)));
}

fn h(s: &str) -> ObjectHash {
    ObjectHash::new(s)
}

#[test]
fn fates_keep_live_trees_and_sweep_the_rest() {
    let trees = [
        ("t1".to_string(), true),
        ("t2".to_string(), true),
        (".lock".to_string(), false),
        ("t1.tmp".to_string(), true),
        ("stray".to_string(), false),
    ];
    let fates = tree_fates(&[h("t1")], &trees);
    assert_eq!(
        fates,
        [TreeFate::Pin, TreeFate::Sweep, TreeFate::Leave, TreeFate::Sweep, TreeFate::Leave]
    );
    // objects pinned by a kept tree's inodes stay; the rest go
    let objects = [
        ("a.644".to_string(), Some(10)),
        ("b.644".to_string(), Some(11)),
        (".lock".to_string(), Some(12)),
        ("gone.644".to_string(), None),
    ];
    assert_eq!(object_sweeps(&objects, &[10]), [false, true, false, false]);
    // the collection reports one removal
    assert_eq!(count_swept(&object_sweeps(&objects, &[10])), 1);
}

#[test]
fn fates_with_no_live_tree_sweep_everything() {
    let trees = [("t1".to_string(), true), ("t2".to_string(), true)];
    assert_eq!(tree_fates(&[], &trees), [TreeFate::Sweep, TreeFate::Sweep]);
    let objects = [("a.644".to_string(), Some(1)), ("b.755".to_string(), Some(2))];
    assert_eq!(object_sweeps(&objects, &[]), [true, true]);
    assert_eq!(count_swept(&object_sweeps(&objects, &[])), 2);
    assert_eq!(count_swept(&[]), 0);
}

#[test]
fn generation_paths_and_manifest() {
    let g = Generations::new("/rust/.gen");
    assert_eq!(g.path(Gen::new(3)), "/rust/.gen/3");
    assert_eq!(g.current_link(), "/rust/.gen/current");
    assert_eq!(Generations::manifest(&[h("treeA"), h("treeB")]), "treeA\ntreeB\n");
}

#[test]
fn all_lists_gens_and_trees_reads_manifest() {
    let text = Generations::manifest(&[h("treeA"), h("treeB")]);
    assert_eq!(Generations::trees_in(&text), vec![h("treeA"), h("treeB")]);
    assert_eq!(Generations::trees_in("  treeC \n\n"), vec![h("treeC")]);
    let names = ["2".to_string(), "current".to_string(), "1".to_string(), ".lock".to_string()];
    assert_eq!(Generations::all_from(&names), vec![Gen::new(1), Gen::new(2)]);
}

#[test]
fn next_gen_follows_the_highest() {
    assert_eq!(Generations::next_from(&[]), Gen::new(1));
    let names = ["1".to_string(), "7".to_string(), "current".to_string()];
    assert_eq!(Generations::next_from(&names), Gen::new(8));
}

#[test]
fn current_link_names_a_gen() {
    assert_eq!(Generations::gen_from_target("/rust/.gen/2").unwrap(), Gen::new(2));
    assert_eq!(Generations::gen_from_target("5").unwrap(), Gen::new(5));
    match Generations::gen_from_target("/rust/.gen/x") {
        Err(Error::Io(m)) => assert_eq!(m, "current is not a gen: x"),
        _ => panic!("a non-numeric target is refused"),
    }
    match Generations::gen_from_target("/") {
        Err(Error::Io(m)) => assert_eq!(m, "current points nowhere"),
        _ => panic!("a target without a file name is refused"),
    }
}
