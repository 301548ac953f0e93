use nexus::ns::pin::ns_path;
use nexus::path::path_join;
use nexus::quote::debug_quoted;
use nexus::text::{lines_trimmed, parse_dec_u64, split_words, trim_str, u64_to_dec};
use nexus::{LayerId, Layout};

#[test]
fn layout_places_everything_under_its_root() {
    let l = Layout::new("/rust");
    assert_eq!(l.root(), "/rust");
    assert_eq!(l.run(), "/rust/run");
    assert_eq!(l.run_ns(), "/rust/run/ns");
    assert_eq!(l.ns_file("void"), "/rust/run/ns/void/mnt");
    assert_eq!(l.stage(), "/rust/run/root");
    assert_eq!(l.store(), "/rust/.store");
    assert_eq!(l.state(), "/rust/.state");
    assert_eq!(l.gens(), "/rust/.gen");
    assert_eq!(Layout::default().root(), "/rust");
}

#[test]
fn each_layer_has_its_own_namespace_file() {
    let l = Layout::new("/srv/nexus/");
    let a = ns_path(&l, &LayerId::new("void").unwrap());
    let b = ns_path(&l, &LayerId::new("debian").unwrap());
    assert_eq!(a, "/srv/nexus/run/ns/void/mnt");
    assert_ne!(a, b);
}

#[test]
fn join_follows_path_join() {
    assert_eq!(path_join("/a", "b"), "/a/b");
    assert_eq!(path_join("/a/", "b"), "/a/b");
    assert_eq!(path_join("", "b"), "b");
    // an absolute right-hand side replaces the base
    assert_eq!(path_join("/a", "/b"), "/b");
}

#[test]
fn text_helpers_match_std() {
    assert_eq!(split_words("  a b\tc\n"), ["a", "b", "c"]);
    assert_eq!(trim_str("  x y \n"), "x y");
    assert_eq!(lines_trimmed(" a \n\n b\n"), ["a", "b"]);
    assert_eq!(parse_dec_u64("+42"), Some(42));
    assert_eq!(parse_dec_u64("18446744073709551615"), Some(u64::MAX));
    assert_eq!(parse_dec_u64("18446744073709551616"), None);
    assert_eq!(parse_dec_u64(""), None);
    assert_eq!(parse_dec_u64("4x"), None);
    assert_eq!(u64_to_dec(0), "0");
    assert_eq!(u64_to_dec(1234567890), "1234567890");
}

#[test]
fn debug_quoting_matches_format() {
    for s in ["plain", "q\"uote", "back\\slash", "nl\nline", "tab\t", "nul\0", "bell\u{7}", "esc\u{1b}", "del\u{7f}", ""] {
        assert_eq!(debug_quoted(s), format!("{s:?}"), "for {s:?}");
    }
}
