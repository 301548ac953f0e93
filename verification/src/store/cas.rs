//! content-addressed store: objects/<hash>.<mode>, trees/<treehash>/.
//! import hashes and deduplicates; a tree is named by the blake3 hash of its
//! manifest, one stable line per entry. walking and writing the filesystem
//! is the caller's; naming, ordering and hashing are here

use crate::api::err::{Error, ErrorView, Result};
use crate::api::store::ObjectHash;
use crate::path::{join, path_is_dir, path_join};
use crate::text::{chars_of, concat, oct, string_of, u32_to_oct};
use vstd::prelude::*;

verus! {

broadcast use vstd::seq_lib::group_to_multiset_ensures;

/// the name blake3 gives `data`: its digest in lowercase hexadecimal
pub uninterp spec fn blake3_hex(data: Seq<u8>) -> Seq<char>;

pub open spec fn is_lower_hex(c: char) -> bool {
    ('0' <= c <= '9') || ('a' <= c <= 'f')
}

/// `blake3::hash(data).to_hex()`: the 32-byte digest of `data` rendered
/// as 64 lowercase hexadecimal digits. The digest itself is named, not
/// restated; its length and alphabet are what `Hash::to_hex` documents.
#[verifier::external_body]
fn blake3_digest(data: &[u8]) -> (h: String)
    ensures
        h@ == blake3_hex(data@),
        h@.len() == 64,
        forall|i: int| 0 <= i < h@.len() ==> is_lower_hex(#[trigger] h@[i]),
{
    blake3::hash(data).to_hex().to_string()
}

pub struct Store {
    root: String,
}

impl View for Store {
    type V = Seq<char>;

    closed spec fn view(&self) -> Seq<char> {
        self.root@
    }
}

pub open spec fn objects_of(root: Seq<char>) -> Seq<char> {
    join(root, "objects"@)
}

pub open spec fn trees_of(root: Seq<char>) -> Seq<char> {
    join(root, "trees"@)
}

/// an object's file name: its content hash, a dot, and its permission bits
/// in octal, so equal bytes with different modes stay separate objects
pub open spec fn object_name(hash: Seq<char>, mode: u32) -> Seq<char> {
    hash + "."@ + oct((mode % 4096) as nat)
}

/// what an entry of the objects directory is for verification: a
/// bookkeeping dotfile to skip, the hash its name claims, or a name with no
/// mode suffix, which means the store is in an unknown state
pub enum ObjectName {
    Skip,
    Hash(String),
}

pub open spec fn last_dot(s: Seq<char>) -> int
    decreases s.len(),
{
    if s.len() == 0 {
        -1
    } else if s.last() == '.' {
        s.len() - 1
    } else {
        last_dot(s.drop_last())
    }
}

pub proof fn lemma_last_dot(s: Seq<char>)
    ensures
        -1 <= last_dot(s) < s.len(),
        last_dot(s) >= 0 ==> s[last_dot(s)] == '.',
        forall|k: int| last_dot(s) < k < s.len() ==> #[trigger] s[k] != '.',
    decreases s.len(),
{
    if s.len() > 0 && s.last() != '.' {
        lemma_last_dot(s.drop_last());
        assert forall|k: int| last_dot(s) < k < s.len() implies #[trigger] s[k] != '.' by {
            if k < s.len() - 1 {
                assert(s[k] == s.drop_last()[k]);
            }
        }
    }
}

/// how verification reads an objects-directory entry name
pub open spec fn object_name_kind(name: Seq<char>) -> std::result::Result<Option<Seq<char>>, ErrorView> {
    if name.len() > 0 && name[0] == '.' {
        Ok(None)
    } else if last_dot(name) < 0 {
        Err(ErrorView::Corrupt { hash: name + ": object missing mode suffix"@ })
    } else {
        Ok(Some(name.take(last_dot(name))))
    }
}

/// kinds of tree entries
pub enum Class {
    Dir,
    /// a regular file, by the hash of its content
    File(String),
    /// a symlink, by its target
    Link(String),
}

/// one entry of a tree: a relative path, its mode, and what it is
pub struct Entry {
    pub rel: String,
    pub mode: u32,
    pub class: Class,
}

pub enum ClassView {
    Dir,
    File(Seq<char>),
    Link(Seq<char>),
}

pub struct EntryView {
    pub rel: Seq<char>,
    pub mode: u32,
    pub class: ClassView,
}

impl View for Entry {
    type V = EntryView;

    open spec fn view(&self) -> EntryView {
        EntryView {
            rel: self.rel@,
            mode: self.mode,
            class: match &self.class {
                Class::Dir => ClassView::Dir,
                Class::File(h) => ClassView::File(h@),
                Class::Link(t) => ClassView::Link(t@),
            },
        }
    }
}

impl Entry {
    pub fn dir(rel: &str, mode: u32) -> (e: Self)
        ensures
            e@ == (EntryView { rel: rel@, mode, class: ClassView::Dir }),
    {
        Entry { rel: String::from_str(rel), mode, class: Class::Dir }
    }

    pub fn file(rel: &str, mode: u32, hash: String) -> (e: Self)
        ensures
            e@ == (EntryView { rel: rel@, mode, class: ClassView::File(hash@) }),
    {
        Entry { rel: String::from_str(rel), mode, class: Class::File(hash) }
    }

    /// a symlink carries no mode of its own
    pub fn link(rel: &str, target: &str) -> (e: Self)
        ensures
            e@ == (EntryView { rel: rel@, mode: 0, class: ClassView::Link(target@) }),
    {
        Entry { rel: String::from_str(rel), mode: 0, class: Class::Link(String::from_str(target)) }
    }
}

pub open spec fn entry_views(es: Seq<Entry>) -> Seq<EntryView> {
    es.map_values(|e: Entry| e@)
}

/// one stable line per entry, so the same tree always hashes the same
pub open spec fn manifest_line(e: EntryView) -> Seq<char> {
    match e.class {
        ClassView::Dir => "d "@ + oct(e.mode as nat) + " "@ + e.rel + "\n"@,
        ClassView::File(h) => "f "@ + oct(e.mode as nat) + " "@ + h + " "@ + e.rel + "\n"@,
        ClassView::Link(t) => "l "@ + t + " "@ + e.rel + "\n"@,
    }
}

pub open spec fn manifest_of(es: Seq<EntryView>) -> Seq<char>
    decreases es.len(),
{
    if es.len() == 0 {
        Seq::<char>::empty()
    } else {
        manifest_of(es.drop_last()) + manifest_line(es.last())
    }
}

/// the order entries are listed in: component-wise path order, which for
/// relative paths without empty components is character order with the
/// separator below every other character
pub open spec fn char_before(x: char, y: char) -> bool {
    if x == '/' {
        y != '/'
    } else if y == '/' {
        false
    } else {
        x < y
    }
}

pub open spec fn path_lt(a: Seq<char>, b: Seq<char>) -> bool
    decreases a.len(),
{
    if a.len() == 0 {
        b.len() > 0
    } else if b.len() == 0 {
        false
    } else if a[0] != b[0] {
        char_before(a[0], b[0])
    } else {
        path_lt(a.drop_first(), b.drop_first())
    }
}

pub proof fn lemma_path_lt_transitive(a: Seq<char>, b: Seq<char>, c: Seq<char>)
    requires
        path_lt(a, b),
        path_lt(b, c),
    ensures
        path_lt(a, c),
    decreases a.len(),
{
    if a.len() > 0 && b.len() > 0 && c.len() > 0 && a[0] == b[0] && b[0] == c[0] {
        lemma_path_lt_transitive(a.drop_first(), b.drop_first(), c.drop_first());
    }
}

pub proof fn lemma_path_lt_total(a: Seq<char>, b: Seq<char>)
    ensures
        path_lt(a, b) || path_lt(b, a) || a == b,
        !(path_lt(a, b) && path_lt(b, a)),
    decreases a.len(),
{
    if a.len() > 0 && b.len() > 0 && a[0] == b[0] {
        lemma_path_lt_total(a.drop_first(), b.drop_first());
        if a.drop_first() == b.drop_first() {
            assert(a =~= seq![a[0]] + a.drop_first());
            assert(b =~= seq![b[0]] + b.drop_first());
        }
    } else if a.len() > 0 && b.len() > 0 && a[0] != b[0] {
    } else if a.len() == 0 && b.len() == 0 {
        assert(a =~= b);
    }
}

pub open spec fn sorted_by_path(es: Seq<EntryView>) -> bool {
    forall|i: int, j: int| 0 <= i < j < es.len() ==> !path_lt(es[j].rel, es[i].rel)
}

fn path_less(a: &str, b: &str) -> (r: bool)
    ensures
        r == path_lt(a@, b@),
{
    let x = chars_of(a);
    let y = chars_of(b);
    let mut i: usize = 0;
    assert(x@.skip(0) =~= x@);
    assert(y@.skip(0) =~= y@);
    while i < x.len() && i < y.len() && x[i] == y[i]
        invariant
            i <= x@.len(),
            i <= y@.len(),
            path_lt(a@, b@) == path_lt(x@.skip(i as int), y@.skip(i as int)),
            x@ == a@,
            y@ == b@,
        decreases x@.len() - i,
    {
        proof {
            assert(x@.skip(i as int).drop_first() =~= x@.skip(i + 1));
            assert(y@.skip(i as int).drop_first() =~= y@.skip(i + 1));
        }
        i += 1;
    }
    proof {
        assert(x@.skip(i as int).len() == x@.len() - i);
        if i < x@.len() {
            assert(x@.skip(i as int)[0] == x@[i as int]);
        }
        if i < y@.len() {
            assert(y@.skip(i as int)[0] == y@[i as int]);
        }
    }
    if i == x.len() {
        i < y.len()
    } else if i == y.len() {
        false
    } else {
        let (p, q) = (x[i], y[i]);
        if p == '/' {
            q != '/'
        } else if q == '/' {
            false
        } else {
            p < q
        }
    }
}

impl Clone for Entry {
    fn clone(&self) -> (e: Self)
        ensures
            e@ == self@,
    {
        Entry {
            rel: self.rel.clone(),
            mode: self.mode,
            class: match &self.class {
                Class::Dir => Class::Dir,
                Class::File(h) => Class::File(h.clone()),
                Class::Link(t) => Class::Link(t.clone()),
            },
        }
    }
}

/// entries in path order, as a manifest lists them
pub fn sort_entries(entries: Vec<Entry>) -> (out: Vec<Entry>)
    ensures
        sorted_by_path(entry_views(out@)),
        entry_views(out@).to_multiset() == entry_views(entries@).to_multiset(),
{
    let mut out: Vec<Entry> = Vec::new();
    let mut i: usize = 0;
    while i < entries.len()
        invariant
            i <= entries@.len(),
            sorted_by_path(entry_views(out@)),
            entry_views(out@).to_multiset() == entry_views(entries@.take(i as int)).to_multiset(),
        decreases entries@.len() - i,
    {
        let e = entries[i].clone();
        let mut j: usize = 0;
        while j < out.len() && !path_less(e.rel.as_str(), out[j].rel.as_str())
            invariant
                j <= out@.len(),
                forall|k: int| 0 <= k < j ==> !path_lt(e.rel@, #[trigger] out@[k].rel@),
            decreases out@.len() - j,
        {
            j += 1;
        }
        let ghost before = entry_views(out@);
        let ghost ev = e@;
        out.insert(j, e);
        proof {
            assert(entry_views(out@) =~= before.insert(j as int, ev));
            assert(entry_views(entries@.take(i + 1)) =~= entry_views(entries@.take(i as int)).push(
                entries@[i as int]@,
            ));
            assert forall|a: int, b: int|
                0 <= a < b < entry_views(out@).len() implies !path_lt(
                entry_views(out@)[b].rel,
                entry_views(out@)[a].rel,
            ) by {
                let s = entry_views(out@);
                if a < j && b == j {
                    assert(!path_lt(ev.rel, before[a].rel));
                } else if a == j && b > j {
                    // before[j] (now at j + 1) is after ev, and before[b - 1] is not before it
                    assert(path_lt(ev.rel, before[j as int].rel));
                    if path_lt(before[b - 1].rel, ev.rel) {
                        if b - 1 > j {
                            assert(!path_lt(before[b - 1].rel, before[j as int].rel));
                        }
                        lemma_path_lt_transitive(before[b - 1].rel, ev.rel, before[j as int].rel);
                    }
                    lemma_path_lt_total(before[b - 1].rel, ev.rel);
                } else if a < j && b > j {
                    assert(!path_lt(before[b - 1].rel, before[a].rel));
                } else if a > j {
                    assert(!path_lt(before[b - 1].rel, before[a - 1].rel));
                } else {
                    assert(!path_lt(before[b].rel, before[a].rel));
                }
            }
        }
        i += 1;
    }
    assert(entries@.take(i as int) =~= entries@);
    out
}

/// the manifest text of a tree's entries, in the order given
pub fn manifest_text(entries: &[Entry]) -> (s: String)
    ensures
        s@ == manifest_of(entry_views(entries@)),
{
    let mut s = String::new();
    let mut i: usize = 0;
    while i < entries.len()
        invariant
            i <= entries@.len(),
            s@ == manifest_of(entry_views(entries@).take(i as int)),
        decreases entries@.len() - i,
    {
        let e = &entries[i];
        match &e.class {
            Class::Dir => {
                s.append("d ");
                s.append(u32_to_oct(e.mode).as_str());
                s.append(" ");
                s.append(e.rel.as_str());
                s.append("\n");
            },
            Class::File(h) => {
                s.append("f ");
                s.append(u32_to_oct(e.mode).as_str());
                s.append(" ");
                s.append(h.as_str());
                s.append(" ");
                s.append(e.rel.as_str());
                s.append("\n");
            },
            Class::Link(t) => {
                s.append("l ");
                s.append(t.as_str());
                s.append(" ");
                s.append(e.rel.as_str());
                s.append("\n");
            },
        }
        proof {
            let t = entry_views(entries@).take(i + 1);
            assert(t.drop_last() =~= entry_views(entries@).take(i as int));
            assert(t.last() == e@);
            assert(s@ =~= manifest_of(t));
        }
        i += 1;
    }
    assert(entry_views(entries@).take(i as int) =~= entry_views(entries@));
    s
}

/// the name of a tree: the blake3 hash of its manifest
pub fn tree_hash(entries: &[Entry]) -> (h: ObjectHash)
    ensures
        h@ == blake3_hex(vstd::utf8::encode_utf8(manifest_of(entry_views(entries@)))),
        h@.len() == 64,
{
    let m = manifest_text(entries);
    let d = blake3_digest(m.as_str().as_bytes());
    ObjectHash::new(d.as_str())
}

impl Store {
    pub fn new(root: &str) -> (s: Self)
        ensures
            s@ == root@,
    {
        Store { root: String::from_str(root) }
    }

    pub fn objects(&self) -> (p: String)
        ensures
            p@ == objects_of(self@),
    {
        path_join(self.root.as_str(), "objects")
    }

    /// objects keyed by content and mode so two files with identical bytes
    /// but different permissions stay separate (a shared inode would clobber
    /// one)
    pub fn object_path(&self, hash: &str, mode: u32) -> (p: String)
        ensures
            p@ == join(objects_of(self@), object_name(hash@, mode)),
    {
        let mut name = concat(hash, ".");
        let bits = mode % 4096;
        name.append(u32_to_oct(bits).as_str());
        proof {
            reveal_strlit(".");
            assert(name@ =~= object_name(hash@, mode));
        }
        path_join(self.objects().as_str(), name.as_str())
    }

    pub fn trees(&self) -> (p: String)
        ensures
            p@ == trees_of(self@),
    {
        path_join(self.root.as_str(), "trees")
    }

    /// the materialized tree directory for a hash, usable as a mount lower
    pub fn tree_path(&self, tree: &ObjectHash) -> (p: String)
        ensures
            p@ == join(trees_of(self@), tree@),
    {
        path_join(self.trees().as_str(), tree.as_str())
    }

    /// whether the tree is materialized in the store
    pub fn has(&self, tree: &ObjectHash) -> (b: bool) {
        path_is_dir(self.tree_path(tree).as_str())
    }

    /// how verification treats an entry of the objects directory:
    /// dotfiles (the pool lock, staging leftovers) are skipped, and an
    /// object is checked against the hash before its last dot
    pub fn object_name_kind(name: &str) -> (res: Result<Option<String>>)
        ensures
            match res {
                Ok(None) => object_name_kind(name@) == Ok::<Option<Seq<char>>, ErrorView>(None),
                Ok(Some(h)) => object_name_kind(name@) == Ok::<Option<Seq<char>>, ErrorView>(
                    Some(h@),
                ),
                Err(e) => object_name_kind(name@) == Err::<Option<Seq<char>>, ErrorView>(e@),
            },
    {
        let cs = chars_of(name);
        if cs.len() > 0 && cs[0] == '.' {
            return Ok(None);
        }
        let mut k = cs.len();
        assert(cs@.take(k as int) =~= cs@);
        while k > 0 && cs[k - 1] != '.'
            invariant
                k <= cs@.len(),
                cs@ == name@,
                last_dot(name@) == last_dot(cs@.take(k as int)),
            decreases k,
        {
            proof {
                assert(cs@.take(k as int).drop_last() =~= cs@.take(k - 1));
            }
            k -= 1;
        }
        proof {
            assert(cs@.take(cs@.len() as int) =~= cs@);
        }
        if k == 0 {
            proof {
                assert(cs@.take(0) =~= Seq::<char>::empty());
            }
            return Err(Error::Corrupt { hash: concat(name, ": object missing mode suffix") });
        }
        proof {
            assert(cs@.take(k as int).last() == '.');
        }
        Ok(Some(string_of(&cs, 0, k - 1)))
    }

    /// an object is intact when the digest of its content is the hash its
    /// name claims; otherwise it is corrupt
    pub fn check_digest(digest: &str, hash: &str) -> (res: Result<()>)
        ensures
            res is Ok <==> digest@ == hash@,
            res matches Err(e) ==> e@ == (ErrorView::Corrupt { hash: hash@ }),
    {
        if crate::text::str_eq(digest, hash) {
            Ok(())
        } else {
            Err(Error::Corrupt { hash: String::from_str(hash) })
        }
    }
}

/// whether `content` is the object named `hash`: the store is content
/// addressed, so the blake3 digest of the bytes must be the name
pub fn check_object(content: &[u8], hash: &str) -> (r: Result<()>)
    ensures
        r is Ok <==> blake3_hex(content@) == hash@,
        r matches Err(e) ==> e@ == (ErrorView::Corrupt { hash: hash@ }),
{
    let got = blake3_digest(content);
    Store::check_digest(got.as_str(), hash)
}

/// entries of the objects directory as plain values: name and the digest
/// of the content
pub open spec fn listing_views(entries: Seq<(String, String)>) -> Seq<(Seq<char>, Seq<char>)> {
    entries.map_values(|e: (String, String)| (e.0@, e.1@))
}

/// what verifying the objects directory answers, entry by entry in order:
/// dotfiles are skipped; a name without a mode suffix, or a digest other
/// than the hash the name claims, stops it with that error; otherwise it
/// counts the objects checked
pub open spec fn tally_outcome(entries: Seq<(Seq<char>, Seq<char>)>) -> std::result::Result<nat, ErrorView>
    decreases entries.len(),
{
    if entries.len() == 0 {
        Ok(0)
    } else {
        let rest = tally_outcome(entries.drop_first());
        match object_name_kind(entries[0].0) {
            Err(e) => Err(e),
            Ok(None) => rest,
            Ok(Some(h)) => if entries[0].1 == h {
                counted(1, rest)
            } else {
                Err(ErrorView::Corrupt { hash: h })
            },
        }
    }
}

pub open spec fn counted(k: nat, r: std::result::Result<nat, ErrorView>) -> std::result::Result<nat, ErrorView> {
    match r {
        Ok(n) => Ok(n + k),
        Err(e) => Err(e),
    }
}

/// verify the objects directory from each entry's name and the digest of
/// its content: the number of objects checked, or the first error
pub fn verify_tally(entries: &[(String, String)]) -> (r: Result<usize>)
    ensures
        match r {
            Ok(n) => tally_outcome(listing_views(entries@)) == Ok::<nat, ErrorView>(n as nat),
            Err(e) => tally_outcome(listing_views(entries@)) == Err::<nat, ErrorView>(e@),
        },
{
    let ghost v = listing_views(entries@);
    let mut count: usize = 0;
    let mut i: usize = 0;
    proof {
        assert(v.skip(0) =~= v);
    }
    while i < entries.len()
        invariant
            v == listing_views(entries@),
            i <= entries@.len(),
            count <= i,
            tally_outcome(v) == counted(count as nat, tally_outcome(v.skip(i as int))),
        decreases entries@.len() - i,
    {
        let ghost t = v.skip(i as int);
        proof {
            assert(t[0] == v[i as int]);
            assert(v[i as int] == (entries@[i as int].0@, entries@[i as int].1@));
            assert(t.drop_first() =~= v.skip(i + 1));
        }
        let kind = Store::object_name_kind(entries[i].0.as_str());
        match kind {
            Err(e) => {
                return Err(e);
            },
            Ok(None) => {},
            Ok(Some(h)) => {
                if !crate::text::str_eq(entries[i].1.as_str(), h.as_str()) {
                    return Err(Error::Corrupt { hash: h });
                }
                count = count + 1;
            },
        }
        i = i + 1;
    }
    proof {
        assert(v.skip(i as int).len() == 0);
    }
    Ok(count)
}

/// A store that verifies is content addressed: every object entry it
/// counted holds content whose digest is the hash its name claims, and no
/// entry's name lacks a mode suffix.
pub proof fn law_verified_store_is_content_addressed(entries: Seq<(Seq<char>, Seq<char>)>)
    requires
        tally_outcome(entries) is Ok,
    ensures
        forall|k: int|
            0 <= k < entries.len() ==> {
                &&& #[trigger] object_name_kind(entries[k].0) is Ok
                &&& object_name_kind(entries[k].0) matches Ok(Some(h)) ==> entries[k].1 == h
            },
    decreases entries.len(),
{
    if entries.len() > 0 {
        let rest = entries.drop_first();
        law_verified_store_is_content_addressed(rest);
        assert forall|k: int| 0 <= k < entries.len() implies {
            &&& #[trigger] object_name_kind(entries[k].0) is Ok
            &&& object_name_kind(entries[k].0) matches Ok(Some(h)) ==> entries[k].1 == h
        } by {
            if k > 0 {
                assert(entries[k] == rest[k - 1]);
                assert(object_name_kind(rest[k - 1].0) is Ok);
            }
        }
    }
}

proof fn lemma_prefix_sorts_first(a: Seq<char>, b: Seq<char>)
    requires
        a.len() < b.len(),
        b.take(a.len() as int) == a,
    ensures
        path_lt(a, b),
    decreases a.len(),
{
    if a.len() > 0 {
        assert(a[0] == b.take(a.len() as int)[0]);
        assert(b.drop_first().take(a.drop_first().len() as int) =~= a.drop_first()) by {
            assert forall|k: int| 0 <= k < a.len() - 1 implies b.drop_first()[k] == a.drop_first()[k] by {
                assert(b.take(a.len() as int)[k + 1] == a[k + 1]);
            }
        }
        lemma_prefix_sorts_first(a.drop_first(), b.drop_first());
    }
}

/// Sorted entries list every directory before what lies beneath it: an
/// entry whose path is a proper prefix of another's (its parent, or any
/// ancestor) comes first, so a tree can be materialised in order.
pub proof fn law_sorted_parents_come_first(es: Seq<EntryView>, i: int, j: int)
    requires
        sorted_by_path(es),
        0 <= i < es.len(),
        0 <= j < es.len(),
        es[i].rel.len() < es[j].rel.len(),
        es[j].rel.take(es[i].rel.len() as int) == es[i].rel,
    ensures
        i < j,
{
    lemma_prefix_sorts_first(es[i].rel, es[j].rel);
    if j < i {
        assert(!path_lt(es[i].rel, es[j].rel));
    }
}

proof fn lemma_cancel_around(p: Seq<char>, x: Seq<char>, y: Seq<char>, q: Seq<char>)
    requires
        p + x + q == p + y + q,
    ensures
        x == y,
{
    let l = p + x + q;
    let r = p + y + q;
    assert(l.len() == r.len());
    assert(x.len() == y.len());
    assert forall|k: int| 0 <= k < x.len() implies x[k] == y[k] by {
        assert(l[p.len() + k] == x[k]);
        assert(r[p.len() + k] == y[k]);
    }
    assert(x =~= y);
}

proof fn lemma_manifest_concat(a: Seq<EntryView>, b: Seq<EntryView>)
    ensures
        manifest_of(a + b) == manifest_of(a) + manifest_of(b),
    decreases b.len(),
{
    if b.len() == 0 {
        assert(a + b =~= a);
        assert(manifest_of(a) + manifest_of(b) =~= manifest_of(a));
    } else {
        lemma_manifest_concat(a, b.drop_last());
        assert((a + b).drop_last() =~= a + b.drop_last());
        assert((a + b).last() == b.last());
        assert(manifest_of(a + b) =~= manifest_of(a) + manifest_of(b));
    }
}

/// A directory or file entry's manifest line names its whole mode: two such
/// entries at the same path, of the same kind and content, whose modes
/// differ in any bit (setuid, sticky, type bits included) have different
/// lines.
pub proof fn law_manifest_line_names_the_mode(e1: EntryView, e2: EntryView)
    requires
        e1.rel == e2.rel,
        e1.class == e2.class,
        !(e1.class is Link),
        e1.mode != e2.mode,
    ensures
        manifest_line(e1) != manifest_line(e2),
{
    if manifest_line(e1) == manifest_line(e2) {
        let (p, q) = match e1.class {
            ClassView::File(h) => ("f "@, " "@ + h + " "@ + e1.rel + "\n"@),
            _ => ("d "@, " "@ + e1.rel + "\n"@),
        };
        assert(manifest_line(e1) =~= p + oct(e1.mode as nat) + q);
        assert(manifest_line(e2) =~= p + oct(e2.mode as nat) + q);
        lemma_cancel_around(p, oct(e1.mode as nat), oct(e2.mode as nat), q);
        crate::text::lemma_oct_injective(e1.mode as nat, e2.mode as nat);
    }
}

/// the letter a manifest line starts with: its entry's kind
pub open spec fn kind_letter(c: ClassView) -> char {
    match c {
        ClassView::Dir => 'd',
        ClassView::File(_) => 'f',
        ClassView::Link(_) => 'l',
    }
}

/// A manifest line tells its entry apart: it starts with the entry's kind,
/// and two entries of one kind that differ only in their path, only in a
/// file's content hash, or only in a link's target have different lines.
pub proof fn law_manifest_line_tells_entries_apart(e1: EntryView, e2: EntryView)
    ensures
        manifest_line(e1).len() > 0 && manifest_line(e1)[0] == kind_letter(e1.class),
        e1.class == e2.class && e1.mode == e2.mode && e1.rel != e2.rel ==> manifest_line(e1)
            != manifest_line(e2),
        e1.rel == e2.rel && e1.mode == e2.mode && e1.class is File && e2.class is File
            && e1.class != e2.class ==> manifest_line(e1) != manifest_line(e2),
        e1.rel == e2.rel && e1.class is Link && e2.class is Link && e1.class != e2.class
            ==> manifest_line(e1) != manifest_line(e2),
{
    reveal_strlit("d ");
    reveal_strlit("f ");
    reveal_strlit("l ");
    let l1 = manifest_line(e1);
    let l2 = manifest_line(e2);
    match e1.class {
        ClassView::Dir => assert(l1[0] == ("d "@)[0]),
        ClassView::File(_) => assert(l1[0] == ("f "@)[0]),
        ClassView::Link(_) => assert(l1[0] == ("l "@)[0]),
    }
    if e1.class == e2.class && e1.mode == e2.mode && e1.rel != e2.rel && l1 == l2 {
        let p = match e1.class {
            ClassView::Dir => "d "@ + oct(e1.mode as nat) + " "@,
            ClassView::File(h) => "f "@ + oct(e1.mode as nat) + " "@ + h + " "@,
            ClassView::Link(t) => "l "@ + t + " "@,
        };
        assert(l1 =~= p + e1.rel + "\n"@);
        assert(l2 =~= p + e2.rel + "\n"@);
        lemma_cancel_around(p, e1.rel, e2.rel, "\n"@);
    }
    if e1.rel == e2.rel && e1.mode == e2.mode && e1.class is File && e2.class is File
        && e1.class != e2.class && l1 == l2 {
        let p = "f "@ + oct(e1.mode as nat) + " "@;
        let q = " "@ + e1.rel + "\n"@;
        assert(l1 =~= p + e1.class->File_0 + q);
        assert(l2 =~= p + e2.class->File_0 + q);
        lemma_cancel_around(p, e1.class->File_0, e2.class->File_0, q);
    }
    if e1.rel == e2.rel && e1.class is Link && e2.class is Link && e1.class != e2.class && l1
        == l2 {
        let q = " "@ + e1.rel + "\n"@;
        assert(l1 =~= "l "@ + e1.class->Link_0 + q);
        assert(l2 =~= "l "@ + e2.class->Link_0 + q);
        lemma_cancel_around("l "@, e1.class->Link_0, e2.class->Link_0, q);
    }
}

/// Two listings that differ in one entry, whose manifest lines differ,
/// have different manifests: every line counts towards a tree's name.
pub proof fn law_one_changed_line_changes_the_manifest(
    es1: Seq<EntryView>,
    es2: Seq<EntryView>,
    i: int,
)
    requires
        es1.len() == es2.len(),
        0 <= i < es1.len(),
        forall|k: int| 0 <= k < es1.len() && k != i ==> #[trigger] es1[k] == es2[k],
        manifest_line(es1[i]) != manifest_line(es2[i]),
    ensures
        manifest_of(es1) != manifest_of(es2),
{
    let pre = es1.take(i);
    let post = es1.skip(i + 1);
    assert(es2.take(i) =~= pre);
    assert(es2.skip(i + 1) =~= post);
    assert(es1 =~= pre + seq![es1[i]] + post);
    assert(es2 =~= pre + seq![es2[i]] + post);
    lemma_manifest_concat(pre + seq![es1[i]], post);
    lemma_manifest_concat(pre, seq![es1[i]]);
    lemma_manifest_concat(pre + seq![es2[i]], post);
    lemma_manifest_concat(pre, seq![es2[i]]);
    assert(manifest_of(Seq::<EntryView>::empty()) == Seq::<char>::empty());
    assert(seq![es1[i]].drop_last() =~= Seq::<EntryView>::empty());
    assert(seq![es1[i]].last() == es1[i]);
    assert(seq![es2[i]].last() == es2[i]);
    assert(seq![es2[i]].drop_last() =~= Seq::<EntryView>::empty());
    assert(manifest_of(seq![es1[i]]) =~= manifest_line(es1[i]));
    assert(manifest_of(seq![es2[i]]) =~= manifest_line(es2[i]));
    if manifest_of(es1) == manifest_of(es2) {
        lemma_cancel_around(
            manifest_of(pre),
            manifest_line(es1[i]),
            manifest_line(es2[i]),
            manifest_of(post),
        );
    }
}

/// Trees that differ only in the mode of one directory or file have
/// different manifests, so the mode is part of what names a tree.
pub proof fn law_manifest_names_every_mode(es1: Seq<EntryView>, es2: Seq<EntryView>, i: int)
    requires
        es1.len() == es2.len(),
        0 <= i < es1.len(),
        forall|k: int| 0 <= k < es1.len() && k != i ==> #[trigger] es1[k] == es2[k],
        es1[i].rel == es2[i].rel,
        es1[i].class == es2[i].class,
        !(es1[i].class is Link),
        es1[i].mode != es2[i].mode,
    ensures
        manifest_of(es1) != manifest_of(es2),
{
    law_manifest_line_names_the_mode(es1[i], es2[i]);
    law_one_changed_line_changes_the_manifest(es1, es2, i);
}

/// Import is deterministic: two listings of the same entries, in whatever
/// order the tree was walked, sort into one and the same manifest, and so
/// name the same tree, as long as no path occurs twice.
pub proof fn law_sorted_listing_is_unique(a: Seq<EntryView>, b: Seq<EntryView>)
    requires
        sorted_by_path(a),
        sorted_by_path(b),
        a.to_multiset() == b.to_multiset(),
        forall|i: int, j: int| 0 <= i < j < a.len() ==> a[i].rel != a[j].rel,
    ensures
        a == b,
        manifest_of(a) == manifest_of(b),
    decreases a.len(),
{
    broadcast use vstd::seq_lib::group_to_multiset_ensures;

    assert(a.len() == b.len()) by {
        assert(a.len() == a.to_multiset().len());
        assert(b.len() == b.to_multiset().len());
    }
    if a.len() > 0 {
        assert(a.to_multiset().count(a[0]) > 0) by {
            assert(a.contains(a[0]));
        }
        assert(b.contains(a[0]));
        let k = choose|k: int| 0 <= k < b.len() && b[k] == a[0];
        assert(b.to_multiset().count(b[0]) > 0) by {
            assert(b.contains(b[0]));
        }
        assert(a.contains(b[0]));
        let m = choose|m: int| 0 <= m < a.len() && a[m] == b[0];
        if m != 0 {
            lemma_path_lt_total(a[0].rel, b[0].rel);
            assert(!path_lt(a[m].rel, a[0].rel));
            if k != 0 {
                assert(!path_lt(b[k].rel, b[0].rel));
            }
            assert(a[m].rel == a[0].rel);
            assert(false);
        }
        assert(a[0] == b[0]);
        let a1 = a.drop_first();
        let b1 = b.drop_first();
        assert(a1 =~= a.remove(0));
        assert(b1 =~= b.remove(0));
        assert(a1.to_multiset() == a.to_multiset().remove(a[0]));
        assert(b1.to_multiset() == b.to_multiset().remove(b[0]));
        assert forall|i: int, j: int| 0 <= i < j < a1.len() implies !path_lt(a1[j].rel, a1[i].rel) by {
            assert(a1[i] == a[i + 1] && a1[j] == a[j + 1]);
        }
        assert forall|i: int, j: int| 0 <= i < j < b1.len() implies !path_lt(b1[j].rel, b1[i].rel) by {
            assert(b1[i] == b[i + 1] && b1[j] == b[j + 1]);
        }
        assert forall|i: int, j: int| 0 <= i < j < a1.len() implies a1[i].rel != a1[j].rel by {
            assert(a1[i] == a[i + 1] && a1[j] == a[j + 1]);
        }
        law_sorted_listing_is_unique(a1, b1);
        assert(a =~= b) by {
            assert forall|i: int| 0 <= i < a.len() implies a[i] == b[i] by {
                if i > 0 {
                    assert(a[i] == a1[i - 1] && b[i] == b1[i - 1]);
                }
            }
        }
    }
}

/// Verification reads back the hash an import filed an object under: the
/// file name built from a hash and a mode names that very hash, unless the
/// hash is empty or starts with a dot, which would make it bookkeeping.
pub proof fn law_object_name_roundtrip(hash: Seq<char>, mode: u32)
    requires
        hash.len() > 0,
        hash[0] != '.',
    ensures
        object_name_kind(object_name(hash, mode)) == Ok::<Option<Seq<char>>, ErrorView>(
            Some(hash),
        ),
{
    reveal_strlit(".");
    let o = oct((mode % 4096) as nat);
    let n = object_name(hash, mode);
    crate::text::lemma_octal_digits((mode % 4096) as nat);
    assert(n[0] == hash[0]);
    assert(n[hash.len() as int] == '.');
    lemma_last_dot(n);
    assert forall|k: int| hash.len() < k < n.len() implies #[trigger] n[k] != '.' by {
        assert(n[k] == o[k - hash.len() - 1]);
    }
    if last_dot(n) < hash.len() {
        assert(n[hash.len() as int] != '.');
    }
    assert(n.take(hash.len() as int) =~= hash);
}

} // verus!
