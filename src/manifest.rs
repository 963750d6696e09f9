//! Generating a manifest from the entries of a walked tree.
//!
//! A manifest holds one line per entry: `d` for a directory or `f` for a
//! file, followed at once by the entry's path relative to the root, with
//! `'/'` between names. Each line ends with a newline.
use crate::exclude::{excluded_by, keep_name, Exclusion};
use crate::text::chars_of;
use crate::url::manifest_name;
use vstd::prelude::*;

verus! {

/// An entry that a walk of the tree found below its root.
#[derive(Debug, Clone, PartialEq, Eq)]
pub struct WalkEntry {
    /// The names from the root down to the entry itself, one per level.
    pub names: Vec<String>,
    /// Whether the entry is a directory.
    pub is_dir: bool,
}

/// The names of `e`, as text.
pub open spec fn names_of(e: WalkEntry) -> Seq<Seq<char>> {
    e.names@.map_values(|s: String| s@)
}

/// The names `ns` with `'/'` between them.
pub open spec fn join_spec(ns: Seq<Seq<char>>) -> Seq<char>
    decreases ns.len(),
{
    if ns.len() == 0 {
        Seq::empty()
    } else if ns.len() == 1 {
        ns[0]
    } else {
        join_spec(ns.drop_last()) + seq!['/'] + ns.last()
    }
}

/// The tag of an entry's line.
pub open spec fn tag(is_dir: bool) -> char {
    if is_dir {
        'd'
    } else {
        'f'
    }
}

/// The path of `e` relative to the root.
pub open spec fn path_of(e: WalkEntry) -> Seq<char> {
    join_spec(names_of(e))
}

/// The manifest line of `e`.
pub open spec fn line_of(e: WalkEntry) -> Seq<char> {
    seq![tag(e.is_dir)] + path_of(e)
}

/// Whether `e` or one of the directories above it has a name that `ex`
/// drops: the walk prunes such a directory with everything beneath it.
pub open spec fn pruned(ex: &Option<Exclusion>, e: WalkEntry) -> bool {
    exists|i: int| 0 <= i < e.names@.len() && excluded_by(ex, #[trigger] e.names@[i]@)
}

/// Whether `e` is the manifest itself, at the root of the tree.
pub open spec fn is_root_manifest(e: WalkEntry) -> bool {
    names_of(e) == seq![manifest_name()]
}

/// Whether `e` has a line in the manifest.
pub open spec fn listed(ex: &Option<Exclusion>, e: WalkEntry) -> bool {
    !pruned(ex, e) && !is_root_manifest(e)
}

/// The lines of the manifest of the walked entries `es`, in walk order.
pub open spec fn manifest_spec(ex: &Option<Exclusion>, es: Seq<WalkEntry>) -> Seq<Seq<char>>
    decreases es.len(),
{
    if es.len() == 0 {
        Seq::empty()
    } else {
        let rest = manifest_spec(ex, es.drop_last());
        if listed(ex, es.last()) {
            rest.push(line_of(es.last()))
        } else {
            rest
        }
    }
}

/// `lines`, each followed by a newline.
pub open spec fn text_spec(lines: Seq<Seq<char>>) -> Seq<char>
    decreases lines.len(),
{
    if lines.len() == 0 {
        Seq::empty()
    } else {
        text_spec(lines.drop_last()) + lines.last() + seq!['\n']
    }
}

/// The text of each string in `v`.
pub open spec fn texts(v: Seq<String>) -> Seq<Seq<char>> {
    v.map_values(|s: String| s@)
}

/// Whether `s` is the manifest's own name.
pub fn is_manifest_name(s: &str) -> (r: bool)
    ensures
        r == (s@ == manifest_name()),
{
    let v = chars_of(s);
    let r = v.len() == 9 && v[0] == 'd' && v[1] == 'l' && v[2] == 'd' && v[3] == 'i' && v[4]
        == 'r' && v[5] == '.' && v[6] == 't' && v[7] == 'x' && v[8] == 't';
    proof {
        if r {
            assert(v@ =~= manifest_name());
        } else if v@ == manifest_name() {
            assert(v@[0] == manifest_name()[0]);
        }
    }
    r
}

/// The path of `entry` relative to the root, with `'/'` between names.
pub fn entry_path(entry: &WalkEntry) -> (r: String)
    ensures
        r@ == path_of(*entry),
{
    let mut r = String::new();
    let mut i: usize = 0;
    while i < entry.names.len()
        invariant
            i <= entry.names@.len(),
            r@ == join_spec(names_of(*entry).take(i as int)),
        decreases entry.names@.len() - i,
    {
        let ghost ns = names_of(*entry).take(i as int + 1);
        assert(ns.drop_last() =~= names_of(*entry).take(i as int));
        if i > 0 {
            r.append("/");
            proof {
                reveal_strlit("/");
            }
        }
        r.append(entry.names[i].as_str());
        assert(r@ =~= join_spec(ns));
        i = i + 1;
    }
    assert(names_of(*entry).take(i as int) =~= names_of(*entry));
    r
}

/// The manifest line of `entry`: its tag, then its path.
pub fn entry_line(entry: &WalkEntry) -> (r: String)
    ensures
        r@ == line_of(*entry),
{
    let mut r = if entry.is_dir {
        String::from_str("d")
    } else {
        String::from_str("f")
    };
    proof {
        reveal_strlit("d");
        reveal_strlit("f");
    }
    let p = entry_path(entry);
    r.append(p.as_str());
    assert(r@ =~= line_of(*entry));
    r
}

/// Whether `entry` or a directory above it has a name that `excluded` drops.
pub fn is_pruned(excluded: &Option<Exclusion>, entry: &WalkEntry) -> (r: bool)
    ensures
        r == pruned(excluded, *entry),
{
    let mut i: usize = 0;
    while i < entry.names.len()
        invariant
            i <= entry.names@.len(),
            forall|j: int| 0 <= j < i ==> !excluded_by(excluded, #[trigger] entry.names@[j]@),
        decreases entry.names@.len() - i,
    {
        if !keep_name(excluded, entry.names[i].as_str()) {
            return true;
        }
        i = i + 1;
    }
    false
}

/// Whether `entry` has a line in the manifest: neither pruned by `excluded`
/// nor the manifest itself at the root.
pub fn is_listed(excluded: &Option<Exclusion>, entry: &WalkEntry) -> (r: bool)
    ensures
        r == listed(excluded, *entry),
{
    let own = entry.names.len() == 1 && is_manifest_name(entry.names[0].as_str());
    proof {
        if own {
            assert(names_of(*entry) =~= seq![manifest_name()]);
        } else if names_of(*entry) == seq![manifest_name()] {
            assert(names_of(*entry).len() == 1);
            assert(names_of(*entry)[0] == entry.names@[0]@);
        }
    }
    !own && !is_pruned(excluded, entry)
}

/// The manifest lines of the walked entries `entries`, in walk order: one for
/// each entry that is neither pruned by `excluded` nor the manifest itself.
pub fn manifest_lines(entries: &Vec<WalkEntry>, excluded: &Option<Exclusion>) -> (r: Vec<String>)
    ensures
        texts(r@) == manifest_spec(excluded, entries@),
{
    let mut r: Vec<String> = Vec::new();
    let mut i: usize = 0;
    while i < entries.len()
        invariant
            i <= entries@.len(),
            texts(r@) == manifest_spec(excluded, entries@.take(i as int)),
        decreases entries@.len() - i,
    {
        let ghost before = r@;
        assert(entries@.take(i as int + 1).drop_last() =~= entries@.take(i as int));
        if is_listed(excluded, &entries[i]) {
            r.push(entry_line(&entries[i]));
            assert(texts(r@) =~= texts(before).push(line_of(entries@[i as int])));
        }
        i = i + 1;
    }
    assert(entries@.take(i as int) =~= entries@);
    r
}

/// The manifest text of `lines`: each line followed by a newline.
pub fn manifest_text(lines: &Vec<String>) -> (r: String)
    ensures
        r@ == text_spec(texts(lines@)),
{
    let mut r = String::new();
    let mut i: usize = 0;
    while i < lines.len()
        invariant
            i <= lines@.len(),
            r@ == text_spec(texts(lines@).take(i as int)),
        decreases lines@.len() - i,
    {
        assert(texts(lines@).take(i as int + 1).drop_last() =~= texts(lines@).take(i as int));
        r.append(lines[i].as_str());
        r.append("\n");
        proof {
            reveal_strlit("\n");
        }
        i = i + 1;
    }
    assert(texts(lines@).take(i as int) =~= texts(lines@));
    r
}

/// The manifest of the walked entries `entries`.
pub fn generate_manifest(entries: &Vec<WalkEntry>, excluded: &Option<Exclusion>) -> (r: String)
    ensures
        r@ == text_spec(manifest_spec(excluded, entries@)),
{
    let lines = manifest_lines(entries, excluded);
    manifest_text(&lines)
}

} // verus!
