//! What holds of generating a manifest and of reading one back.
use crate::exclude::{excluded_by, Exclusion};
use crate::fetch::{lines_spec, pieces, step_spec, Step};
use crate::manifest::{
    is_root_manifest, join_spec, line_of, listed, manifest_spec, names_of, path_of, pruned, tag,
    text_spec, WalkEntry,
};
use crate::text::{space_char, trim_end_spec, trim_spec, trim_start_spec};
use crate::url::manifest_name;
use vstd::prelude::*;

verus! {

/// Whether the entry `e` names itself in a way that survives a manifest
/// line: it has names, none holds a newline, and the last one is not empty
/// and does not end in white space.
pub open spec fn well_named(e: WalkEntry) -> bool {
    let ns = names_of(e);
    &&& ns.len() >= 1
    &&& forall|i: int, j: int| 0 <= i < ns.len() && 0 <= j < ns[i].len() ==> #[trigger] ns[i][j] != '\n'
    &&& ns.last().len() > 0
    &&& !space_char(ns.last().last())
}

/// What downloading should do for the entry `e`.
pub open spec fn intended_step(e: WalkEntry) -> Step {
    if e.is_dir {
        Step::MakeDir(path_of(e))
    } else {
        Step::Fetch(path_of(e))
    }
}

/// What downloading should do for the entries `es` of a tree, in walk order:
/// create each directory and fetch each file, all but the manifest itself.
pub open spec fn requested(es: Seq<WalkEntry>) -> Seq<Step>
    decreases es.len(),
{
    if es.len() == 0 {
        Seq::empty()
    } else if is_root_manifest(es.last()) {
        requested(es.drop_last())
    } else {
        requested(es.drop_last()).push(intended_step(es.last()))
    }
}

proof fn lemma_pieces_nonempty(s: Seq<char>)
    ensures
        pieces(s).len() >= 1,
    decreases s.len(),
{
    if s.len() > 0 {
        lemma_pieces_nonempty(s.drop_last());
    }
}

proof fn lemma_pieces_append(s: Seq<char>, l: Seq<char>)
    requires
        forall|j: int| 0 <= j < l.len() ==> l[j] != '\n',
    ensures
        pieces(s + l) == pieces(s).update(pieces(s).len() - 1, pieces(s).last() + l),
    decreases l.len(),
{
    lemma_pieces_nonempty(s);
    let p = pieces(s);
    if l.len() == 0 {
        assert(s + l =~= s);
        assert(p.update(p.len() - 1, p.last() + l) =~= p);
    } else {
        let l0 = l.drop_last();
        lemma_pieces_append(s, l0);
        assert((s + l).drop_last() =~= s + l0);
        assert((s + l).last() == l.last());
        assert((p.last() + l0).push(l.last()) =~= p.last() + l);
        assert(pieces(s + l) =~= p.update(p.len() - 1, p.last() + l));
    }
}

proof fn lemma_pieces_of_text(ls: Seq<Seq<char>>)
    requires
        forall|i: int, j: int| 0 <= i < ls.len() && 0 <= j < ls[i].len() ==> #[trigger] ls[i][j] != '\n',
    ensures
        pieces(text_spec(ls)) == ls.push(Seq::empty()),
    decreases ls.len(),
{
    if ls.len() == 0 {
        assert(pieces(text_spec(ls)) =~= ls.push(Seq::empty()));
    } else {
        let front = ls.drop_last();
        let l = ls.last();
        assert forall|i: int, j: int| 0 <= i < front.len() && 0 <= j < front[i].len() implies #[trigger] front[i][j] != '\n' by {
            assert(front[i] == ls[i]);
        }
        lemma_pieces_of_text(front);
        assert forall|j: int| 0 <= j < l.len() implies l[j] != '\n' by {
            assert(ls[ls.len() - 1][j] != '\n');
        }
        let t = text_spec(front);
        lemma_pieces_append(t, l);
        assert(pieces(t + l) =~= ls);
        let full = text_spec(ls);
        assert(full.drop_last() =~= t + l);
        assert(full.last() == '\n');
        assert(pieces(full) =~= ls.push(Seq::empty()));
    }
}

/// Splitting the text of lines that hold no newline gives those lines back.
pub proof fn lemma_lines_of_text(ls: Seq<Seq<char>>)
    requires
        forall|i: int, j: int| 0 <= i < ls.len() && 0 <= j < ls[i].len() ==> #[trigger] ls[i][j] != '\n',
    ensures
        lines_spec(text_spec(ls)) == ls,
{
    lemma_pieces_of_text(ls);
    assert(ls.push(Seq::empty()).drop_last() =~= ls);
}

proof fn lemma_join_last(ns: Seq<Seq<char>>)
    requires
        ns.len() >= 1,
        ns.last().len() > 0,
    ensures
        join_spec(ns).len() > 0,
        join_spec(ns).last() == ns.last().last(),
{
}

proof fn lemma_join_no_newline(ns: Seq<Seq<char>>)
    requires
        forall|i: int, j: int| 0 <= i < ns.len() && 0 <= j < ns[i].len() ==> #[trigger] ns[i][j] != '\n',
    ensures
        forall|j: int| 0 <= j < join_spec(ns).len() ==> join_spec(ns)[j] != '\n',
    decreases ns.len(),
{
    if ns.len() >= 2 {
        let front = ns.drop_last();
        assert forall|i: int, j: int| 0 <= i < front.len() && 0 <= j < front[i].len() implies #[trigger] front[i][j] != '\n' by {
            assert(front[i] == ns[i]);
        }
        lemma_join_no_newline(front);
        let a = join_spec(front);
        let l = ns.last();
        assert forall|j: int| 0 <= j < join_spec(ns).len() implies join_spec(ns)[j] != '\n' by {
            if j >= a.len() + 1 {
                assert(join_spec(ns)[j] == l[j - a.len() - 1]);
                assert(ns[ns.len() - 1][j - a.len() - 1] != '\n');
            } else if j < a.len() {
                assert(join_spec(ns)[j] == a[j]);
            }
        }
    } else if ns.len() == 1 {
        assert forall|j: int| 0 <= j < join_spec(ns).len() implies join_spec(ns)[j] != '\n' by {
            assert(ns[0][j] != '\n');
        }
    }
}

proof fn lemma_step_of_line(e: WalkEntry)
    requires
        well_named(e),
    ensures
        step_spec(&None, line_of(e)) == intended_step(e),
        forall|j: int| 0 <= j < line_of(e).len() ==> line_of(e)[j] != '\n',
{
    let l = line_of(e);
    let ns = names_of(e);
    lemma_join_last(ns);
    lemma_join_no_newline(ns);
    assert(l[0] == tag(e.is_dir));
    assert(!space_char('d') && !space_char('f'));
    assert(trim_start_spec(l) == l);
    assert(l.last() == join_spec(ns).last());
    assert(trim_end_spec(l) == l);
    assert(trim_spec(l) == l);
    assert(l.drop_first() =~= path_of(e));
    assert forall|j: int| 0 <= j < l.len() implies l[j] != '\n' by {
        if j > 0 {
            assert(l[j] == join_spec(ns)[j - 1]);
        }
    }
}

proof fn lemma_steps_of_manifest(es: Seq<WalkEntry>)
    requires
        forall|i: int| 0 <= i < es.len() ==> well_named(#[trigger] es[i]),
    ensures
        manifest_spec(&None, es).map_values(|l: Seq<char>| step_spec(&None, l)) == requested(es),
        forall|k: int, j: int|
            0 <= k < manifest_spec(&None, es).len() && 0 <= j < manifest_spec(&None, es)[k].len()
                ==> #[trigger] manifest_spec(&None, es)[k][j] != '\n',
    decreases es.len(),
{
    if es.len() > 0 {
        let front = es.drop_last();
        assert forall|i: int| 0 <= i < front.len() implies well_named(#[trigger] front[i]) by {
            assert(front[i] == es[i]);
        }
        lemma_steps_of_manifest(front);
        let e = es.last();
        assert(well_named(es[es.len() - 1]));
        assert(!pruned(&None, e));
        let m0 = manifest_spec(&None, front);
        if !is_root_manifest(e) {
            lemma_step_of_line(e);
            let m = m0.push(line_of(e));
            assert(manifest_spec(&None, es) == m);
            assert(m.map_values(|l: Seq<char>| step_spec(&None, l)) =~= m0.map_values(
                |l: Seq<char>| step_spec(&None, l),
            ).push(intended_step(e)));
            assert forall|k: int, j: int| 0 <= k < m.len() && 0 <= j < m[k].len() implies #[trigger] m[k][j] != '\n' by {
                if k < m0.len() {
                    assert(m[k] == m0[k]);
                }
            }
        }
    }
}

/// With no exclusion, reading back the manifest generated for a tree asks,
/// line by line and in walk order, to create each directory of the tree and
/// to fetch each of its files, all at their paths: the download rebuilds the
/// tree. This holds for entries whose names hold no newline and whose last
/// name does not end in white space, which trimming would cut.
pub proof fn lemma_round_trip(es: Seq<WalkEntry>)
    requires
        forall|i: int| 0 <= i < es.len() ==> well_named(#[trigger] es[i]),
    ensures
        lines_spec(text_spec(manifest_spec(&None, es))).map_values(
            |l: Seq<char>| step_spec(&None, l),
        ) == requested(es),
{
    lemma_steps_of_manifest(es);
    lemma_lines_of_text(manifest_spec(&None, es));
}

/// Every line of a generated manifest is the line of a walked entry that is
/// listed: neither it nor any directory above it has an excluded name, and it
/// is not the manifest itself.
pub proof fn lemma_lines_from_listed(ex: &Option<Exclusion>, es: Seq<WalkEntry>, k: int)
    requires
        0 <= k < manifest_spec(ex, es).len(),
    ensures
        exists|j: int|
            0 <= j < es.len() && listed(ex, #[trigger] es[j]) && manifest_spec(ex, es)[k]
                == line_of(es[j]),
    decreases es.len(),
{
    let front = es.drop_last();
    let m0 = manifest_spec(ex, front);
    if k < m0.len() {
        lemma_lines_from_listed(ex, front, k);
        let j = choose|j: int|
            0 <= j < front.len() && listed(ex, #[trigger] front[j]) && m0[k] == line_of(front[j]);
        assert(es[j] == front[j]);
        if listed(ex, es.last()) {
            assert(manifest_spec(ex, es)[k] == m0[k]);
        }
    } else {
        assert(es[es.len() - 1] == es.last());
    }
}

/// An entry whose name, or the name of a directory above it, the exclusion
/// pattern matches has no line in the generated manifest: a matched directory
/// takes everything beneath it along. The walk lists each entry once, so no
/// two entries share a line.
pub proof fn lemma_pruned_entries_omitted(ex: &Option<Exclusion>, es: Seq<WalkEntry>, j: int, i: int)
    requires
        0 <= j < es.len(),
        0 <= i < es[j].names@.len(),
        excluded_by(ex, es[j].names@[i]@),
        forall|a: int, b: int|
            0 <= a < es.len() && 0 <= b < es.len() && a != b ==> line_of(#[trigger] es[a]) != line_of(
                #[trigger] es[b],
            ),
    ensures
        !manifest_spec(ex, es).contains(line_of(es[j])),
{
    assert(pruned(ex, es[j]));
    if manifest_spec(ex, es).contains(line_of(es[j])) {
        let k = choose|k: int|
            0 <= k < manifest_spec(ex, es).len() && manifest_spec(ex, es)[k] == line_of(es[j]);
        lemma_lines_from_listed(ex, es, k);
        let j2 = choose|j2: int|
            0 <= j2 < es.len() && listed(ex, #[trigger] es[j2]) && manifest_spec(ex, es)[k]
                == line_of(es[j2]);
        assert(j2 != j);
    }
}

/// Whether no name of `ns` holds a `'/'`.
pub open spec fn names_without_slash(ns: Seq<Seq<char>>) -> bool {
    forall|i: int, j: int| 0 <= i < ns.len() && 0 <= j < ns[i].len() ==> #[trigger] ns[i][j] != '/'
}

/// Whether the path `path` lies beneath the directory path `dir`: it starts
/// with `dir` and a `'/'`.
pub open spec fn beneath(path: Seq<char>, dir: Seq<char>) -> bool {
    dir.len() + 1 <= path.len() && path.subrange(0, dir.len() + 1int) == dir + seq!['/']
}

proof fn lemma_join_front(ns: Seq<Seq<char>>)
    requires
        ns.len() >= 2,
    ensures
        join_spec(ns) == ns[0] + seq!['/'] + join_spec(ns.drop_first()),
    decreases ns.len(),
{
    if ns.len() > 2 {
        lemma_join_front(ns.drop_last());
        assert(ns.drop_last().drop_first() =~= ns.drop_first().drop_last());
        assert(ns.drop_last()[0] == ns[0]);
        assert(ns.drop_first().last() == ns.last());
        assert(join_spec(ns) =~= ns[0] + seq!['/'] + join_spec(ns.drop_first()));
    } else {
        assert(ns.drop_last() =~= seq![ns[0]]);
        assert(ns.drop_first() =~= seq![ns[1]]);
        assert(join_spec(ns.drop_last()) == ns[0]);
        assert(join_spec(ns.drop_first()) == ns[1]);
        assert(join_spec(ns) =~= ns[0] + seq!['/'] + join_spec(ns.drop_first()));
    }
}

proof fn lemma_join_prefix(ns: Seq<Seq<char>>, ds: Seq<Seq<char>>)
    requires
        names_without_slash(ns),
        names_without_slash(ds),
        ds.len() >= 1,
        beneath(join_spec(ns), join_spec(ds)),
    ensures
        ds.len() < ns.len(),
        ns.take(ds.len() as int) == ds,
    decreases ds.len(),
{
    let sn = join_spec(ns);
    let p = join_spec(ds) + seq!['/'];
    let b = ds[0].len() as int;
    if ds.len() >= 2 {
        lemma_join_front(ds);
    }
    assert(p[b] == '/');
    assert(sn[b] == p[b]);
    assert(ns.len() >= 1);
    if ns.len() == 1 {
        assert(sn[b] == ns[0][b]);
        assert(false);
    }
    lemma_join_front(ns);
    let a = ns[0].len() as int;
    if a < b {
        assert(sn[a] == '/');
        assert(p[a] == ds[0][a]);
        assert(false);
    } else if b < a {
        assert(sn[b] == ns[0][b]);
        assert(false);
    }
    assert(ns[0] =~= ds[0]) by {
        assert forall|j: int| 0 <= j < a implies ns[0][j] == ds[0][j] by {
            assert(sn[j] == ns[0][j]);
            assert(p[j] == ds[0][j]);
        }
    }
    if ds.len() >= 2 {
        let ns1 = ns.drop_first();
        let ds1 = ds.drop_first();
        assert(names_without_slash(ns1)) by {
            assert forall|i: int, j: int| 0 <= i < ns1.len() && 0 <= j < ns1[i].len() implies #[trigger] ns1[i][j] != '/' by {
                assert(ns1[i] == ns[i + 1]);
            }
        }
        assert(names_without_slash(ds1)) by {
            assert forall|i: int, j: int| 0 <= i < ds1.len() && 0 <= j < ds1[i].len() implies #[trigger] ds1[i][j] != '/' by {
                assert(ds1[i] == ds[i + 1]);
            }
        }
        let q = join_spec(ds1).len() + 1int;
        assert(join_spec(ds) =~= ds[0] + seq!['/'] + join_spec(ds1));
        assert(sn =~= ns[0] + seq!['/'] + join_spec(ns1));
        assert(join_spec(ns1).subrange(0, q) =~= join_spec(ds1) + seq!['/']) by {
            assert forall|j: int| 0 <= j < q implies join_spec(ns1).subrange(0, q)[j] == (join_spec(ds1) + seq!['/'])[j] by {
                assert(sn[a + 1 + j] == join_spec(ns1)[j]);
                assert(p[a + 1 + j] == (join_spec(ds1) + seq!['/'])[j]);
                assert(sn.subrange(0, join_spec(ds).len() + 1int)[a + 1 + j] == sn[a + 1 + j]);
                assert(sn.subrange(0, join_spec(ds).len() + 1int)[a + 1 + j] == p[a + 1 + j]);
            }
        }
        lemma_join_prefix(ns1, ds1);
        assert(ns.take(ds.len() as int) =~= ds) by {
            assert forall|i: int| 0 <= i < ds.len() implies ns.take(ds.len() as int)[i] == ds[i] by {
                if i > 0 {
                    assert(ns1.take(ds1.len() as int)[i - 1] == ds1[i - 1]);
                }
            }
        }
    } else {
        assert(ns.take(1) =~= ds);
    }
}

/// No line of a generated manifest has a path beneath a directory whose
/// name the exclusion pattern matches: for the path `ds` of such a
/// directory, no line's path starts with that path and a `'/'`. This holds
/// where no name holds a `'/'`, as no name that a walk gives does.
pub proof fn lemma_excluded_directory_subtree_omitted(
    ex: &Option<Exclusion>,
    es: Seq<WalkEntry>,
    ds: Seq<Seq<char>>,
    k: int,
)
    requires
        ds.len() >= 1,
        excluded_by(ex, ds.last()),
        names_without_slash(ds),
        forall|i: int| 0 <= i < es.len() ==> names_without_slash(names_of(#[trigger] es[i])),
        0 <= k < manifest_spec(ex, es).len(),
    ensures
        !beneath(manifest_spec(ex, es)[k].drop_first(), join_spec(ds)),
{
    lemma_lines_from_listed(ex, es, k);
    let j = choose|j: int|
        0 <= j < es.len() && listed(ex, #[trigger] es[j]) && manifest_spec(ex, es)[k] == line_of(
            es[j],
        );
    let ns = names_of(es[j]);
    assert(line_of(es[j]).drop_first() =~= path_of(es[j]));
    if beneath(join_spec(ns), join_spec(ds)) {
        assert(names_without_slash(ns));
        lemma_join_prefix(ns, ds);
        let i = ds.len() - 1;
        assert(ns.take(ds.len() as int)[i] == ns[i]);
        assert(ns[i] == es[j].names@[i]@);
        assert(pruned(ex, es[j]));
    }
}

proof fn lemma_join_one_name(ns: Seq<Seq<char>>)
    requires
        join_spec(ns) == manifest_name(),
    ensures
        ns == seq![manifest_name()],
{
    if ns.len() >= 2 {
        let m = join_spec(ns.drop_last()).len() as int;
        let n = manifest_name();
        assert(join_spec(ns)[m] == '/');
        assert(n =~= seq!['d', 'l', 'd', 'i', 'r', '.', 't', 'x', 't']);
        assert(n[0] != '/' && n[1] != '/' && n[2] != '/' && n[3] != '/' && n[4] != '/' && n[5]
            != '/' && n[6] != '/' && n[7] != '/' && n[8] != '/');
        assert(0 <= m < 9);
    } else if ns.len() == 0 {
        assert(manifest_name().len() == 9);
    } else {
        assert(ns =~= seq![manifest_name()]);
    }
}

/// No line of a generated manifest names `dldir.txt` at the root of the tree.
pub proof fn lemma_manifest_never_lists_itself(ex: &Option<Exclusion>, es: Seq<WalkEntry>, k: int)
    requires
        0 <= k < manifest_spec(ex, es).len(),
    ensures
        manifest_spec(ex, es)[k].drop_first() != manifest_name(),
{
    lemma_lines_from_listed(ex, es, k);
    let j = choose|j: int|
        0 <= j < es.len() && listed(ex, #[trigger] es[j]) && manifest_spec(ex, es)[k] == line_of(
            es[j],
        );
    assert(line_of(es[j]).drop_first() =~= path_of(es[j]));
    if path_of(es[j]) == manifest_name() {
        lemma_join_one_name(names_of(es[j]));
    }
}

/// A manifest line whose trimmed text the exclusion pattern matches asks for
/// nothing: no directory is made and nothing is fetched for it.
pub proof fn lemma_excluded_line_skipped(ex: &Option<Exclusion>, line: Seq<char>)
    requires
        excluded_by(ex, trim_spec(line)),
    ensures
        step_spec(ex, line) == Step::Skip,
{
}

} // verus!
