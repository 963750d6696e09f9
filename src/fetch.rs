//! Reading a fetched manifest: its lines, and what each line asks for.
use crate::exclude::{excluded_by, keep_name, Exclusion};
use crate::manifest::texts;
use crate::text::{chars_of, string_of, trim, trim_spec};
use vstd::prelude::*;

verus! {

/// The pieces of `s` between newlines; there is one more piece than there
/// are newlines.
pub open spec fn pieces(s: Seq<char>) -> Seq<Seq<char>>
    decreases s.len(),
{
    if s.len() == 0 {
        seq![Seq::empty()]
    } else {
        let p = pieces(s.drop_last());
        if s.last() == '\n' {
            p.push(Seq::empty())
        } else {
            p.update(p.len() - 1, p.last().push(s.last()))
        }
    }
}

/// The lines of `s`: its pieces between newlines, but for an empty piece
/// after the last newline.
pub open spec fn lines_spec(s: Seq<char>) -> Seq<Seq<char>> {
    let p = pieces(s);
    if p.last().len() == 0 {
        p.drop_last()
    } else {
        p
    }
}

/// The lines of the manifest text `text`, in order, without their newlines.
pub fn split_lines(text: &str) -> (r: Vec<String>)
    ensures
        texts(r@) == lines_spec(text@),
{
    let v = chars_of(text);
    let n = v.len();
    let mut r: Vec<String> = Vec::new();
    let mut start: usize = 0;
    let mut i: usize = 0;
    assert(v@.take(0) =~= Seq::<char>::empty());
    assert(texts(r@).push(v@.subrange(0, 0)) =~= seq![Seq::<char>::empty()]);
    while i < n
        invariant
            start <= i <= n == v@.len(),
            pieces(v@.take(i as int)) == texts(r@).push(v@.subrange(start as int, i as int)),
        decreases n - i,
    {
        assert(v@.take(i as int + 1).drop_last() =~= v@.take(i as int));
        assert(v@.take(i as int + 1).last() == v@[i as int]);
        assert(v@.subrange(start as int, i as int + 1) =~= v@.subrange(start as int, i as int).push(
            v@[i as int],
        ));
        assert(v@.subrange(i as int + 1, i as int + 1) =~= Seq::<char>::empty());
        let ghost before = r@;
        if v[i] == '\n' {
            r.push(string_of(&v.as_slice()[start..i]));
            assert(texts(r@) =~= texts(before).push(v@.subrange(start as int, i as int)));
            start = i + 1;
            assert(pieces(v@.take(i as int + 1)) =~= texts(r@).push(
                v@.subrange(start as int, i as int + 1),
            ));
        } else {
            assert(pieces(v@.take(i as int + 1)) =~= texts(r@).push(
                v@.subrange(start as int, i as int + 1),
            ));
        }
        i = i + 1;
    }
    assert(v@.take(n as int) =~= v@);
    if start < n {
        let ghost before = r@;
        r.push(string_of(&v.as_slice()[start..n]));
        assert(texts(r@) =~= texts(before).push(v@.subrange(start as int, n as int)));
    } else {
        assert(texts(r@).push(v@.subrange(start as int, n as int)).drop_last() =~= texts(r@));
    }
    r
}

/// What a manifest line asks for, in terms of text.
pub enum Step {
    /// Nothing: the line is empty or excluded.
    Skip,
    /// Create the directory at this path.
    MakeDir(Seq<char>),
    /// Fetch the file at this path.
    Fetch(Seq<char>),
    /// The line starts with no known tag.
    Unknown,
}

/// What the manifest line `line` asks for: it is trimmed of white space;
/// an empty or excluded line asks for nothing; otherwise its first character
/// says what the rest of it names.
pub open spec fn step_spec(ex: &Option<Exclusion>, line: Seq<char>) -> Step {
    let t = trim_spec(line);
    if excluded_by(ex, t) || t.len() == 0 {
        Step::Skip
    } else if t[0] == 'd' {
        Step::MakeDir(t.drop_first())
    } else if t[0] == 'f' {
        Step::Fetch(t.drop_first())
    } else {
        Step::Unknown
    }
}

/// What a manifest line asks the downloader to do.
#[derive(Debug, Clone, PartialEq, Eq)]
pub enum Action {
    /// Nothing.
    Skip,
    /// Create the directory at this path, unless it is there already.
    MakeDir(String),
    /// Fetch the file at this path and write it there.
    Fetch(String),
}

/// A non-empty manifest line that starts with no known tag.
#[derive(Debug, Clone, PartialEq, Eq)]
pub struct UnknownKind {
    /// The line, trimmed.
    pub line: String,
}

/// The step that the outcome `r` of a line stands for.
pub open spec fn step_of(r: Result<Action, UnknownKind>) -> Step {
    match r {
        Ok(Action::Skip) => Step::Skip,
        Ok(Action::MakeDir(p)) => Step::MakeDir(p@),
        Ok(Action::Fetch(p)) => Step::Fetch(p@),
        Err(_) => Step::Unknown,
    }
}

/// What the manifest line `line` asks for, with `excluded` applied to the
/// whole trimmed line; a line with an unknown tag is an error.
pub fn line_action(line: &str, excluded: &Option<Exclusion>) -> (r: Result<Action, UnknownKind>)
    ensures
        step_of(r) == step_spec(excluded, line@),
        r matches Err(e) ==> e.line@ == trim_spec(line@),
{
    let t = trim(line);
    if !keep_name(excluded, t.as_str()) {
        return Ok(Action::Skip);
    }
    let v = chars_of(t.as_str());
    if v.len() == 0 {
        return Ok(Action::Skip);
    }
    let rest = string_of(&v.as_slice()[1..v.len()]);
    assert(rest@ =~= t@.drop_first());
    if v[0] == 'd' {
        Ok(Action::MakeDir(rest))
    } else if v[0] == 'f' {
        Ok(Action::Fetch(rest))
    } else {
        Err(UnknownKind { line: t })
    }
}

} // verus!
