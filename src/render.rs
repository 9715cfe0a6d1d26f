use vstd::prelude::*;
use vstd::string::*;

use crate::entry::{comps, Entry};

verus! {

/// The path of the directory that holds the entry at path `p`.
pub open spec fn parent(p: Seq<Seq<char>>) -> Seq<Seq<char>> {
    p.drop_last()
}

/// The paths of a list of entries, in list order.
pub open spec fn paths(l: Seq<Entry>) -> Seq<Seq<Seq<char>>> {
    Seq::new(l.len(), |i: int| l[i]@.0)
}

/// Whether every entry of the list names something below the root.
pub open spec fn all_wf(l: Seq<Entry>) -> bool {
    forall|i: int| 0 <= i < l.len() ==> (#[trigger] l[i]).wf()
}

/// Whether `p` is the last, in list order, of the paths in `ps` that share
/// its parent: it occurs in `ps`, and no path after that occurrence has the
/// same parent.
pub open spec fn last_sibling(p: Seq<Seq<char>>, ps: Seq<Seq<Seq<char>>>) -> bool {
    exists|j: int|
        0 <= j < ps.len() && #[trigger] ps[j] == p && forall|k: int|
            j < k < ps.len() ==> parent(#[trigger] ps[k]) != parent(p)
}

/// One column of indentation: a bar where the ancestor of that column has
/// siblings still to come, blank where it was the last.
pub open spec fn segment(last: bool) -> Seq<char> {
    if last {
        seq![' ', ' ', ' ', ' ']
    } else {
        seq!['│', ' ', ' ', ' ']
    }
}

/// The indentation for the first `n` ancestors of `p`, nearest the root first.
pub open spec fn indent(p: Seq<Seq<char>>, ps: Seq<Seq<Seq<char>>>, n: nat) -> Seq<char>
    decreases n,
{
    if n == 0 {
        Seq::empty()
    } else {
        indent(p, ps, (n - 1) as nat) + segment(last_sibling(p.take(n as int), ps))
    }
}

/// `d` horizontal box-drawing characters.
pub open spec fn dashes(d: nat) -> Seq<char> {
    Seq::new(d, |i: int| '─')
}

/// A corner glyph for the last sibling, a tee for the others, then the dashes.
pub open spec fn branch(last: bool, d: nat) -> Seq<char> {
    seq![if last { '└' } else { '├' }] + dashes(d)
}

/// A slash after a directory's name, nothing after a file's.
pub open spec fn suffix(is_dir: bool) -> Seq<char> {
    if is_dir {
        seq!['/']
    } else {
        Seq::empty()
    }
}

/// The line drawn for the entry `e` of a listing whose paths are `ps`: the
/// indentation for its ancestors, its branch glyph, a space and its name.
pub open spec fn line(e: (Seq<Seq<char>>, bool), ps: Seq<Seq<Seq<char>>>, d: nat) -> Seq<char> {
    indent(e.0, ps, (e.0.len() - 1) as nat) + branch(last_sibling(e.0, ps), d) + seq![' ']
        + e.0.last() + suffix(e.1)
}

/// Whether the first `na` components of `a` are the first `nb` of `b`.
fn same_prefix(a: &Vec<String>, na: usize, b: &Vec<String>, nb: usize) -> (r: bool)
    requires
        na <= a@.len(),
        nb <= b@.len(),
    ensures
        r == (comps(a@).take(na as int) == comps(b@).take(nb as int)),
{
    if na != nb {
        assert(comps(a@).take(na as int).len() != comps(b@).take(nb as int).len());
        return false;
    }
    let mut i: usize = 0;
    while i < na
        invariant
            na == nb,
            na <= a@.len(),
            nb <= b@.len(),
            i <= na,
            forall|k: int| 0 <= k < i ==> (#[trigger] a@[k])@ == b@[k]@,
        decreases na - i,
    {
        if a[i] != b[i] {
            assert(comps(a@).take(na as int)[i as int] != comps(b@).take(nb as int)[i as int]);
            return false;
        }
        i = i + 1;
    }
    assert(comps(a@).take(na as int) =~= comps(b@).take(nb as int));
    true
}

/// Whether the path made of the first `n` components of `path` is the last
/// of its siblings in `all`.
fn is_last_prefix(path: &Vec<String>, n: usize, all: &Vec<Entry>) -> (r: bool)
    requires
        1 <= n <= path@.len(),
        all_wf(all@),
    ensures
        r == last_sibling(comps(path@).take(n as int), paths(all@)),
{
    let ghost p = comps(path@).take(n as int);
    let ghost ps = paths(all@);
    assert(parent(p) =~= comps(path@).take(n - 1));
    let mut i: usize = all.len();
    while i > 0
        invariant
            i <= all@.len(),
            all_wf(all@),
            1 <= n <= path@.len(),
            p == comps(path@).take(n as int),
            ps == paths(all@),
            parent(p) == comps(path@).take(n - 1),
            forall|k: int| i <= k < ps.len() ==> parent(#[trigger] ps[k]) != parent(p),
        decreases i,
    {
        let c = &all[i - 1].components;
        assert(all@[i - 1].wf());
        let len = c.len();
        assert(parent(ps[i - 1]) =~= comps(c@).take(len - 1));
        if same_prefix(c, len - 1, path, n - 1) {
            let r = same_prefix(c, len, path, n);
            assert(comps(c@).take(len as int) =~= ps[i - 1]);
            proof {
                if !r && last_sibling(p, ps) {
                    let j = choose|j: int|
                        0 <= j < ps.len() && #[trigger] ps[j] == p && forall|k: int|
                            j < k < ps.len() ==> parent(#[trigger] ps[k]) != parent(p);
                    assert(j != i - 1);
                    assert(parent(ps[j]) == parent(p));
                }
            }
            return r;
        }
        i = i - 1;
    }
    proof {
        if last_sibling(p, ps) {
            let j = choose|j: int|
                0 <= j < ps.len() && #[trigger] ps[j] == p && forall|k: int|
                    j < k < ps.len() ==> parent(#[trigger] ps[k]) != parent(p);
            assert(parent(ps[j]) == parent(p));
        }
    }
    false
}

/// Whether `path` is the last, in list order, of the entries of `all_entries`
/// that share its parent.
pub fn is_last_sibling(path: &Vec<String>, all_entries: &Vec<Entry>) -> (r: bool)
    requires
        path@.len() > 0,
        all_wf(all_entries@),
    ensures
        r == last_sibling(comps(path@), paths(all_entries@)),
{
    assert(comps(path@).take(path@.len() as int) =~= comps(path@));
    is_last_prefix(path, path.len(), all_entries)
}

/// The line drawn for `entry` in the listing `all_entries`: one indentation
/// column per ancestor, the branch glyph with `dash_count` dashes, a space,
/// the entry's name, and a slash after a directory's name.
pub fn format_entry(entry: &Entry, all_entries: &Vec<Entry>, dash_count: usize) -> (r: String)
    requires
        entry.wf(),
        all_wf(all_entries@),
    ensures
        r@ == line(entry@, paths(all_entries@), dash_count as nat),
{
    let ghost p = entry@.0;
    let ghost ps = paths(all_entries@);
    let path = &entry.components;
    let depth = path.len() - 1;
    let mut out = String::new();
    let mut d: usize = 0;
    while d < depth
        invariant
            depth == path@.len() - 1,
            p == comps(path@),
            ps == paths(all_entries@),
            all_wf(all_entries@),
            d <= depth,
            out@ == indent(p, ps, d as nat),
        decreases depth - d,
    {
        if is_last_prefix(path, d + 1, all_entries) {
            proof {
                reveal_strlit("    ");
            }
            out.append("    ");
        } else {
            proof {
                reveal_strlit("│   ");
            }
            out.append("│   ");
        }
        d = d + 1;
        assert(out@ =~= indent(p, ps, d as nat));
    }
    let ghost head = out@;
    let last = is_last_sibling(path, all_entries);
    proof {
        reveal_strlit("└");
        reveal_strlit("├");
    }
    if last {
        out.append("└");
    } else {
        out.append("├");
    }
    let mut i: usize = 0;
    while i < dash_count
        invariant
            i <= dash_count,
            out@ == head + branch(last, i as nat),
        decreases dash_count - i,
    {
        proof {
            reveal_strlit("─");
        }
        out.append("─");
        i = i + 1;
        assert(out@ =~= head + branch(last, i as nat));
    }
    proof {
        reveal_strlit(" ");
    }
    out.append(" ");
    out.append(path[depth].as_str());
    if entry.is_dir {
        proof {
            reveal_strlit("/");
        }
        out.append("/");
    }
    assert(out@ =~= line(entry@, ps, dash_count as nat));
    out
}

} // verus!
