use vstd::prelude::*;

use crate::entry::Entry;
use crate::filter::{extension, listed, visible, DisplayOptions};
use crate::listing::{is_listing, selection};
use crate::render::{indent, last_sibling, line, segment};
use crate::tree::tree_text;

verus! {

broadcast use vstd::seq_lib::group_to_multiset_ensures;

/// An entry stands in a listing exactly when it is among the given entries,
/// no skipped directory lies on its path, and the options admit it.
pub proof fn lemma_listing_members(s: Seq<Entry>, entries: Seq<Entry>, o: DisplayOptions)
    requires
        is_listing(s, entries, o),
    ensures
        forall|e: Entry| #[trigger]
            s.contains(e) <==> (entries.contains(e) && visible(e@) && o.admits(e@)),
{
    let f = |e: Entry| visible(e@) && o.admits(e@);
    assert(selection(entries, o) == entries.filter(f));
    assert forall|e: Entry| #[trigger]
        s.contains(e) <==> (entries.contains(e) && visible(e@) && o.admits(e@)) by {
        let sel = entries.filter(f);
        assert(s.to_multiset().count(e) == sel.to_multiset().count(e));
        if sel.contains(e) {
            let i = choose|i: int| 0 <= i < sel.len() && sel[i] == e;
            entries.lemma_filter_pred(f, i);
            entries.lemma_filter_contains_rev(f, e);
        }
        if entries.contains(e) && f(e) {
            let i = choose|i: int| 0 <= i < entries.len() && entries[i] == e;
            entries.lemma_filter_contains(f, i);
        }
    }
}

/// The tree has one line for each selected entry, beside its header.
pub proof fn lemma_line_count(root: Seq<char>, s: Seq<Entry>, entries: Seq<Entry>, o: DisplayOptions)
    requires
        is_listing(s, entries, o),
    ensures
        tree_text(root, s, o.dash_count as nat).len() == selection(entries, o).len() + 1,
{
    assert(s.to_multiset().len() == selection(entries, o).to_multiset().len());
}

/// With only folders listed, every line of the tree ends in a slash.
pub proof fn lemma_folders_only_slashes(
    root: Seq<char>,
    s: Seq<Entry>,
    entries: Seq<Entry>,
    o: DisplayOptions,
)
    requires
        is_listing(s, entries, o),
        o.folders_only,
    ensures
        forall|i: int|
            0 <= i < tree_text(root, s, o.dash_count as nat).len() ==> (#[trigger] tree_text(
                root,
                s,
                o.dash_count as nat,
            )[i]).last() == '/',
{
    lemma_listing_members(s, entries, o);
    let t = tree_text(root, s, o.dash_count as nat);
    assert forall|i: int| 0 <= i < t.len() implies (#[trigger] t[i]).last() == '/' by {
        if i > 0 {
            assert(s.contains(s[i - 1]));
            assert(s[i - 1]@.1);
        }
    }
}

/// Under an allow-list, every file in a listing has an extension that
/// matches an entry of the list, ignoring case.
pub proof fn lemma_allow_list_files(
    s: Seq<Entry>,
    entries: Seq<Entry>,
    o: DisplayOptions,
    l: Seq<Seq<char>>,
)
    requires
        is_listing(s, entries, o),
        o.allow_list() == Some(l),
    ensures
        forall|i: int|
            0 <= i < s.len() && !(#[trigger] s[i])@.1 ==> match extension(s[i]@.0.last()) {
                Some(x) => listed(l, x),
                None => false,
            },
{
    lemma_listing_members(s, entries, o);
    assert forall|i: int| 0 <= i < s.len() && !(#[trigger] s[i])@.1 implies match extension(
        s[i]@.0.last(),
    ) {
        Some(x) => listed(l, x),
        None => false,
    } by {
        assert(s.contains(s[i]));
    }
}

/// No entry of a listing lies in or below a skipped directory, nor is one.
pub proof fn lemma_skipped_dirs_hidden(s: Seq<Entry>, entries: Seq<Entry>, o: DisplayOptions)
    requires
        is_listing(s, entries, o),
    ensures
        forall|i: int| 0 <= i < s.len() ==> visible((#[trigger] s[i])@),
{
    lemma_listing_members(s, entries, o);
    assert forall|i: int| 0 <= i < s.len() implies visible((#[trigger] s[i])@) by {
        assert(s.contains(s[i]));
    }
}

/// Every visible directory is listed, whatever the filters; a file that the
/// options refuse never is.
pub proof fn lemma_directories_kept(s: Seq<Entry>, entries: Seq<Entry>, o: DisplayOptions)
    requires
        is_listing(s, entries, o),
    ensures
        forall|e: Entry|
            entries.contains(e) && e.is_dir && visible(e@) ==> #[trigger] s.contains(e),
        forall|e: Entry| !o.admits(e@) ==> !#[trigger] s.contains(e),
{
    lemma_listing_members(s, entries, o);
}

/// The indentation for `n` ancestors is `n` columns of four characters, the
/// `k`-th drawn for the ancestor made of the first `k + 1` components.
pub proof fn lemma_indent_columns(p: Seq<Seq<char>>, ps: Seq<Seq<Seq<char>>>, n: nat)
    ensures
        indent(p, ps, n).len() == 4 * n,
        forall|k: int|
            0 <= k < n ==> #[trigger] indent(p, ps, n).subrange(4 * k, 4 * k + 4) == segment(
                last_sibling(p.take(k + 1), ps),
            ),
    decreases n,
{
    if n > 0 {
        let m = (n - 1) as nat;
        lemma_indent_columns(p, ps, m);
        let a = indent(p, ps, m);
        let b = segment(last_sibling(p.take(n as int), ps));
        assert forall|k: int| 0 <= k < n implies #[trigger] indent(p, ps, n).subrange(
            4 * k,
            4 * k + 4,
        ) == segment(last_sibling(p.take(k + 1), ps)) by {
            if k < m {
                assert(indent(p, ps, n).subrange(4 * k, 4 * k + 4) =~= a.subrange(4 * k, 4 * k + 4));
            } else {
                assert(indent(p, ps, n).subrange(4 * k, 4 * k + 4) =~= b);
            }
        }
    }
}

/// A line starts with one indentation column for each ancestor below the
/// root, and its branch glyph follows them.
pub proof fn lemma_ancestor_columns(e: (Seq<Seq<char>>, bool), ps: Seq<Seq<Seq<char>>>, d: nat)
    requires
        e.0.len() > 0,
    ensures
        forall|k: int|
            0 <= k < e.0.len() - 1 ==> #[trigger] line(e, ps, d).subrange(4 * k, 4 * k + 4)
                == segment(last_sibling(e.0.take(k + 1), ps)),
        line(e, ps, d)[4 * (e.0.len() - 1)] == '└' || line(e, ps, d)[4 * (e.0.len() - 1)] == '├',
{
    let n = (e.0.len() - 1) as nat;
    lemma_indent_columns(e.0, ps, n);
    let l = line(e, ps, d);
    let ind = indent(e.0, ps, n);
    assert(l.subrange(0, 4 * n as int) =~= ind);
    assert forall|k: int| 0 <= k < n implies #[trigger] l.subrange(4 * k, 4 * k + 4) == segment(
        last_sibling(e.0.take(k + 1), ps),
    ) by {
        assert(l.subrange(4 * k, 4 * k + 4) =~= ind.subrange(4 * k, 4 * k + 4));
    }
}

/// After the indentation, a line holds the corner glyph if the entry is the
/// last of its siblings and the tee glyph otherwise, then exactly `d`
/// dashes, then a space.
pub proof fn lemma_branch_dashes(e: (Seq<Seq<char>>, bool), ps: Seq<Seq<Seq<char>>>, d: nat)
    requires
        e.0.len() > 0,
    ensures
        ({
            let k = 4 * (e.0.len() - 1);
            let l = line(e, ps, d);
            &&& l.len() > k + d + 1
            &&& l[k] == (if last_sibling(e.0, ps) { '└' } else { '├' })
            &&& forall|j: int| k < j <= k + d ==> #[trigger] l[j] == '─'
            &&& l[k + d + 1] == ' '
        }),
{
    let n = (e.0.len() - 1) as nat;
    lemma_indent_columns(e.0, ps, n);
}

} // verus!
