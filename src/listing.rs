use vstd::prelude::*;

use crate::entry::{comps, Entry};
use crate::filter::{is_visible, should_include, visible, DisplayOptions};
use crate::render::all_wf;

verus! {

broadcast use vstd::seq_lib::group_to_multiset_ensures;

/// Order of two strings by their characters' code points, a proper prefix
/// first: -1, 0 or 1.
pub open spec fn text_cmp(a: Seq<char>, b: Seq<char>) -> int
    decreases a.len(),
{
    if a.len() == 0 {
        if b.len() == 0 {
            0
        } else {
            -1
        }
    } else if b.len() == 0 {
        1
    } else if a[0] < b[0] {
        -1
    } else if a[0] > b[0] {
        1
    } else {
        text_cmp(a.drop_first(), b.drop_first())
    }
}

/// Order of two paths component by component, a proper prefix first.
pub open spec fn path_cmp(a: Seq<Seq<char>>, b: Seq<Seq<char>>) -> int
    decreases a.len(),
{
    if a.len() == 0 {
        if b.len() == 0 {
            0
        } else {
            -1
        }
    } else if b.len() == 0 {
        1
    } else if text_cmp(a[0], b[0]) != 0 {
        text_cmp(a[0], b[0])
    } else {
        path_cmp(a.drop_first(), b.drop_first())
    }
}

/// Swapping the arguments of `text_cmp` negates its result.
pub proof fn lemma_text_cmp_antisym(a: Seq<char>, b: Seq<char>)
    ensures
        text_cmp(a, b) == -text_cmp(b, a),
    decreases a.len(),
{
    if a.len() > 0 && b.len() > 0 {
        lemma_text_cmp_antisym(a.drop_first(), b.drop_first());
    }
}

/// Swapping the arguments of `path_cmp` negates its result.
pub proof fn lemma_path_cmp_antisym(a: Seq<Seq<char>>, b: Seq<Seq<char>>)
    ensures
        path_cmp(a, b) == -path_cmp(b, a),
    decreases a.len(),
{
    if a.len() > 0 && b.len() > 0 {
        lemma_text_cmp_antisym(a[0], b[0]);
        lemma_path_cmp_antisym(a.drop_first(), b.drop_first());
    }
}

/// `text_cmp` is zero only on equal strings.
pub proof fn lemma_text_cmp_zero(a: Seq<char>, b: Seq<char>)
    requires
        text_cmp(a, b) == 0,
    ensures
        a == b,
    decreases a.len(),
{
    if a.len() > 0 && b.len() > 0 {
        lemma_text_cmp_zero(a.drop_first(), b.drop_first());
        assert(a =~= seq![a[0]] + a.drop_first());
        assert(b =~= seq![b[0]] + b.drop_first());
    }
}

/// `text_cmp` orders strings transitively.
pub proof fn lemma_text_cmp_trans(a: Seq<char>, b: Seq<char>, c: Seq<char>)
    requires
        text_cmp(a, b) <= 0,
        text_cmp(b, c) <= 0,
    ensures
        text_cmp(a, c) <= 0,
    decreases a.len(),
{
    if a.len() > 0 && b.len() > 0 && c.len() > 0 && a[0] == b[0] && b[0] == c[0] {
        lemma_text_cmp_trans(a.drop_first(), b.drop_first(), c.drop_first());
    }
}

/// `path_cmp` orders paths transitively.
pub proof fn lemma_path_cmp_trans(a: Seq<Seq<char>>, b: Seq<Seq<char>>, c: Seq<Seq<char>>)
    requires
        path_cmp(a, b) <= 0,
        path_cmp(b, c) <= 0,
    ensures
        path_cmp(a, c) <= 0,
    decreases a.len(),
{
    if a.len() > 0 && b.len() > 0 && c.len() > 0 {
        let x = text_cmp(a[0], b[0]);
        let y = text_cmp(b[0], c[0]);
        lemma_text_cmp_trans(a[0], b[0], c[0]);
        if x == 0 {
            lemma_text_cmp_zero(a[0], b[0]);
        }
        if y == 0 {
            lemma_text_cmp_zero(b[0], c[0]);
        }
        if text_cmp(a[0], c[0]) == 0 {
            lemma_text_cmp_zero(a[0], c[0]);
            lemma_text_cmp_antisym(a[0], b[0]);
        }
        if x == 0 && y == 0 {
            lemma_path_cmp_trans(a.drop_first(), b.drop_first(), c.drop_first());
        }
    }
}

/// Each entry's path is at most every later one's.
pub open spec fn sorted(s: Seq<Entry>) -> bool {
    forall|i: int, j: int| 0 <= i < j < s.len() ==> path_cmp((#[trigger] s[i])@.0, (#[trigger] s[j])@.0) <= 0
}

/// The entries of `s` that are visible and that the options admit, in order.
pub open spec fn selection(s: Seq<Entry>, o: DisplayOptions) -> Seq<Entry> {
    s.filter(|e: Entry| visible(e@) && o.admits(e@))
}

/// A listing of `entries` under `o`: the selected entries, each as often as
/// it is there, ordered by path.
pub open spec fn is_listing(s: Seq<Entry>, entries: Seq<Entry>, o: DisplayOptions) -> bool {
    &&& sorted(s)
    &&& s.to_multiset() == selection(entries, o).to_multiset()
}

/// Compares two strings as `text_cmp` does.
pub fn compare_text(a: &str, b: &str) -> (r: i8)
    ensures
        r as int == text_cmp(a@, b@),
{
    let la = a.unicode_len();
    let lb = b.unicode_len();
    let mut i: usize = 0;
    assert(a@.subrange(0, la as int) =~= a@);
    assert(b@.subrange(0, lb as int) =~= b@);
    while i < la && i < lb
        invariant
            la == a@.len(),
            lb == b@.len(),
            i <= la,
            i <= lb,
            text_cmp(a@, b@) == text_cmp(a@.subrange(i as int, la as int), b@.subrange(i as int, lb as int)),
        decreases la - i,
    {
        let ca = a.get_char(i);
        let cb = b.get_char(i);
        if ca < cb {
            return -1;
        }
        if ca > cb {
            return 1;
        }
        assert(a@.subrange(i as int, la as int).drop_first() =~= a@.subrange(i + 1, la as int));
        assert(b@.subrange(i as int, lb as int).drop_first() =~= b@.subrange(i + 1, lb as int));
        i = i + 1;
    }
    if i == la {
        if i == lb {
            0
        } else {
            -1
        }
    } else {
        1
    }
}

/// Compares two paths as `path_cmp` does.
pub fn compare_paths(a: &Vec<String>, b: &Vec<String>) -> (r: i8)
    ensures
        r as int == path_cmp(comps(a@), comps(b@)),
{
    let la = a.len();
    let lb = b.len();
    let mut i: usize = 0;
    assert(comps(a@).subrange(0, la as int) =~= comps(a@));
    assert(comps(b@).subrange(0, lb as int) =~= comps(b@));
    while i < la && i < lb
        invariant
            la == a@.len(),
            lb == b@.len(),
            i <= la,
            i <= lb,
            path_cmp(comps(a@), comps(b@)) == path_cmp(
                comps(a@).subrange(i as int, la as int),
                comps(b@).subrange(i as int, lb as int),
            ),
        decreases la - i,
    {
        let c = compare_text(a[i].as_str(), b[i].as_str());
        if c != 0 {
            return c;
        }
        assert(comps(a@).subrange(i as int, la as int).drop_first() =~= comps(a@).subrange(i + 1, la as int));
        assert(comps(b@).subrange(i as int, lb as int).drop_first() =~= comps(b@).subrange(i + 1, lb as int));
        i = i + 1;
    }
    if i == la {
        if i == lb {
            0
        } else {
            -1
        }
    } else {
        1
    }
}

/// Inserts `x` into the sorted list `out`, before the run of entries at its
/// end whose paths are greater, so that the list stays sorted.
fn insert_sorted(out: &mut Vec<Entry>, x: Entry)
    requires
        sorted(old(out)@),
    ensures
        sorted(final(out)@),
        final(out)@.to_multiset() == old(out)@.to_multiset().insert(x),
        exists|p: int| 0 <= p <= old(out)@.len() && final(out)@ == old(out)@.insert(p, x),
{
    let mut p: usize = out.len();
    while p > 0 && compare_paths(&out[p - 1].components, &x.components) > 0
        invariant
            p <= out@.len(),
            p < out@.len() ==> path_cmp(out@[p as int]@.0, x@.0) > 0,
        decreases p,
    {
        p = p - 1;
    }
    let ghost before = out@;
    proof {
        if p < before.len() {
            lemma_path_cmp_antisym(before[p as int]@.0, x@.0);
        }
    }
    out.insert(p, x);
    proof {
        let after = out@;
        assert forall|i: int, j: int| 0 <= i < j < after.len() implies path_cmp(
            (#[trigger] after[i])@.0,
            (#[trigger] after[j])@.0,
        ) <= 0 by {
            let xi = if i < p { i } else { i - 1 };
            let xj = if j < p { j } else { j - 1 };
            if i != p && j != p {
                assert(after[i] == before[xi] && after[j] == before[xj]);
            } else if i == p {
                assert(after[j] == before[j - 1]);
                if j - 1 > p {
                    lemma_path_cmp_trans(x@.0, before[p as int]@.0, before[j - 1]@.0);
                }
            } else {
                assert(after[i] == before[i]);
                if i < p - 1 {
                    lemma_path_cmp_trans(before[i]@.0, before[p - 1]@.0, x@.0);
                }
            }
        }
        assert(after.remove(p as int) =~= before);
        assert(after[p as int] == x);
        assert(after.to_multiset() =~= before.to_multiset().insert(x));
    }
}

/// Keeps the visible entries that the options admit, ordered by path.
pub fn collect_listing(entries: Vec<Entry>, options: &DisplayOptions) -> (r: Vec<Entry>)
    requires
        all_wf(entries@),
    ensures
        is_listing(r@, entries@, *options),
        all_wf(r@),
{
    let ghost orig = entries@;
    let ghost f = |e: Entry| visible(e@) && options.admits(e@);
    let mut rest = entries;
    let mut out: Vec<Entry> = Vec::new();
    while rest.len() > 0
        invariant
            all_wf(rest@),
            all_wf(out@),
            sorted(out@),
            f == (|e: Entry| visible(e@) && options.admits(e@)),
            selection(orig, *options).to_multiset() == out@.to_multiset().add(
                rest@.filter(f).to_multiset(),
            ),
        decreases rest@.len(),
    {
        let ghost before = rest@;
        let x = rest.pop().unwrap();
        assert(before =~= rest@.push(x));
        assert(before.filter(f) == if f(x) {
            rest@.filter(f).push(x)
        } else {
            rest@.filter(f)
        }) by {
            reveal(Seq::filter);
            assert(before.drop_last() =~= rest@);
        }
        assert(x.wf());
        if is_visible(&x) && should_include(&x, options) {
            let ghost old_out = out@;
            insert_sorted(&mut out, x);
            assert(all_wf(out@)) by {
                let p = choose|p: int| 0 <= p <= old_out.len() && out@ == old_out.insert(p, x);
                assert forall|i: int| 0 <= i < out@.len() implies (#[trigger] out@[i]).wf() by {
                    if i < p {
                        assert(out@[i] == old_out[i]);
                    } else if i > p {
                        assert(out@[i] == old_out[i - 1]);
                    }
                }
            }
            assert(out@.to_multiset().add(rest@.filter(f).to_multiset()) =~= old_out.to_multiset().add(
                before.filter(f).to_multiset(),
            ));
        } else {
            assert(!f(x));
        }
    }
    assert(rest@.filter(f) =~= Seq::<Entry>::empty()) by {
        reveal(Seq::filter);
    }
    assert(out@.to_multiset() =~= out@.to_multiset().add(rest@.filter(f).to_multiset()));
    out
}

} // verus!
