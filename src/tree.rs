use vstd::prelude::*;

use crate::entry::{comps, Entry};
use crate::filter::DisplayOptions;
use crate::listing::{collect_listing, is_listing};
use crate::render::{all_wf, format_entry, line, paths};

verus! {

/// The text of a tree: the root's name with a slash, then one line for each
/// entry of the listing `s`, in order.
pub open spec fn tree_text(root: Seq<char>, s: Seq<Entry>, d: nat) -> Seq<Seq<char>> {
    seq![root + seq!['/']] + Seq::new(s.len(), |i: int| line(s[i]@, paths(s), d))
}

/// Draws the listing `listing` below a header line for the root.
pub fn render_lines(root_name: &str, listing: &Vec<Entry>, dash_count: usize) -> (r: Vec<String>)
    requires
        all_wf(listing@),
    ensures
        comps(r@) == tree_text(root_name@, listing@, dash_count as nat),
{
    let mut header = String::from_str(root_name);
    proof {
        reveal_strlit("/");
    }
    header.append("/");
    let mut out: Vec<String> = Vec::new();
    out.push(header);
    let mut i: usize = 0;
    while i < listing.len()
        invariant
            i <= listing@.len(),
            all_wf(listing@),
            out@.len() == i + 1,
            out@[0]@ == root_name@ + seq!['/'],
            forall|k: int|
                0 <= k < i ==> (#[trigger] out@[k + 1])@ == line(
                    listing@[k]@,
                    paths(listing@),
                    dash_count as nat,
                ),
        decreases listing@.len() - i,
    {
        assert(listing@[i as int].wf());
        let l = format_entry(&listing[i], listing, dash_count);
        out.push(l);
        i = i + 1;
    }
    assert(comps(out@) =~= tree_text(root_name@, listing@, dash_count as nat)) by {
        assert forall|k: int| 0 <= k < out@.len() implies comps(out@)[k] == tree_text(
            root_name@,
            listing@,
            dash_count as nat,
        )[k] by {
            if k > 0 {
                assert(out@[(k - 1) + 1] == out@[k]);
            }
        }
    }
    out
}

/// The text of the tree of `entries` under `options`, headed by `root_name`:
/// the visible entries that the options admit, ordered by path, one line each.
pub fn display_tree(root_name: &str, entries: Vec<Entry>, options: &DisplayOptions) -> (r: Vec<
    String,
>)
    requires
        all_wf(entries@),
    ensures
        exists|s: Seq<Entry>|
            is_listing(s, entries@, *options) && comps(r@) == tree_text(
                root_name@,
                s,
                options.dash_count as nat,
            ),
{
    let ghost orig = entries@;
    let listing = collect_listing(entries, options);
    let r = render_lines(root_name, &listing, options.dash_count);
    assert(is_listing(listing@, orig, *options));
    r
}

} // verus!
