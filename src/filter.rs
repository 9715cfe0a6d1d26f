use vstd::prelude::*;
use vstd::string::*;

use crate::entry::{chars_equal, comps, Entry};

verus! {

/// The directory names that are never descended into.
pub open spec fn ignored_name(n: Seq<char>) -> bool {
    n == ".git"@ || n == "node_modules"@ || n == "target"@ || n == ".idea"@ || n == ".vscode"@
}

/// Whether a walk skips this entry, and with it everything beneath it.
pub open spec fn skipped(name: Seq<char>, is_dir: bool) -> bool {
    is_dir && ignored_name(name)
}

/// An entry is visible when no directory on its path is one that the walk
/// skips: neither an ancestor nor, if it is a directory, the entry itself.
pub open spec fn visible(e: (Seq<Seq<char>>, bool)) -> bool {
    &&& forall|k: int| 0 <= k < e.0.len() - 1 ==> !#[trigger] ignored_name(e.0[k])
    &&& !skipped(e.0.last(), e.1)
}

/// Index of the last `'.'` among the first `n` characters, or -1.
pub open spec fn last_dot(s: Seq<char>, n: int) -> int
    decreases n,
{
    if n <= 0 {
        -1
    } else if s[n - 1] == '.' {
        n - 1
    } else {
        last_dot(s, n - 1)
    }
}

/// The extension of a file name: what follows its last dot, unless that dot
/// is the first character or there is none.
pub open spec fn extension(name: Seq<char>) -> Option<Seq<char>> {
    let k = last_dot(name, name.len() as int);
    if k <= 0 {
        None
    } else {
        Some(name.subrange(k + 1, name.len() as int))
    }
}

/// The lower-case form of a string, as std computes it.
pub uninterp spec fn lower_of(s: Seq<char>) -> Seq<char>;

/// Relies on `str::to_lowercase`: its result depends on the characters alone.
#[verifier::external_body]
fn lowercase(s: &str) -> (r: String)
    ensures
        r@ == lower_of(s@),
{
    s.to_lowercase()
}

/// Whether the extension equals an entry of the allow-list, ignoring case.
pub open spec fn listed(l: Seq<Seq<char>>, x: Seq<char>) -> bool {
    exists|i: int| 0 <= i < l.len() && lower_of(#[trigger] l[i]) == lower_of(x)
}

/// What decides which entries are listed and how the branches are drawn.
pub struct DisplayOptions {
    pub folders_only: bool,
    pub extensions: Option<Vec<String>>,
    pub dash_count: usize,
}

impl DisplayOptions {
    /// The extension allow-list, if any, as character sequences.
    pub open spec fn allow_list(&self) -> Option<Seq<Seq<char>>> {
        match self.extensions {
            Some(l) => Some(comps(l@)),
            None => None,
        }
    }

    /// Directories always pass; files pass unless only folders are listed,
    /// and then only with an extension that matches the allow-list, ignoring
    /// case, where there is one.
    pub open spec fn admits(&self, e: (Seq<Seq<char>>, bool)) -> bool {
        if e.1 {
            true
        } else if self.folders_only {
            false
        } else {
            match self.allow_list() {
                None => true,
                Some(l) => match extension(e.0.last()) {
                    None => false,
                    Some(x) => listed(l, x),
                },
            }
        }
    }
}

/// Whether `name` is one of the directory names that the walk skips.
pub fn is_ignored_name(name: &str) -> (r: bool)
    ensures
        r == ignored_name(name@),
{
    chars_equal(name, ".git") || chars_equal(name, "node_modules") || chars_equal(name, "target")
        || chars_equal(name, ".idea") || chars_equal(name, ".vscode")
}

/// Whether the walk skips an entry with this name and kind.
pub fn is_ignored(name: &str, is_dir: bool) -> (r: bool)
    ensures
        r == skipped(name@, is_dir),
{
    is_dir && is_ignored_name(name)
}

/// Whether no skipped directory lies on the entry's path.
pub fn is_visible(entry: &Entry) -> (r: bool)
    requires
        entry.wf(),
    ensures
        r == visible(entry@),
{
    let n = entry.components.len();
    let mut i: usize = 0;
    while i < n - 1
        invariant
            n == entry.components@.len(),
            n > 0,
            i <= n - 1,
            forall|k: int| 0 <= k < i ==> !#[trigger] ignored_name(entry@.0[k]),
        decreases n - 1 - i,
    {
        if is_ignored_name(entry.components[i].as_str()) {
            assert(ignored_name(entry@.0[i as int]));
            return false;
        }
        i = i + 1;
    }
    !is_ignored(entry.components[n - 1].as_str(), entry.is_dir)
}

/// The extension of a file name, as `extension` defines it.
pub fn extension_of(name: &str) -> (r: Option<String>)
    ensures
        match r {
            Some(x) => extension(name@) == Some(x@),
            None => extension(name@) is None,
        },
{
    let n = name.unicode_len();
    let mut i: usize = n;
    while i > 0
        invariant
            n == name@.len(),
            i <= n,
            last_dot(name@, n as int) == last_dot(name@, i as int),
        decreases i,
    {
        if name.get_char(i - 1) == '.' {
            if i - 1 == 0 {
                return None;
            }
            return Some(String::from_str(name.substring_char(i, n)));
        }
        i = i - 1;
    }
    None
}

/// Whether the lower-cased extension equals one of the lower-cased entries
/// of the allow-list.
pub fn extension_allowed(ext: &str, lowered: &Vec<String>) -> (r: bool)
    ensures
        r == exists|i: int| 0 <= i < lowered@.len() && (#[trigger] lowered@[i])@ == ext@,
{
    let mut i: usize = 0;
    while i < lowered.len()
        invariant
            i <= lowered@.len(),
            forall|j: int| 0 <= j < i ==> (#[trigger] lowered@[j])@ != ext@,
        decreases lowered@.len() - i,
    {
        if chars_equal(lowered[i].as_str(), ext) {
            return true;
        }
        i = i + 1;
    }
    false
}

/// Whether the options admit the entry into the listing.
pub fn should_include(entry: &Entry, options: &DisplayOptions) -> (r: bool)
    requires
        entry.wf(),
    ensures
        r == options.admits(entry@),
{
    if entry.is_dir {
        return true;
    }
    if options.folders_only {
        return false;
    }
    match &options.extensions {
        None => true,
        Some(list) => {
            let n = entry.components.len();
            assert(entry@.0.last() == entry.components@[n - 1]@);
            match extension_of(entry.components[n - 1].as_str()) {
                None => false,
                Some(ext) => {
                    let mut lowered: Vec<String> = Vec::new();
                    let mut i: usize = 0;
                    while i < list.len()
                        invariant
                            i <= list@.len(),
                            lowered@.len() == i,
                            forall|j: int|
                                0 <= j < i ==> (#[trigger] lowered@[j])@ == lower_of(list@[j]@),
                        decreases list@.len() - i,
                    {
                        lowered.push(lowercase(list[i].as_str()));
                        i = i + 1;
                    }
                    let r = extension_allowed(lowercase(ext.as_str()).as_str(), &lowered);
                    let ghost l = comps(list@);
                    assert(r == listed(l, ext@)) by {
                        if r {
                            let i = choose|i: int|
                                0 <= i < lowered@.len() && (#[trigger] lowered@[i])@ == lower_of(ext@);
                            assert(lower_of(l[i]) == lower_of(ext@));
                        }
                        if listed(l, ext@) {
                            let i = choose|i: int|
                                0 <= i < l.len() && lower_of(#[trigger] l[i]) == lower_of(ext@);
                            assert(lowered@[i]@ == lower_of(ext@));
                        }
                    }
                    assert(options.allow_list() == Some(l));
                    r
                },
            }
        },
    }
}

} // verus!
