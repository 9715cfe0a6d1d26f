use vstd::prelude::*;

verus! {

/// A path relative to the root, as its components, with the kind of the
/// entry it names.
pub struct Entry {
    pub components: Vec<String>,
    pub is_dir: bool,
}

/// The characters of each string of a sequence (the components of a path,
/// the lines of a text).
pub open spec fn comps(v: Seq<String>) -> Seq<Seq<char>> {
    Seq::new(v.len(), |i: int| v[i]@)
}

impl View for Entry {
    type V = (Seq<Seq<char>>, bool);

    open spec fn view(&self) -> (Seq<Seq<char>>, bool) {
        (comps(self.components@), self.is_dir)
    }
}

impl Entry {
    /// An entry names something below the root: its path is not empty.
    pub open spec fn wf(&self) -> bool {
        self.components@.len() > 0
    }
}

/// Compares two strings character by character.
pub fn chars_equal(a: &str, b: &str) -> (r: bool)
    ensures
        r == (a@ == b@),
{
    let n = a.unicode_len();
    if n != b.unicode_len() {
        return false;
    }
    let mut i: usize = 0;
    while i < n
        invariant
            n == a@.len(),
            n == b@.len(),
            i <= n,
            a@.subrange(0, i as int) == b@.subrange(0, i as int),
        decreases n - i,
    {
        if a.get_char(i) != b.get_char(i) {
            return false;
        }
        assert(a@.subrange(0, i + 1) =~= a@.subrange(0, i as int).push(a@[i as int]));
        assert(b@.subrange(0, i + 1) =~= b@.subrange(0, i as int).push(b@[i as int]));
        i = i + 1;
    }
    assert(a@ =~= a@.subrange(0, n as int));
    assert(b@ =~= b@.subrange(0, n as int));
    true
}

} // verus!
