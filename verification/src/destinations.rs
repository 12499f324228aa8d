//! The destinations that the moves of a run have claimed.

use crate::text::eq_text;
use vstd::prelude::*;
use vstd::string::*;

verus! {

/// One of the paths is the given text.
pub open spec fn listed(paths: Seq<String>, path: Seq<char>) -> bool {
    exists|i: int| 0 <= i < paths.len() && (#[trigger] paths[i])@ == path
}

/// The destinations of the moves planned so far. No two moves of a run may
/// end at the same place; a file whose destination is claimed stays where
/// it is.
pub struct Destinations {
    paths: Vec<String>,
}

impl View for Destinations {
    type V = Set<Seq<char>>;

    closed spec fn view(&self) -> Set<Seq<char>> {
        Set::new(|path: Seq<char>| listed(self.paths@, path))
    }
}

impl Destinations {
    /// No destination is claimed.
    pub fn new() -> (r: Destinations)
        ensures
            r@ == Set::<Seq<char>>::empty(),
    {
        let r = Destinations { paths: Vec::new() };
        assert(r@ =~= Set::<Seq<char>>::empty());
        r
    }

    /// Whether the path is claimed.
    pub fn contains(&self, path: &str) -> (r: bool)
        ensures
            r == self@.contains(path@),
    {
        let mut i: usize = 0;
        while i < self.paths.len()
            invariant
                i <= self.paths.len(),
                forall|k: int| 0 <= k < i ==> (#[trigger] self.paths@[k])@ != path@,
            decreases self.paths.len() - i,
        {
            if eq_text(self.paths[i].as_str(), path) {
                return true;
            }
            i += 1;
        }
        false
    }

    /// Claims the path.
    pub fn insert(&mut self, path: String)
        ensures
            final(self)@ == old(self)@.insert(path@),
    {
        let ghost before = self.paths@;
        self.paths.push(path);
        proof {
            let after = self.paths@;
            assert(after == before.push(path));
            assert forall|p: Seq<char>| #[trigger]
                self@.contains(p) <==> old(self)@.insert(path@).contains(p) by {
                assert(self@.contains(p) == listed(after, p));
                assert(old(self)@.contains(p) == listed(before, p));
                if listed(before, p) {
                    let i = choose|i: int| 0 <= i < before.len() && (#[trigger] before[i])@ == p;
                    assert(after[i]@ == p);
                }
                if p == path@ {
                    assert(after[before.len() as int]@ == p);
                }
                if listed(after, p) {
                    let i = choose|i: int| 0 <= i < after.len() && (#[trigger] after[i])@ == p;
                    if i < before.len() {
                        assert(before[i]@ == p);
                    }
                }
            }
            assert(self@ =~= old(self)@.insert(path@));
        }
    }
}

} // verus!
