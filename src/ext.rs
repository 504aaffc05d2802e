use vstd::prelude::*;

use crate::paths::ArtifactPath;

verus! {

/// Taking or dropping items at either end of a sequence-like value.
pub trait TakeExt<R> {
    /// The number of items that the value holds.
    spec fn item_count(&self) -> nat;

    /// Returns the first n items.
    fn ltake(&self, n: usize) -> R
        requires
            n <= self.item_count(),
    ;

    /// Returns the last n items.
    fn rtake(&self, n: usize) -> R
        requires
            n <= self.item_count(),
    ;

    /// Skips the first n items.
    fn lskip(&self, n: usize) -> R
        requires
            n <= self.item_count(),
    ;

    /// Skips the last n items.
    fn rskip(&self, n: usize) -> R
        requires
            n <= self.item_count(),
    ;
}

/// Clones the items of `s` at positions `lo..hi`, in order.
fn clone_range<T: Clone>(s: &[T], lo: usize, hi: usize) -> (r: Vec<T>)
    requires
        lo <= hi <= s@.len(),
    ensures
        r@.len() == hi - lo,
        forall|i: int| 0 <= i < hi - lo ==> cloned(s@[lo + i], #[trigger] r@[i]),
{
    let mut r: Vec<T> = Vec::new();
    let mut i: usize = lo;
    while i < hi
        invariant
            lo <= i <= hi <= s@.len(),
            r@.len() == i - lo,
            forall|j: int| 0 <= j < i - lo ==> cloned(s@[lo + j], #[trigger] r@[j]),
        decreases hi - i,
    {
        r.push(s[i].clone());
        i = i + 1;
    }
    r
}

impl<T: Clone> TakeExt<Vec<T>> for [T] {
    open spec fn item_count(&self) -> nat {
        self@.len()
    }

    fn ltake(&self, n: usize) -> (r: Vec<T>)
        ensures
            r@.len() == n,
            forall|i: int| 0 <= i < n ==> cloned(self@[i], #[trigger] r@[i]),
    {
        clone_range(self, 0, n)
    }

    fn rtake(&self, n: usize) -> (r: Vec<T>)
        ensures
            r@.len() == n,
            forall|i: int|
                0 <= i < n ==> cloned(self@[self@.len() - n + i], #[trigger] r@[i]),
    {
        clone_range(self, self.len() - n, self.len())
    }

    fn lskip(&self, n: usize) -> (r: Vec<T>)
        ensures
            r@.len() == self@.len() - n,
            forall|i: int| 0 <= i < self@.len() - n ==> cloned(self@[n + i], #[trigger] r@[i]),
    {
        clone_range(self, n, self.len())
    }

    fn rskip(&self, n: usize) -> (r: Vec<T>)
        ensures
            r@.len() == self@.len() - n,
            forall|i: int| 0 <= i < self@.len() - n ==> cloned(self@[i], #[trigger] r@[i]),
    {
        clone_range(self, 0, self.len() - n)
    }
}

/// The components of `p` at positions `lo..hi`, as a path.
fn component_range(p: &ArtifactPath, lo: usize, hi: usize) -> (r: ArtifactPath)
    requires
        lo <= hi <= p@.len(),
    ensures
        r@ == p@.subrange(lo as int, hi as int),
{
    let mut components: Vec<String> = Vec::new();
    let mut i: usize = lo;
    while i < hi
        invariant
            lo <= i <= hi <= p@.len(),
            components@.map_values(|c: String| c@) == p@.subrange(lo as int, i as int),
        decreases hi - i,
    {
        let c = p.components[i].clone();
        proof {
            assert(p@[i as int] == c@);
        }
        let ghost before = components@;
        components.push(c);
        proof {
            assert(components@ == before.push(c));
            assert(components@.map_values(|c: String| c@) =~= before.map_values(|c: String| c@).push(c@));
            assert(components@.map_values(|c: String| c@) =~= p@.subrange(lo as int, i + 1));
        }
        i = i + 1;
    }
    ArtifactPath::new(components)
}

impl TakeExt<ArtifactPath> for ArtifactPath {
    open spec fn item_count(&self) -> nat {
        self@.len()
    }

    fn ltake(&self, n: usize) -> (r: ArtifactPath)
        ensures
            r@ == self@.subrange(0, n as int),
    {
        component_range(self, 0, n)
    }

    fn rtake(&self, n: usize) -> (r: ArtifactPath)
        ensures
            r@ == self@.subrange(self@.len() - n, self@.len() as int),
    {
        component_range(self, self.len() - n, self.len())
    }

    fn lskip(&self, n: usize) -> (r: ArtifactPath)
        ensures
            r@ == self@.subrange(n as int, self@.len() as int),
    {
        component_range(self, n, self.len())
    }

    fn rskip(&self, n: usize) -> (r: ArtifactPath)
        ensures
            r@ == self@.subrange(0, self@.len() - n),
    {
        component_range(self, 0, self.len() - n)
    }
}

} // verus!
