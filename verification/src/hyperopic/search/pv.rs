use vstd::prelude::*;

use crate::brain::moves::Move;

verus! {

/// The principal variation: the line of best play found by the last
/// completed search, followed first by the next one.
#[derive(Debug, Clone, PartialEq)]
pub struct PrincipleVariation {
    path: Vec<Move>,
}

impl View for PrincipleVariation {
    type V = Seq<Move>;

    closed spec fn view(&self) -> Seq<Move> {
        self.path@
    }
}

/// The first `n` moves of the two lines agree.
pub open spec fn agree_upto(a: Seq<Move>, b: Seq<Move>, n: int) -> bool {
    forall|i: int| 0 <= i < n ==> a[i] == b[i]
}

impl PrincipleVariation {
    /// Replace the variation by the given line.
    pub fn set(&mut self, path: &[Move])
        ensures
            final(self)@ == path@,
    {
        let mut v: Vec<Move> = Vec::new();
        let mut i: usize = 0;
        while i < path.len()
            invariant
                i <= path@.len(),
                v@ == path@.subrange(0, i as int),
            decreases path@.len() - i,
        {
            v.push(path[i]);
            i = i + 1;
        }
        assert(path@.subrange(0, path@.len() as int) =~= path@);
        self.path = v;
    }

    /// Whether the line lies along the variation, as far as both go.
    pub fn in_pv(&self, path: &[Move]) -> (r: bool)
        ensures
            r == agree_upto(
                self@,
                path@,
                if self@.len() < path@.len() {
                    self@.len() as int
                } else {
                    path@.len() as int
                },
            ),
    {
        let n = if self.path.len() < path.len() {
            self.path.len()
        } else {
            path.len()
        };
        let mut i: usize = 0;
        while i < n
            invariant
                i <= n,
                n <= self@.len(),
                n <= path@.len(),
                agree_upto(self@, path@, i as int),
            decreases n - i,
        {
            if self.path[i] != path[i] {
                return false;
            }
            i = i + 1;
        }
        true
    }

    /// The move of the variation that follows the line, if the line is a
    /// proper beginning of the variation.
    pub fn get_next_move(&self, path: &[Move]) -> (r: Option<Move>)
        ensures
            r == (if path@.len() < self@.len() && agree_upto(self@, path@, path@.len() as int) {
                Some(self@[path@.len() as int])
            } else {
                None
            }),
    {
        if path.len() >= self.path.len() {
            return None;
        }
        let mut i: usize = 0;
        while i < path.len()
            invariant
                i <= path@.len(),
                path@.len() < self@.len(),
                agree_upto(self@, path@, i as int),
            decreases path@.len() - i,
        {
            if self.path[i] != path[i] {
                return None;
            }
            i = i + 1;
        }
        Some(self.path[path.len()])
    }
}

impl std::default::Default for PrincipleVariation {
    fn default() -> (r: PrincipleVariation)
        ensures
            r@ == Seq::<Move>::empty(),
    {
        PrincipleVariation { path: Vec::new() }
    }
}

/// Every beginning of the variation lies along it, and the move that
/// follows a proper beginning is the next move of the variation.
pub proof fn lemma_prefix_in_pv(pv: Seq<Move>, n: int)
    requires
        0 <= n <= pv.len(),
    ensures
        agree_upto(pv, pv.subrange(0, n), n),
        n < pv.len() ==> agree_upto(pv, pv.subrange(0, n), pv.subrange(0, n).len() as int)
            && pv[pv.subrange(0, n).len() as int] == pv[n],
{
}

} // verus!
