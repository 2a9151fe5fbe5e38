//! The run-wide order-uniqueness tracker: the set of
//! (procedural-unit name, order number) pairs already claimed, used to
//! give order-sensitive variables collision-free `orderWithinParamSet`
//! numbers across one whole generation run.

use vstd::prelude::*;

use crate::GenError;

verus! {

/// The smallest order number at or above `start` that the claim set does
/// not yet hold for the given unit, or `None` when every number up to the
/// machine limit is taken.
pub open spec fn spec_claim(s: Set<(Seq<char>, int)>, pou: Seq<char>, start: int) -> Option<
    int,
>
    decreases usize::MAX as int + 1 - start,
    when start <= usize::MAX as int + 1
{
    if start > usize::MAX as int {
        None
    } else if !s.contains((pou, start)) {
        Some(start)
    } else {
        spec_claim(s, pou, start + 1)
    }
}

proof fn lemma_spec_claim_found(s: Set<(Seq<char>, int)>, pou: Seq<char>, start: int, n: int)
    requires
        start <= n <= usize::MAX as int,
        !s.contains((pou, n)),
        forall|m: int| start <= m < n ==> s.contains((pou, m)),
    ensures
        spec_claim(s, pou, start) == Some(n),
    decreases n - start,
{
    if start < n {
        lemma_spec_claim_found(s, pou, start + 1, n);
    }
}

proof fn lemma_spec_claim_none(s: Set<(Seq<char>, int)>, pou: Seq<char>, start: int)
    requires
        start <= usize::MAX as int + 1,
        forall|m: int| start <= m <= usize::MAX as int ==> s.contains((pou, m)),
    ensures
        spec_claim(s, pou, start) is None,
    decreases usize::MAX as int + 1 - start,
{
    if start <= usize::MAX as int {
        lemma_spec_claim_none(s, pou, start + 1);
    }
}

/// The set of claimed (unit name, order number) pairs, accumulated over
/// the entire generation run and never reset between units.
pub struct OrderTracker {
    entries: Vec<(String, usize)>,
}

impl OrderTracker {
    /// Whether the pair (unit name, order number) is already claimed.
    pub closed spec fn claimed(&self, pou: Seq<char>, n: int) -> bool {
        exists|i: int|
            0 <= i < self.entries@.len() && (#[trigger] self.entries@[i]).0@ == pou
                && self.entries@[i].1 as int == n
    }

    /// The set of claimed pairs.
    pub open spec fn claim_set(&self) -> Set<(Seq<char>, int)> {
        Set::new(|p: (Seq<char>, int)| self.claimed(p.0, p.1))
    }

    /// An empty tracker: nothing is claimed.
    pub fn new() -> (r: OrderTracker)
        ensures
            forall|p: Seq<char>, n: int| !r.claimed(p, n),
            r.claim_set() == Set::<(Seq<char>, int)>::empty(),
    {
        let r = OrderTracker { entries: Vec::new() };
        proof {
            assert(r.claim_set() =~= Set::<(Seq<char>, int)>::empty());
        }
        r
    }

    fn contains(&self, pou: &String, n: usize) -> (r: bool)
        ensures
            r == self.claimed(pou@, n as int),
    {
        let mut i: usize = 0;
        while i < self.entries.len()
            invariant
                i <= self.entries.len(),
                forall|j: int|
                    0 <= j < i as int ==> !((#[trigger] self.entries@[j]).0@ == pou@
                        && self.entries@[j].1 as int == n as int),
            decreases self.entries.len() - i,
        {
            if self.entries[i].1 == n && self.entries[i].0.eq(pou) {
                return true;
            }
            i += 1;
        }
        false
    }

    /// Claim the smallest free order number at or above `start` for the
    /// given unit.
    ///
    /// On success the returned number was free, every number from `start`
    /// below it was already claimed for this unit, and exactly the pair
    /// (unit, number) is added. The error comes exactly when every number
    /// from `start` to the machine limit is already claimed for this
    /// unit, and then the tracker is unchanged.
    #[verifier::loop_isolation(false)]
    pub fn claim(&mut self, pou: &String, start: usize) -> (r: Result<usize, GenError>)
        ensures
            match r {
                Ok(n) => {
                    &&& start <= n
                    &&& !old(self).claimed(pou@, n as int)
                    &&& forall|m: int| start <= m < n as int ==> old(self).claimed(pou@, m)
                    &&& forall|p: Seq<char>, m: int|
                        final(self).claimed(p, m) <==> (old(self).claimed(p, m) || (p == pou@
                            && m == n as int))
                    &&& spec_claim(old(self).claim_set(), pou@, start as int) == Some(
                        n as int,
                    )
                    &&& final(self).claim_set() == old(self).claim_set().insert(
                        (pou@, n as int),
                    )
                },
                Err(e) => {
                    &&& e == GenError::OrderExhausted
                    &&& forall|m: int|
                        start <= m <= usize::MAX as int ==> old(self).claimed(pou@, m)
                    &&& spec_claim(old(self).claim_set(), pou@, start as int) is None
                    &&& *final(self) == *old(self)
                },
            },
    {
        let mut cur: usize = start;
        let mut free: bool = false;
        while !free
            invariant
                start <= cur,
                cur <= usize::MAX,
                forall|m: int| start <= m < cur as int ==> old(self).claimed(pou@, m),
                self == old(self),
                free ==> !old(self).claimed(pou@, cur as int),
            decreases (if free { 0int } else { 1int }), usize::MAX - cur,
        {
            if self.contains(pou, cur) {
                if cur == usize::MAX {
                    proof {
                        assert forall|m: int|
                            start <= m <= usize::MAX as int implies old(self).claim_set()
                            .contains((pou@, m)) by {
                            assert(old(self).claimed(pou@, m));
                        }
                        lemma_spec_claim_none(old(self).claim_set(), pou@, start as int);
                    }
                    return Err(GenError::OrderExhausted);
                }
                cur += 1;
            } else {
                free = true;
            }
        }
        let ghost pre = *self;
        let ghost pre_entries = self.entries@;
        self.entries.push((pou.clone(), cur));
        proof {
            assert forall|p: Seq<char>, m: int| final(self).claimed(p, m) <==> (pre.claimed(
                p,
                m,
            ) || (p == pou@ && m == cur as int)) by {
                let n = pre_entries.len() as int;
                if pre.claimed(p, m) {
                    let j = choose|j: int|
                        0 <= j < pre_entries.len() && (#[trigger] pre_entries[j]).0@ == p
                            && pre_entries[j].1 as int == m;
                    assert(self.entries@[j].0@ == p && self.entries@[j].1 as int == m);
                }
                if p == pou@ && m == cur as int {
                    assert(self.entries@[n].0@ == p && self.entries@[n].1 as int == m);
                }
                if final(self).claimed(p, m) {
                    let j = choose|j: int|
                        0 <= j < self.entries@.len() && (#[trigger] self.entries@[j]).0@ == p
                            && self.entries@[j].1 as int == m;
                    if j < n {
                        assert(pre_entries[j].0@ == p && pre_entries[j].1 as int == m);
                    }
                }
            }
            assert forall|m: int| start as int <= m < cur as int implies pre.claim_set()
                .contains((pou@, m)) by {
                assert(pre.claimed(pou@, m));
            }
            lemma_spec_claim_found(pre.claim_set(), pou@, start as int, cur as int);
            assert(final(self).claim_set() =~= pre.claim_set().insert((pou@, cur as int)));
        }
        Ok(cur)
    }
}

/// No two order-sensitive variables of one unit share an order number:
/// a number the search may return is never one that is already claimed,
/// so a later claim in the same unit cannot repeat an earlier one.
pub proof fn lemma_order_numbers_distinct(
    t: &OrderTracker,
    pou: Seq<char>,
    n1: int,
    n2: int,
)
    requires
        t.claimed(pou, n1),
        !t.claimed(pou, n2),
    ensures
        n1 != n2,
{
}

/// Assigning order numbers to the variables of a fresh unit in
/// declaration order yields exactly 0, 1, 2, ...: when the orders claimed
/// for a unit are exactly those below `k` and the search starts at the
/// declaration index `k`, the number returned by the search conditions is
/// `k` itself, and the claimed orders become exactly those below `k + 1`.
pub proof fn lemma_order_numbers_sequential(
    t: &OrderTracker,
    pou: Seq<char>,
    k: int,
    n: int,
)
    requires
        0 <= k,
        forall|m: int| t.claimed(pou, m) <==> 0 <= m < k,
        k <= n,
        !t.claimed(pou, n),
        forall|m: int| k <= m < n ==> t.claimed(pou, m),
    ensures
        n == k,
        forall|m: int| (t.claimed(pou, m) || m == n) <==> 0 <= m < k + 1,
{
    if n > k {
        assert(t.claimed(pou, k));
    }
}

} // verus!
