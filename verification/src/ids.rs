//! Message identifiers of one connection.
use crate::error::Error;
use crate::protocol::RequestId;
use std::collections::HashSet;
use vstd::prelude::*;

verus! {

broadcast use vstd::std_specs::hash::group_hash_axioms;

/// `HashSet::capacity`: at least the number of elements. How much more there is depends on the
/// allocator.
#[verifier::external_body]
fn set_capacity(set: &HashSet<RequestId>) -> (r: usize)
    ensures
        r >= set@.len(),
{
    set.capacity()
}

/// Identifiers that were given out: the last one, and those still in use.
#[derive(Debug)]
pub struct MessageIds {
    given_out: u32,
    in_use: HashSet<RequestId>,
}

impl MessageIds {
    /// The identifier that was given out last, or the one before the first.
    pub closed spec fn last(&self) -> int {
        if self.given_out >= i32::MAX {
            i32::MAX as int
        } else {
            self.given_out as int
        }
    }

    /// The identifiers in use.
    pub closed spec fn in_use(&self) -> Set<RequestId> {
        self.in_use@
    }

    /// Whether the identifiers in use were found to have room for so many.
    pub closed spec fn has_room(&self, places: usize) -> bool {
        call_ensures(set_capacity, (&self.in_use,), places)
    }

    pub fn new() -> (r: Self)
        ensures
            r.last() == 0,
            r.in_use() == Set::<RequestId>::empty(),
    {
        MessageIds { given_out: 0, in_use: HashSet::new() }
    }

    /// Identifiers that go on behind one that was given out.
    pub fn after(last: RequestId) -> (r: Self)
        requires
            last >= 0,
        ensures
            r.last() == last,
            r.in_use() == Set::<RequestId>::empty(),
    {
        MessageIds { given_out: last as u32, in_use: HashSet::new() }
    }

    /// Gives out the next identifier. None is given out twice: when they are exhausted, requests
    /// are refused.
    pub fn next_msgid(&mut self) -> (r: Result<RequestId, Error>)
        ensures
            match r {
                Ok(id) => {
                    &&& 1 <= id == old(self).last() + 1
                    &&& final(self).last() == id
                    &&& final(self).in_use() == old(self).in_use().insert(id)
                },
                Err(e) => {
                    &&& old(self).last() == i32::MAX
                    &&& e == Error::IdentifiersExhausted
                    &&& *final(self) == *old(self)
                },
            },
    {
        if self.given_out >= i32::MAX as u32 {
            return Err(Error::IdentifiersExhausted);
        }
        self.given_out = self.given_out + 1;
        let id: RequestId = self.given_out as RequestId;
        self.in_use.insert(id);
        Ok(id)
    }

    /// Takes an identifier out of use. It is not given out again.
    pub fn release(&mut self, id: RequestId)
        ensures
            final(self).last() == old(self).last(),
            final(self).in_use() == old(self).in_use().remove(id),
    {
        self.in_use.remove(&id);
    }

    /// Takes several identifiers out of use.
    pub fn release_each(&mut self, ids: &Vec<RequestId>)
        ensures
            final(self).last() == old(self).last(),
            final(self).in_use() == old(self).in_use().difference(ids@.to_set()),
    {
        let ghost before = self.in_use();
        let n: usize = ids.len();
        for k in 0..n
            invariant
                n == ids@.len(),
                self.last() == old(self).last(),
                forall|id: RequestId| #[trigger]
                    self.in_use().contains(id) <==> before.contains(id) && !ids@.take(
                        k as int,
                    ).contains(id),
        {
            self.release(ids[k]);
            proof {
                let now = ids@.take(k + 1);
                assert(now =~= ids@.take(k as int).push(ids@[k as int]));
                assert forall|id: RequestId| #[trigger] self.in_use().contains(id) <==> (
                before.contains(id) && !now.contains(id)) by {
                    if now.contains(id) {
                        let j = now.index_of(id);
                        assert(j < k ==> ids@.take(k as int)[j] == id);
                    }
                    if ids@.take(k as int).contains(id) {
                        let j = ids@.take(k as int).index_of(id);
                        assert(now[j] == id);
                    }
                    assert(now[k as int] == ids@[k as int]);
                }
            }
        }
        assert(ids@.take(n as int) =~= ids@);
        assert(self.in_use() =~= before.difference(ids@.to_set()));
    }

    /// Number of identifiers that there is room for without a new allocation.
    pub fn places(&self) -> (r: usize)
        ensures
            r >= self.in_use().len(),
            self.has_room(r),
    {
        set_capacity(&self.in_use)
    }

    /// Whether no identifier is in use.
    pub fn is_idle(&self) -> (r: bool)
        ensures
            r == self.in_use().is_empty(),
    {
        self.in_use.is_empty()
    }
}

impl Default for MessageIds {
    fn default() -> (r: Self)
        ensures
            r.last() == 0,
            r.in_use() == Set::<RequestId>::empty(),
    {
        MessageIds::new()
    }
}

/// What happens to identifiers.
pub enum IdStep {
    Allocate,
    Release(RequestId),
}

/// The last identifier after one step. An allocation when they are exhausted changes nothing.
pub open spec fn last_after(last: int, step: IdStep) -> int {
    match step {
        IdStep::Allocate => if last == i32::MAX {
            last
        } else {
            last + 1
        },
        IdStep::Release(_) => last,
    }
}

/// The identifiers that the steps give out, in order.
pub open spec fn given_out(last: int, steps: Seq<IdStep>) -> Seq<int>
    decreases steps.len(),
{
    if steps.len() == 0 {
        Seq::empty()
    } else {
        let next = last_after(last, steps[0]);
        (if next == last {
            seq![]
        } else {
            seq![next]
        }) + given_out(next, steps.drop_first())
    }
}

/// However requests come and go, every identifier is greater than all that were given out before
/// it, so that none ever stands for two requests.
pub proof fn identifiers_never_alias(last: int, steps: Seq<IdStep>)
    requires
        0 <= last <= i32::MAX,
    ensures
        ({
            let ids = given_out(last, steps);
            &&& forall|i: int| 0 <= i < ids.len() ==> last < #[trigger] ids[i] <= i32::MAX
            &&& forall|i: int, j: int|
                0 <= i < j < ids.len() ==> #[trigger] ids[i] < #[trigger] ids[j]
        }),
    decreases steps.len(),
{
    if steps.len() > 0 {
        let next = last_after(last, steps[0]);
        identifiers_never_alias(next, steps.drop_first());
        let ids = given_out(last, steps);
        let later = given_out(next, steps.drop_first());
        if next == last {
            assert(ids =~= later);
        } else {
            assert forall|i: int| 0 <= i < ids.len() implies last < #[trigger] ids[i]
                <= i32::MAX by {
                if i > 0 {
                    assert(ids[i] == later[i - 1]);
                }
            }
            assert forall|i: int, j: int| 0 <= i < j < ids.len() implies #[trigger] ids[i]
                < #[trigger] ids[j] by {
                assert(ids[j] == later[j - 1]);
                if i > 0 {
                    assert(ids[i] == later[i - 1]);
                }
            }
        }
    }
}

} // verus!
