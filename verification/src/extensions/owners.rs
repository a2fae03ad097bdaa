//! Who keeps the host running: it shuts down when the last of its owners goes.

use vstd::prelude::*;

verus! {

/// The owners of a host.
#[derive(Debug)]
pub struct RuntimeOwners {
    pub count: usize,
}

impl RuntimeOwners {
    /// One owner.
    pub fn new() -> (out: Self)
        ensures
            out.count == 1,
    {
        RuntimeOwners { count: 1 }
    }

    /// A handle was copied. The copy of an owner is an owner; that of another handle is none.
    pub fn cloned(&mut self, owner: bool)
        requires
            old(self).count < usize::MAX,
        ensures
            final(self).count == old(self).count + (if owner {
                1int
            } else {
                0
            }),
    {
        if owner {
            self.count = self.count + 1;
        }
    }

    /// A handle goes. Says whether the host is to be shut down: the handle was the last owner.
    pub fn dropped(&mut self, owner: bool) -> (out: bool)
        requires
            owner ==> old(self).count > 0,
        ensures
            final(self).count == old(self).count - (if owner {
                1int
            } else {
                0
            }),
            out == (owner && old(self).count == 1),
    {
        if !owner {
            return false;
        }
        self.count = self.count - 1;
        self.count == 0
    }
}

/// How many owners are left after handles went, of which `owners` tells which were owners.
pub open spec fn left_after(count: int, owners: Seq<bool>) -> int
    decreases owners.len(),
{
    if owners.len() == 0 {
        count
    } else {
        left_after(count, owners.drop_last()) - (if owners.last() {
            1int
        } else {
            0
        })
    }
}

/// Whether the last of the handles that went shut the host down.
pub open spec fn shuts_down(count: int, owners: Seq<bool>) -> bool {
    owners.len() > 0 && owners.last() && left_after(count, owners.drop_last()) == 1
}

/// However many handles go, the host is shut down exactly when the last owner does: handles that are
/// no owners neither keep it running nor end it.
pub proof fn last_owner_shuts_down(count: int, owners: Seq<bool>)
    requires
        count > 0,
    ensures
        shuts_down(count, owners) ==> left_after(count, owners) == 0,
        left_after(count, owners) == 0 && owners.len() > 0 && owners.last() ==> shuts_down(
            count,
            owners,
        ),
        (forall|i: int| 0 <= i < owners.len() ==> !#[trigger] owners[i]) ==> left_after(count, owners)
            == count && !shuts_down(count, owners),
    decreases owners.len(),
{
    if owners.len() > 0 {
        last_owner_shuts_down(count, owners.drop_last());
        if forall|i: int| 0 <= i < owners.len() ==> !#[trigger] owners[i] {
            assert(!owners[owners.len() - 1]);
            assert forall|i: int| 0 <= i < owners.drop_last().len() implies !#[trigger]
                owners.drop_last()[i] by {
                assert(!owners[i]);
            }
        }
    }
}

}
