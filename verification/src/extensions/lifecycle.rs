//! The queue of lifecycle publications: what the host still has to announce, and what it announced.

use vstd::prelude::*;
use super::error::ExtensionError;
use crate::text::same_text;

verus! {

/// How many announced publications are remembered.
pub const EXTENSION_LIFECYCLE_DEDUP_LIMIT: usize = 256;

/// How many publications may wait to be announced.
pub const EXTENSION_LIFECYCLE_PENDING_LIMIT: usize = 64;

/// What identifies a publication: package, generation and operation.
pub type PublicationId = (Seq<char>, u64, Seq<char>);

/// A publication that was announced.
#[derive(Debug)]
pub struct LifecycleKey {
    pub extension_id: String,
    pub generation: u64,
    pub operation: String,
}

/// A change of a package's life, with the inventory at that moment as JSON text.
#[derive(Debug)]
pub struct LifecyclePublication {
    pub extension_id: String,
    pub generation: u64,
    pub operation: String,
    pub snapshot: String,
}

/// The publications that wait, oldest first, and those that were announced, oldest first.
#[derive(Debug)]
pub struct LifecyclePublicationState {
    pub pending: Vec<LifecyclePublication>,
    pub published: Vec<LifecycleKey>,
}

impl LifecycleKey {
    pub open spec fn id(self) -> PublicationId {
        (self.extension_id@, self.generation, self.operation@)
    }
}

impl LifecyclePublication {
    pub open spec fn id(self) -> PublicationId {
        (self.extension_id@, self.generation, self.operation@)
    }

    fn is(&self, id: &str, generation: u64, operation: &str) -> (out: bool)
        ensures
            out == (self.id() == (id@, generation, operation@)),
    {
        same_text(&self.extension_id, id) && self.generation == generation && same_text(
            &self.operation,
            operation,
        )
    }
}

/// The identities of waiting publications.
pub open spec fn pending_ids(pending: Seq<LifecyclePublication>) -> Seq<PublicationId> {
    pending.map_values(|p: LifecyclePublication| p.id())
}

/// The identities of announced publications.
pub open spec fn published_ids(published: Seq<LifecycleKey>) -> Seq<PublicationId> {
    published.map_values(|k: LifecycleKey| k.id())
}

/// Position of the first of `keys` that is not in `waiting`, or the length where all are.
pub open spec fn first_settled(keys: Seq<PublicationId>, waiting: Seq<PublicationId>) -> int
    decreases keys.len(),
{
    if keys.len() == 0 {
        0
    } else if !waiting.contains(keys[0]) {
        0
    } else {
        1 + first_settled(keys.drop_first(), waiting)
    }
}

/// `keys` without the oldest ones that no longer wait, until at most `limit` are left or all the rest
/// still wait.
pub open spec fn forget(
    keys: Seq<PublicationId>,
    waiting: Seq<PublicationId>,
    limit: nat,
) -> Seq<PublicationId>
    decreases keys.len(),
    via forget_shrinks
{
    let i = first_settled(keys, waiting);
    if keys.len() <= limit || i >= keys.len() {
        keys
    } else {
        forget(keys.remove(i), waiting, limit)
    }
}

#[via_fn]
proof fn forget_shrinks(keys: Seq<PublicationId>, waiting: Seq<PublicationId>, limit: nat) {
    first_settled_bounds(keys, waiting);
}

proof fn first_settled_bounds(keys: Seq<PublicationId>, waiting: Seq<PublicationId>)
    ensures
        0 <= first_settled(keys, waiting) <= keys.len(),
        first_settled(keys, waiting) < keys.len() ==> !waiting.contains(
            keys[first_settled(keys, waiting)],
        ),
        forall|j: int|
            0 <= j < first_settled(keys, waiting) ==> waiting.contains(#[trigger] keys[j]),
    decreases keys.len(),
{
    if keys.len() > 0 && waiting.contains(keys[0]) {
        let rest = keys.drop_first();
        first_settled_bounds(rest, waiting);
        assert forall|j: int| 0 <= j < first_settled(keys, waiting) implies waiting.contains(
            #[trigger] keys[j],
        ) by {
            if j > 0 {
                assert(rest[j - 1] == keys[j]);
            }
        }
    }
}

proof fn first_settled_is(keys: Seq<PublicationId>, waiting: Seq<PublicationId>, i: int)
    requires
        0 <= i <= keys.len(),
        i < keys.len() ==> !waiting.contains(keys[i]),
        forall|j: int| 0 <= j < i ==> waiting.contains(#[trigger] keys[j]),
    ensures
        first_settled(keys, waiting) == i,
{
    first_settled_bounds(keys, waiting);
    let f = first_settled(keys, waiting);
    if i < f {
        assert(waiting.contains(keys[i]));
    } else if f < i {
        assert(waiting.contains(keys[f]));
    }
}

/// `keys` with `id` at the end, unless it is there already.
pub open spec fn remembered(keys: Seq<PublicationId>, id: PublicationId) -> Seq<PublicationId> {
    if keys.contains(id) {
        keys
    } else {
        keys.push(id)
    }
}

impl LifecyclePublicationState {
    /// Nothing is remembered twice, and no more wait or are remembered than may.
    pub open spec fn wf(&self) -> bool {
        &&& self.pending@.len() <= EXTENSION_LIFECYCLE_PENDING_LIMIT
        &&& self.published@.len() <= EXTENSION_LIFECYCLE_DEDUP_LIMIT
        &&& published_ids(self.published@).no_duplicates()
    }

    /// Nothing waits and nothing was announced.
    pub fn new() -> (out: Self)
        ensures
            out.pending@.len() == 0,
            out.published@.len() == 0,
            out.wf(),
    {
        LifecyclePublicationState { pending: Vec::new(), published: Vec::new() }
    }

    /// Whether a publication waits.
    pub fn pending_exists(&self, id: &str, generation: u64, operation: &str) -> (out: bool)
        ensures
            out == pending_ids(self.pending@).contains((id@, generation, operation@)),
    {
        self.find_pending(id, generation, operation).is_some()
    }

    /// The first waiting publication with the given identity.
    fn find_pending(&self, id: &str, generation: u64, operation: &str) -> (out: Option<usize>)
        ensures
            match out {
                Some(i) => i < self.pending@.len() && self.pending@[i as int].id() == (
                    id@,
                    generation,
                    operation@,
                ) && pending_ids(self.pending@).contains((id@, generation, operation@)) && (forall|
                    j: int,
                |
                    0 <= j < i ==> (#[trigger] self.pending@[j]).id() != (
                        id@,
                        generation,
                        operation@,
                    )),
                None => !pending_ids(self.pending@).contains((id@, generation, operation@)),
            },
    {
        let mut i: usize = 0;
        while i < self.pending.len()
            invariant
                i <= self.pending@.len(),
                forall|j: int|
                    0 <= j < i ==> (#[trigger] self.pending@[j]).id() != (
                        id@,
                        generation,
                        operation@,
                    ),
            decreases self.pending@.len() - i,
        {
            if self.pending[i].is(id, generation, operation) {
                assert(pending_ids(self.pending@)[i as int] == (id@, generation, operation@));
                return Some(i);
            }
            i = i + 1;
        }
        proof {
            let all = pending_ids(self.pending@);
            if all.contains((id@, generation, operation@)) {
                let j = choose|j: int|
                    0 <= j < all.len() && all[j] == (id@, generation, operation@);
                assert(self.pending@[j].id() == (id@, generation, operation@));
            }
        }
        None
    }

    /// Whether a publication is remembered as announced.
    pub fn was_published(&self, id: &str, generation: u64, operation: &str) -> (out: bool)
        ensures
            out == published_ids(self.published@).contains((id@, generation, operation@)),
    {
        let mut i: usize = 0;
        while i < self.published.len()
            invariant
                i <= self.published@.len(),
                forall|j: int|
                    0 <= j < i ==> (#[trigger] self.published@[j]).id() != (
                        id@,
                        generation,
                        operation@,
                    ),
            decreases self.published@.len() - i,
        {
            let key = &self.published[i];
            if same_text(&key.extension_id, id) && key.generation == generation && same_text(
                &key.operation,
                operation,
            ) {
                assert(published_ids(self.published@)[i as int] == (id@, generation, operation@));
                return true;
            }
            i = i + 1;
        }
        proof {
            let all = published_ids(self.published@);
            if all.contains((id@, generation, operation@)) {
                let j = choose|j: int|
                    0 <= j < all.len() && all[j] == (id@, generation, operation@);
                assert(self.published@[j].id() == (id@, generation, operation@));
            }
        }
        false
    }

    /// The first announced publication that does not wait again.
    fn find_settled(&self) -> (out: usize)
        ensures
            out == first_settled(published_ids(self.published@), pending_ids(self.pending@)),
            out <= self.published@.len(),
    {
        let ghost keys = published_ids(self.published@);
        let ghost waiting = pending_ids(self.pending@);
        let mut i: usize = 0;
        while i < self.published.len()
            invariant
                i <= self.published@.len(),
                keys == published_ids(self.published@),
                waiting == pending_ids(self.pending@),
                forall|j: int| 0 <= j < i ==> waiting.contains(#[trigger] keys[j]),
            decreases self.published@.len() - i,
        {
            let key = &self.published[i];
            assert(keys[i as int] == key.id());
            if !self.pending_exists(&key.extension_id, key.generation, &key.operation) {
                proof {
                    first_settled_is(keys, waiting, i as int);
                }
                return i;
            }
            i = i + 1;
        }
        proof {
            first_settled_is(keys, waiting, i as int);
        }
        i
    }

    /// Remembers a publication as announced, and forgets the oldest ones over the limit.
    pub fn mark_published(&mut self, publication: &LifecyclePublication)
        requires
            published_ids(old(self).published@).no_duplicates(),
        ensures
            final(self).pending == old(self).pending,
            published_ids(final(self).published@) == forget(
                remembered(published_ids(old(self).published@), publication.id()),
                pending_ids(old(self).pending@),
                EXTENSION_LIFECYCLE_DEDUP_LIMIT as nat,
            ),
            published_ids(final(self).published@).no_duplicates(),
    {
        let ghost goal = forget(
            remembered(published_ids(self.published@), publication.id()),
            pending_ids(self.pending@),
            EXTENSION_LIFECYCLE_DEDUP_LIMIT as nat,
        );
        if !self.was_published(
            &publication.extension_id,
            publication.generation,
            &publication.operation,
        ) {
            let ghost before = self.published@;
            self.published.push(
                LifecycleKey {
                    extension_id: publication.extension_id.clone(),
                    generation: publication.generation,
                    operation: publication.operation.clone(),
                },
            );
            assert(published_ids(self.published@) =~= published_ids(before).push(publication.id()));
        }
        while self.published.len() > EXTENSION_LIFECYCLE_DEDUP_LIMIT
            invariant
                self.pending == old(self).pending,
                published_ids(self.published@).no_duplicates(),
                goal == forget(
                    published_ids(self.published@),
                    pending_ids(self.pending@),
                    EXTENSION_LIFECYCLE_DEDUP_LIMIT as nat,
                ),
            ensures
                goal == published_ids(self.published@),
            decreases self.published@.len(),
        {
            let i = self.find_settled();
            if i >= self.published.len() {
                break;
            }
            let ghost before = self.published@;
            let _ = self.published.remove(i);
            assert(published_ids(self.published@) =~= published_ids(before).remove(i as int));
        }
    }

    /// Refuses work that would need more room in the queue than is left.
    pub fn ensure_capacity(&self, required: usize) -> (out: Result<(), ExtensionError>)
        ensures
            out is Ok <==> self.pending@.len() + required <= EXTENSION_LIFECYCLE_PENDING_LIMIT,
            out matches Err(e) ==> e.is(
                "lifecycle_backpressure"@,
                "lifecycle publication retry queue is full"@,
            ),
    {
        let free = if self.pending.len() <= EXTENSION_LIFECYCLE_PENDING_LIMIT {
            required <= EXTENSION_LIFECYCLE_PENDING_LIMIT - self.pending.len()
        } else {
            false
        };
        if free {
            Ok(())
        } else {
            Err(backpressure())
        }
    }

    /// Drops the waiting publications with the given identity.
    pub fn remove_pending(&mut self, id: &str, generation: u64, operation: &str)
        ensures
            final(self).published == old(self).published,
            final(self).pending@ == old(self).pending@.filter(
                |p: LifecyclePublication| p.id() != (id@, generation, operation@),
            ),
    {
        broadcast use vstd::seq_lib::group_filter_ensures;

        let ghost keep = |p: LifecyclePublication| p.id() != (id@, generation, operation@);
        let ghost all = self.pending@;
        let mut i: usize = 0;
        let mut passed: Ghost<int> = Ghost(0);
        assert(all.take(0).filter(keep) =~= all.take(0));
        assert(self.pending@.take(0) + all.skip(0) =~= self.pending@);
        while i < self.pending.len()
            invariant
                i <= self.pending@.len(),
                0 <= passed@ <= all.len(),
                self.pending@.len() - i == all.len() - passed@,
                self.published == old(self).published,
                keep == (|p: LifecyclePublication| p.id() != (id@, generation, operation@)),
                self.pending@ == all.take(passed@).filter(keep) + all.skip(passed@),
                i == all.take(passed@).filter(keep).len(),
            decreases self.pending@.len() - i,
        {
            let ghost at = passed@;
            proof {
                assert(self.pending@[i as int] == all[at]);
                assert(all.take(at + 1).drop_last() =~= all.take(at));
                assert(all.take(at + 1).last() == all[at]);
                reveal(Seq::filter);
            }
            if self.pending[i].is(id, generation, operation) {
                let _ = self.pending.remove(i);
                assert(self.pending@ =~= all.take(at + 1).filter(keep) + all.skip(at + 1));
            } else {
                assert(all.take(at).filter(keep) + all.skip(at) =~= all.take(at + 1).filter(keep)
                    + all.skip(at + 1));
                i = i + 1;
            }
            proof {
                passed@ = at + 1;
            }
        }
        assert(all.take(passed@) =~= all);
        assert(self.pending@ =~= all.filter(keep));
    }
}

/// The error of a full queue.
pub fn backpressure() -> (out: ExtensionError)
    ensures
        out.is("lifecycle_backpressure"@, "lifecycle publication retry queue is full"@),
{
    ExtensionError::new("lifecycle_backpressure", "lifecycle publication retry queue is full")
}

/// What came of the attempt to announce a publication.
#[derive(Debug)]
pub enum PublishOutcome {
    /// Earlier publications could not be announced.
    FlushFailed(ExtensionError),
    /// The host has no scope to announce anything in yet.
    NoScope,
    /// The publication was sent, if it had to be, and this is the answer.
    Answered(Result<(), ExtensionError>),
}

/// What is remembered of the announced publications never exceeds the limit or the number that wait.
pub proof fn forget_is_bounded(
    keys: Seq<PublicationId>,
    waiting: Seq<PublicationId>,
    limit: nat,
)
    requires
        keys.no_duplicates(),
    ensures
        forget(keys, waiting, limit).len() <= limit || forget(keys, waiting, limit).len()
            <= waiting.len(),
        forget(keys, waiting, limit).no_duplicates(),
    decreases keys.len(),
{
    first_settled_bounds(keys, waiting);
    let i = first_settled(keys, waiting);
    if keys.len() > limit {
        if i < keys.len() {
            assert(keys.remove(i).no_duplicates()) by {
                let after = keys.remove(i);
                assert forall|a: int, b: int| 0 <= a < after.len() && 0 <= b < after.len() && a
                    != b implies after[a] != after[b] by {
                    let a0 = if a < i { a } else { a + 1 };
                    let b0 = if b < i { b } else { b + 1 };
                    assert(keys[a0] != keys[b0]);
                }
            }
            forget_is_bounded(keys.remove(i), waiting, limit);
        } else {
            assert(keys.to_set().subset_of(waiting.to_set())) by {
                assert forall|k: PublicationId| keys.to_set().contains(k) implies waiting.to_set().contains(k) by {
                    let j = choose|j: int| 0 <= j < keys.len() && keys[j] == k;
                    assert(waiting.contains(keys[j]));
                }
            }
            keys.unique_seq_to_set();
            vstd::seq_lib::seq_to_set_is_finite(waiting);
            vstd::set_lib::lemma_len_subset(keys.to_set(), waiting.to_set());
            waiting.lemma_cardinality_of_set();
        }
    }
}

impl LifecyclePublicationState {
    /// The publication that is to be announced next.
    pub fn next_pending(&self) -> (out: Option<&LifecyclePublication>)
        ensures
            match out {
                Some(publication) => self.pending@.len() > 0 && *publication == self.pending@[0],
                None => self.pending@.len() == 0,
            },
    {
        if self.pending.len() == 0 {
            None
        } else {
            Some(&self.pending[0])
        }
    }

    /// Takes note that the oldest waiting publication was announced.
    pub fn front_published(&mut self)
        requires
            old(self).wf(),
        ensures
            final(self).wf(),
            old(self).pending@.len() == 0 ==> *final(self) == *old(self),
            old(self).pending@.len() > 0 ==> {
                &&& final(self).pending@ == old(self).pending@.drop_first()
                &&& published_ids(final(self).published@) == forget(
                    remembered(published_ids(old(self).published@), old(self).pending@[0].id()),
                    pending_ids(old(self).pending@.drop_first()),
                    EXTENSION_LIFECYCLE_DEDUP_LIMIT as nat,
                )
            },
    {
        if self.pending.len() > 0 {
            let front = self.pending.remove(0);
            assert(self.pending@ =~= old(self).pending@.drop_first());
            let ghost keys = remembered(published_ids(self.published@), front.id());
            self.mark_published(&front);
            proof {
                remembered_unique(published_ids(old(self).published@), front.id());
                forget_is_bounded(
                    keys,
                    pending_ids(self.pending@),
                    EXTENSION_LIFECYCLE_DEDUP_LIMIT as nat,
                );
                assert(published_ids(self.published@).len() == self.published@.len());
            }
        }
    }

    /// What the queue looks like after an attempt to announce `publication`, and what the attempt
    /// came to.
    pub open spec fn settled(
        self,
        after: Self,
        publication: LifecyclePublication,
        outcome: PublishOutcome,
        result: Result<(), ExtensionError>,
    ) -> bool {
        let id = publication.id();
        let waits = pending_ids(self.pending@).contains(id);
        let announced = published_ids(self.published@).contains(id);
        let full = self.pending@.len() >= EXTENSION_LIFECYCLE_PENDING_LIMIT;
        match outcome {
            PublishOutcome::FlushFailed(error) => if waits {
                after == self && result == Err::<(), ExtensionError>(error)
            } else if full {
                after == self && refused_full(result)
            } else {
                self.queued(after, publication) && result == Err::<(), ExtensionError>(error)
            },
            PublishOutcome::NoScope => if announced {
                after == self && result is Ok
            } else if waits {
                self.refreshed(after, publication) && result is Ok
            } else if full {
                after == self && refused_full(result)
            } else {
                self.queued(after, publication) && result is Ok
            },
            PublishOutcome::Answered(answer) => if announced {
                after == self && result is Ok
            } else {
                match answer {
                    Ok(_) => {
                        &&& after.pending == self.pending
                        &&& published_ids(after.published@) == forget(
                            published_ids(self.published@).push(id),
                            pending_ids(self.pending@),
                            EXTENSION_LIFECYCLE_DEDUP_LIMIT as nat,
                        )
                        &&& result is Ok
                    },
                    Err(error) => if full {
                        after == self && refused_full(result)
                    } else {
                        self.queued(after, publication) && result == Err::<(), ExtensionError>(
                            error,
                        )
                    },
                }
            },
        }
    }

    /// The queue with a publication at its end.
    pub open spec fn queued(self, after: Self, publication: LifecyclePublication) -> bool {
        after.pending@ == self.pending@.push(publication) && after.published == self.published
    }

    /// The queue with the snapshot of the first waiting publication of that identity renewed.
    pub open spec fn refreshed(self, after: Self, publication: LifecyclePublication) -> bool {
        &&& after.published == self.published
        &&& exists|i: int|
            {
                &&& 0 <= i < self.pending@.len()
                &&& self.pending@[i].id() == publication.id()
                &&& forall|j: int|
                    0 <= j < i ==> (#[trigger] self.pending@[j]).id() != publication.id()
                &&& #[trigger] after.pending@[i] == (LifecyclePublication {
                    snapshot: publication.snapshot,
                    ..self.pending@[i]
                })
                &&& after.pending@ == self.pending@.update(i, after.pending@[i])
            }
    }

    /// Takes note of an attempt to announce a publication. One that could not be announced waits,
    /// where there is room; one that was announced before is not announced again.
    pub fn publish_lifecycle(
        &mut self,
        publication: LifecyclePublication,
        outcome: PublishOutcome,
    ) -> (out: Result<(), ExtensionError>)
        requires
            old(self).wf(),
        ensures
            final(self).wf(),
            old(self).settled(*final(self), publication, outcome, out),
    {
        let waits = self.find_pending(
            &publication.extension_id,
            publication.generation,
            &publication.operation,
        );
        let announced = self.was_published(
            &publication.extension_id,
            publication.generation,
            &publication.operation,
        );
        let full = self.pending.len() >= EXTENSION_LIFECYCLE_PENDING_LIMIT;
        match outcome {
            PublishOutcome::FlushFailed(error) => {
                if waits.is_none() {
                    if full {
                        return Err(backpressure());
                    }
                    self.pending.push(publication);
                }
                Err(error)
            },
            PublishOutcome::NoScope => {
                if announced {
                    return Ok(());
                }
                match waits {
                    Some(i) => {
                        let ghost before = self.pending@;
                        let old_publication = self.pending.remove(i);
                        let renewed = LifecyclePublication {
                            snapshot: publication.snapshot,
                            ..old_publication
                        };
                        self.pending.insert(i, renewed);
                        assert(self.pending@ =~= before.update(i as int, renewed));
                        assert(self.pending@[i as int] == renewed);
                    },
                    None => {
                        if full {
                            return Err(backpressure());
                        }
                        self.pending.push(publication);
                    },
                }
                Ok(())
            },
            PublishOutcome::Answered(answer) => {
                if announced {
                    return Ok(());
                }
                match answer {
                    Ok(()) => {
                        self.mark_published(&publication);
                        proof {
                            let keys = published_ids(old(self).published@);
                            remembered_unique(keys, publication.id());
                            forget_is_bounded(
                                keys.push(publication.id()),
                                pending_ids(self.pending@),
                                EXTENSION_LIFECYCLE_DEDUP_LIMIT as nat,
                            );
                            assert(published_ids(self.published@).len() == self.published@.len());
                        }
                        Ok(())
                    },
                    Err(error) => {
                        if full {
                            return Err(backpressure());
                        }
                        self.pending.push(publication);
                        Err(error)
                    },
                }
            },
        }
    }
}

/// Whether a result is the refusal of a full queue.
pub open spec fn refused_full(result: Result<(), ExtensionError>) -> bool {
    result matches Err(e) && e.is(
        "lifecycle_backpressure"@,
        "lifecycle publication retry queue is full"@,
    )
}

proof fn remembered_unique(keys: Seq<PublicationId>, id: PublicationId)
    requires
        keys.no_duplicates(),
    ensures
        remembered(keys, id).no_duplicates(),
{
    if !keys.contains(id) {
        let after = keys.push(id);
        assert forall|a: int, b: int| 0 <= a < after.len() && 0 <= b < after.len() && a
            != b implies after[a] != after[b] by {
            if a < keys.len() {
                assert(keys.contains(keys[a]));
            }
            if b < keys.len() {
                assert(keys.contains(keys[b]));
            }
        }
    }
}

/// What was announced and is remembered is not announced again: an attempt leaves the queue as it is
/// and succeeds, unless earlier publications fail.
pub proof fn announced_once(
    queue: LifecyclePublicationState,
    after: LifecyclePublicationState,
    publication: LifecyclePublication,
    outcome: PublishOutcome,
    result: Result<(), ExtensionError>,
)
    requires
        published_ids(queue.published@).contains(publication.id()),
        queue.settled(after, publication, outcome, result),
        !(outcome is FlushFailed),
    ensures
        after == queue,
        result is Ok,
{
}

/// A publication that is not announced waits, or the caller learns that the queue is full: none is
/// lost in silence.
pub proof fn nothing_is_lost(
    queue: LifecyclePublicationState,
    after: LifecyclePublicationState,
    publication: LifecyclePublication,
    outcome: PublishOutcome,
    result: Result<(), ExtensionError>,
)
    requires
        queue.settled(after, publication, outcome, result),
        !(outcome matches PublishOutcome::Answered(Ok(_))),
    ensures
        published_ids(queue.published@).contains(publication.id()) || pending_ids(
            after.pending@,
        ).contains(publication.id()) || refused_full(result),
{
    let id = publication.id();
    if queue.queued(after, publication) {
        assert(pending_ids(after.pending@)[after.pending@.len() - 1] == id);
    }
    if queue.refreshed(after, publication) {
        let i = choose|i: int|
            {
                &&& 0 <= i < queue.pending@.len()
                &&& queue.pending@[i].id() == publication.id()
                &&& forall|j: int|
                    0 <= j < i ==> (#[trigger] queue.pending@[j]).id() != publication.id()
                &&& #[trigger] after.pending@[i] == (LifecyclePublication {
                    snapshot: publication.snapshot,
                    ..queue.pending@[i]
                })
                &&& after.pending@ == queue.pending@.update(i, after.pending@[i])
            };
        assert(pending_ids(after.pending@)[i] == id);
    }
}

/// An announcement that was answered well is remembered as made and does not wait; one that was not waits,
/// unless the queue is full. What was announced before is not announced again.
pub proof fn announcements_are_settled(
    queue: LifecyclePublicationState,
    after: LifecyclePublicationState,
    publication: LifecyclePublication,
    outcome: PublishOutcome,
    result: Result<(), ExtensionError>,
)
    requires
        queue.settled(after, publication, outcome, result),
    ensures
        ({
            let id = publication.id();
            let announced = published_ids(queue.published@).contains(id);
            let waits = pending_ids(queue.pending@).contains(id);
            let full = queue.pending@.len() >= 64;
            &&& !(outcome is FlushFailed) && announced ==> after == queue && result is Ok
            &&& outcome matches PublishOutcome::Answered(Ok(_)) ==> result is Ok && after.pending
                == queue.pending
            &&& outcome matches PublishOutcome::Answered(Err(error)) ==> !announced && !full
                ==> result == Err::<(), ExtensionError>(error) && after.pending@.len()
                == queue.pending@.len() + 1 && after.pending@.last() == publication
            &&& outcome is NoScope && !announced && !waits && !full ==> result is Ok
                && after.pending@.len() == queue.pending@.len() + 1 && after.pending@.last()
                == publication
            &&& outcome matches PublishOutcome::FlushFailed(error) ==> (waits || !full) ==> result
                == Err::<(), ExtensionError>(error)
            &&& outcome is FlushFailed && !waits && full ==> after == queue && (result matches Err(
                e,
            ) && e.code@ == "lifecycle_backpressure"@)
        }),
{
}

/// Where none of them waits, what is forgotten is the oldest, and no more than has to be.
pub proof fn oldest_are_forgotten(
    keys: Seq<PublicationId>,
    waiting: Seq<PublicationId>,
    limit: nat,
)
    requires
        forall|i: int| 0 <= i < keys.len() ==> !waiting.contains(#[trigger] keys[i]),
    ensures
        keys.len() <= limit ==> forget(keys, waiting, limit) == keys,
        keys.len() > limit ==> forget(keys, waiting, limit) == keys.skip(keys.len() - limit),
    decreases keys.len(),
{
    if keys.len() > limit {
        assert(!waiting.contains(keys[0]));
        assert(first_settled(keys, waiting) == 0);
        let rest = keys.remove(0);
        assert(rest =~= keys.skip(1));
        assert forall|i: int| 0 <= i < rest.len() implies !waiting.contains(#[trigger] rest[i]) by {
            assert(rest[i] == keys[i + 1]);
        }
        oldest_are_forgotten(rest, waiting, limit);
        if rest.len() > limit {
            assert(rest.skip(rest.len() - limit) =~= keys.skip(keys.len() - limit));
        } else {
            assert(keys.skip(keys.len() - limit) =~= rest);
        }
    }
}

/// What waits to be announced again is never forgotten as announced, and nothing is remembered that was not
/// announced.
pub proof fn waiting_are_remembered(
    keys: Seq<PublicationId>,
    waiting: Seq<PublicationId>,
    limit: nat,
    id: PublicationId,
)
    ensures
        keys.contains(id) && waiting.contains(id) ==> forget(keys, waiting, limit).contains(id),
        forget(keys, waiting, limit).contains(id) ==> keys.contains(id),
    decreases keys.len(),
{
    first_settled_bounds(keys, waiting);
    let i = first_settled(keys, waiting);
    if keys.len() > limit && i < keys.len() {
        let rest = keys.remove(i);
        waiting_are_remembered(rest, waiting, limit, id);
        if keys.contains(id) && waiting.contains(id) {
            let k = choose|k: int| 0 <= k < keys.len() && keys[k] == id;
            if k < i {
                assert(rest[k] == id);
            } else {
                assert(k > i);
                assert(rest[k - 1] == id);
            }
        }
        if rest.contains(id) {
            let k = choose|k: int| 0 <= k < rest.len() && rest[k] == id;
            if k < i {
                assert(keys[k] == id);
            } else {
                assert(keys[k + 1] == id);
            }
        }
    }
}

/// What was announced is remembered, once, and nothing that was remembered is lost by it.
pub proof fn announced_is_remembered(
    keys: Seq<PublicationId>,
    id: PublicationId,
    other: PublicationId,
)
    ensures
        remembered(keys, id).contains(id),
        keys.contains(other) ==> remembered(keys, id).contains(other),
        other != id && remembered(keys, id).contains(other) ==> keys.contains(other),
        keys.no_duplicates() ==> remembered(keys, id).no_duplicates(),
{
    let after = remembered(keys, id);
    if !keys.contains(id) {
        assert(after[keys.len() as int] == id);
        if keys.contains(other) {
            let i = choose|i: int| 0 <= i < keys.len() && keys[i] == other;
            assert(after[i] == other);
        }
        if other != id && after.contains(other) {
            let i = choose|i: int| 0 <= i < after.len() && after[i] == other;
            assert(keys[i] == other);
        }
        if keys.no_duplicates() {
            assert forall|a: int, b: int|
                0 <= a < after.len() && 0 <= b < after.len() && a != b implies after[a]
                != after[b] by {
                if a < keys.len() {
                    assert(keys.contains(keys[a]));
                }
                if b < keys.len() {
                    assert(keys.contains(keys[b]));
                }
            }
        }
    }
}

}
