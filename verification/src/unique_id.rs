use vstd::prelude::*;

verus! {

/// Identifies one request of a client (a publish, a subscribe, an
/// unsubscribe) across the events that answer it.
#[derive(Debug, Clone, Copy, PartialEq, Eq, Structural)]
pub struct UniqueID(pub u32);

/// What a deque of freed unique ids holds, front first.
pub uninterp spec fn id_deque_items(d: heapless::Deque<u32, 16>) -> Seq<u32>;

/// `heapless::Deque::new`: an empty deque.
#[verifier::external_body]
fn id_deque_new() -> (d: heapless::Deque<u32, 16>)
    ensures
        id_deque_items(d) == Seq::<u32>::empty(),
{
    heapless::Deque::new()
}

/// `heapless::Deque::pop_front`: removes and returns the front item, or
/// `None` where the deque is empty.
#[verifier::external_body]
fn id_deque_pop_front(d: &mut heapless::Deque<u32, 16>) -> (r: Option<u32>)
    ensures
        id_deque_items(*old(d)).len() == 0 ==> r is None && id_deque_items(*final(d)) == id_deque_items(*old(d)),
        id_deque_items(*old(d)).len() > 0 ==> r == Some(id_deque_items(*old(d))[0])
            && id_deque_items(*final(d)) == id_deque_items(*old(d)).drop_first(),
{
    d.pop_front()
}

/// `heapless::Deque::push_back`: appends the item, or hands it back where
/// the deque already holds 16 items.
#[verifier::external_body]
fn id_deque_push_back(d: &mut heapless::Deque<u32, 16>, item: u32) -> (r: Result<(), u32>)
    requires
        id_deque_items(*old(d)).len() <= 16,
    ensures
        id_deque_items(*old(d)).len() == 16 ==> r is Err && r->Err_0 == item && id_deque_items(*final(d)) == id_deque_items(*old(d)),
        id_deque_items(*old(d)).len() < 16 ==> r is Ok && id_deque_items(*final(d)) == id_deque_items(*old(d)).push(item),
{
    d.push_back(item)
}

/// `heapless::Deque::len`: the number of items held.
#[verifier::external_body]
fn id_deque_len(d: &heapless::Deque<u32, 16>) -> (r: usize)
    ensures
        r == id_deque_items(*d).len(),
{
    d.len()
}

/// Hands out unique ids: freed ids first, oldest first, then fresh ones
/// counting up from 0.
pub struct UniqueIDPool {
    pool: heapless::Deque<u32, 16>,
    next_unused: u32,
}

impl UniqueIDPool {
    /// The freed ids waiting for reuse, front first
    pub closed spec fn freed(&self) -> Seq<u32> {
        id_deque_items(self.pool)
    }

    pub closed spec fn next_unused(&self) -> u32 {
        self.next_unused
    }

    pub open spec fn wf(&self) -> bool {
        self.freed().len() <= 16
    }

    pub fn new() -> (p: Self)
        ensures
            p.wf(),
            p.freed() == Seq::<u32>::empty(),
            p.next_unused() == 0,
    {
        UniqueIDPool { pool: id_deque_new(), next_unused: 0 }
    }

    /// Hands out the front freed id, or else a fresh one.
    pub fn next(&mut self) -> (id: UniqueID)
        requires
            old(self).wf(),
            old(self).freed().len() > 0 || old(self).next_unused() < u32::MAX,
        ensures
            final(self).wf(),
            old(self).freed().len() > 0 ==> id.0 == old(self).freed()[0]
                && final(self).freed() == old(self).freed().drop_first()
                && final(self).next_unused() == old(self).next_unused(),
            old(self).freed().len() == 0 ==> id.0 == old(self).next_unused()
                && final(self).freed() == old(self).freed()
                && final(self).next_unused() == old(self).next_unused() + 1,
    {
        match id_deque_pop_front(&mut self.pool) {
            Some(id) => UniqueID(id),
            None => self.take(),
        }
    }

    fn take(&mut self) -> (id: UniqueID)
        requires
            old(self).next_unused < u32::MAX,
        ensures
            final(self).pool == old(self).pool,
            id.0 == old(self).next_unused,
            final(self).next_unused == old(self).next_unused + 1,
    {
        let id = self.next_unused;
        self.next_unused = self.next_unused + 1;
        UniqueID(id)
    }

    /// Whether no id is left to hand out: none freed and the fresh ones used up.
    pub fn is_exhausted(&self) -> (r: bool)
        ensures
            r == (self.freed().len() == 0 && self.next_unused() == u32::MAX),
    {
        id_deque_len(&self.pool) == 0 && self.next_unused == u32::MAX
    }

    /// Whether the pool of freed ids is full.
    pub fn is_full(&self) -> (r: bool)
        ensures
            r == (self.freed().len() >= 16),
    {
        id_deque_len(&self.pool) >= 16
    }

    /// Gives `id` back for reuse.
    pub fn free(&mut self, id: UniqueID)
        requires
            old(self).wf(),
            old(self).freed().len() < 16,
        ensures
            final(self).wf(),
            final(self).freed() == old(self).freed().push(id.0),
            final(self).next_unused() == old(self).next_unused(),
    {
        let _ = id_deque_push_back(&mut self.pool, id.0);
    }
}

/// Ids handed out and not freed since: below the fresh counter and not
/// waiting in the pool.
pub open spec fn id_in_use(freed: Seq<u32>, next_unused: u32, id: u32) -> bool {
    id < next_unused && !freed.contains(id)
}

/// A pool state in which no id is both free and in use: the freed ids are
/// distinct and below the fresh counter.
pub open spec fn ids_valid(freed: Seq<u32>, next_unused: u32) -> bool {
    &&& freed.len() <= 16
    &&& forall|i: int| 0 <= i < freed.len() ==> #[trigger] freed[i] < next_unused
    &&& freed.no_duplicates()
}

/// Handing out an id from a valid pool (as `next` does) keeps it valid and
/// yields an id that was not in use, which is in use afterwards; every id
/// in use before stays in use: two requests never share an id.
pub proof fn lemma_next_id_fresh(freed: Seq<u32>, next_unused: u32)
    requires
        ids_valid(freed, next_unused),
        freed.len() > 0 || next_unused < u32::MAX,
    ensures
        ({
            let (id, f2, n2) = if freed.len() > 0 {
                (freed[0], freed.drop_first(), next_unused)
            } else {
                (next_unused, freed, (next_unused + 1) as u32)
            };
            &&& ids_valid(f2, n2)
            &&& !id_in_use(freed, next_unused, id)
            &&& id_in_use(f2, n2, id)
            &&& forall|x: u32| id_in_use(freed, next_unused, x) ==> id_in_use(f2, n2, x)
        }),
{
    if freed.len() > 0 {
        let f2 = freed.drop_first();
        assert(freed.contains(freed[0]));
        assert forall|x: u32| id_in_use(freed, next_unused, x) implies id_in_use(f2, next_unused, x) by {
            if f2.contains(x) {
                let i = choose|i: int| 0 <= i < f2.len() && f2[i] == x;
                assert(freed[i + 1] == x);
            }
        }
        assert forall|i: int| 0 <= i < f2.len() implies #[trigger] f2[i] < next_unused by {
            assert(f2[i] == freed[i + 1]);
        }
        assert(f2.no_duplicates()) by {
            assert forall|i: int, j: int| 0 <= i < f2.len() && 0 <= j < f2.len() && i != j implies f2[i] != f2[j] by {
                assert(f2[i] == freed[i + 1]);
                assert(f2[j] == freed[j + 1]);
            }
        }
        assert(!f2.contains(freed[0])) by {
            if f2.contains(freed[0]) {
                let i = choose|i: int| 0 <= i < f2.len() && f2[i] == freed[0];
                assert(freed[i + 1] == freed[0]);
            }
        }
    } else {
        assert(!freed.contains(next_unused));
    }
}

} // verus!
