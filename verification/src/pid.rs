use vstd::prelude::*;
use crate::packet::Pid;

verus! {

#[verifier::external_type_specification]
#[verifier::external_body]
#[verifier::reject_recursive_types(T)]
pub struct ExDeque<T, const N: usize>(heapless::Deque<T, N>);

/// Number of freed packet identifiers the pool keeps for reuse.
pub const PID_POOL_SIZE: usize = 16;

/// What a deque of freed packet identifiers holds, front first.
pub uninterp spec fn pid_deque_items(d: heapless::Deque<u16, 16>) -> Seq<u16>;

/// `heapless::Deque::new`: an empty deque.
#[verifier::external_body]
fn pid_deque_new() -> (d: heapless::Deque<u16, 16>)
    ensures
        pid_deque_items(d) == Seq::<u16>::empty(),
{
    heapless::Deque::new()
}

/// `heapless::Deque::pop_front`: removes and returns the front item, or
/// `None` where the deque is empty.
#[verifier::external_body]
fn pid_deque_pop_front(d: &mut heapless::Deque<u16, 16>) -> (r: Option<u16>)
    ensures
        pid_deque_items(*old(d)).len() == 0 ==> r is None && pid_deque_items(*final(d)) == pid_deque_items(*old(d)),
        pid_deque_items(*old(d)).len() > 0 ==> r == Some(pid_deque_items(*old(d))[0])
            && pid_deque_items(*final(d)) == pid_deque_items(*old(d)).drop_first(),
{
    d.pop_front()
}

/// `heapless::Deque::push_back`: appends the item, or hands it back where
/// the deque already holds 16 items.
#[verifier::external_body]
fn pid_deque_push_back(d: &mut heapless::Deque<u16, 16>, item: u16) -> (r: Result<(), u16>)
    requires
        pid_deque_items(*old(d)).len() <= 16,
    ensures
        pid_deque_items(*old(d)).len() == 16 ==> r is Err && r->Err_0 == item && pid_deque_items(*final(d)) == pid_deque_items(*old(d)),
        pid_deque_items(*old(d)).len() < 16 ==> r is Ok && pid_deque_items(*final(d)) == pid_deque_items(*old(d)).push(item),
{
    d.push_back(item)
}

/// `heapless::Deque::len`: the number of items held.
#[verifier::external_body]
fn pid_deque_len(d: &heapless::Deque<u16, 16>) -> (r: usize)
    ensures
        r == pid_deque_items(*d).len(),
{
    d.len()
}

/// The abstract state of a pid pool: the freed identifiers waiting for reuse,
/// front first, and the next identifier never handed out.
pub struct PidPoolView {
    pub freed: Seq<u16>,
    pub next_new_pid: u16,
}

/// Hands out MQTT packet identifiers: freed identifiers first, oldest first,
/// then fresh ones counting up from 1.
pub struct PidPool {
    pool: heapless::Deque<u16, 16>,
    next_new_pid: u16,
}

/// A pool state in which no identifier is both free and in use: the freed
/// identifiers are distinct, non-zero and below the next fresh identifier.
pub open spec fn pool_valid(v: PidPoolView) -> bool {
    &&& 1 <= v.next_new_pid
    &&& v.freed.len() <= PID_POOL_SIZE
    &&& forall|i: int| 0 <= i < v.freed.len() ==> 1 <= #[trigger] v.freed[i] < v.next_new_pid
    &&& v.freed.no_duplicates()
}

/// Identifiers handed out and not freed since: below the fresh counter and
/// not waiting in the pool.
pub open spec fn in_use(v: PidPoolView, pid: u16) -> bool {
    1 <= pid < v.next_new_pid && !v.freed.contains(pid)
}

/// Whether handing out an identifier panics: the pool is empty and the fresh
/// identifiers are used up.
pub open spec fn pool_exhausted(v: PidPoolView) -> bool {
    v.freed.len() == 0 && v.next_new_pid == u16::MAX
}

/// The identifier handed out next and the state after.
pub open spec fn pool_take(v: PidPoolView) -> (u16, PidPoolView) {
    if v.freed.len() > 0 {
        (v.freed[0], PidPoolView { freed: v.freed.drop_first(), next_new_pid: v.next_new_pid })
    } else {
        (v.next_new_pid, PidPoolView { freed: v.freed, next_new_pid: (v.next_new_pid + 1) as u16 })
    }
}

/// The state after freeing `pid`: it joins the back of the pool, unless the
/// pool is full, in which case the identifier is lost.
pub open spec fn pool_free(v: PidPoolView, pid: u16) -> PidPoolView {
    if v.freed.len() < PID_POOL_SIZE {
        PidPoolView { freed: v.freed.push(pid), next_new_pid: v.next_new_pid }
    } else {
        v
    }
}

impl PidPool {
    pub closed spec fn view(&self) -> PidPoolView {
        PidPoolView { freed: pid_deque_items(self.pool), next_new_pid: self.next_new_pid }
    }

    pub closed spec fn wf(&self) -> bool {
        &&& self.next_new_pid >= 1
        &&& pid_deque_items(self.pool).len() <= PID_POOL_SIZE
        &&& forall|i: int| 0 <= i < pid_deque_items(self.pool).len() ==> #[trigger] pid_deque_items(self.pool)[i] != 0
    }

    pub fn new() -> (p: Self)
        ensures
            p.wf(),
            p.view().freed == Seq::<u16>::empty(),
            p.view().next_new_pid == 1,
            pool_valid(p.view()),
    {
        PidPool { pool: pid_deque_new(), next_new_pid: 1 }
    }

    /// Hands out the front freed identifier, or else a fresh one.
    pub fn next_pid(&mut self) -> (pid: Pid)
        requires
            old(self).wf(),
            !pool_exhausted(old(self).view()),
        ensures
            final(self).wf(),
            (pid@, final(self).view()) == pool_take(old(self).view()),
    {
        match pid_deque_pop_front(&mut self.pool) {
            Some(p) => {
                proof {
                    assert(pid_deque_items(old(self).pool)[0] != 0);
                    assert forall|i: int| 0 <= i < pid_deque_items(self.pool).len() implies
                        #[trigger] pid_deque_items(self.pool)[i] != 0 by {
                        assert(pid_deque_items(self.pool)[i] == pid_deque_items(old(self).pool)[i + 1]);
                    }
                }
                Pid::from_nonzero(p)
            },
            None => self.take(),
        }
    }

    fn take(&mut self) -> (pid: Pid)
        requires
            old(self).wf(),
            old(self).next_new_pid < u16::MAX,
        ensures
            final(self).wf(),
            final(self).pool == old(self).pool,
            pid@ == old(self).next_new_pid,
            final(self).next_new_pid == old(self).next_new_pid + 1,
    {
        let pid = self.next_new_pid;
        self.next_new_pid = self.next_new_pid + 1;
        Pid::from_nonzero(pid)
    }

    /// Whether no identifier is left to hand out; see `pool_exhausted`.
    pub fn is_exhausted(&self) -> (r: bool)
        ensures
            r == pool_exhausted(self.view()),
    {
        pid_deque_len(&self.pool) == 0 && self.next_new_pid == u16::MAX
    }

    /// Gives `pid` back for reuse; where the pool is full the identifier is lost.
    pub fn free_pid(&mut self, pid: Pid)
        requires
            old(self).wf(),
        ensures
            final(self).wf(),
            final(self).view() == pool_free(old(self).view(), pid@),
    {
        let value = pid.get();
        let _ = pid_deque_push_back(&mut self.pool, value);
    }
}

/// Handing out an identifier from a valid pool keeps it valid and yields an
/// identifier that was not in use, which is in use afterwards; everything in
/// use before stays in use.
pub proof fn lemma_take_fresh(v: PidPoolView)
    requires
        pool_valid(v),
        !pool_exhausted(v),
    ensures
        pool_valid(pool_take(v).1),
        !in_use(v, pool_take(v).0),
        in_use(pool_take(v).1, pool_take(v).0),
        forall|p: u16| in_use(v, p) ==> in_use(pool_take(v).1, p),
{
    let (pid, w) = pool_take(v);
    if v.freed.len() > 0 {
        assert(v.freed.contains(v.freed[0]));
        assert forall|p: u16| in_use(v, p) implies in_use(w, p) by {
            if w.freed.contains(p) {
                let i = choose|i: int| 0 <= i < w.freed.len() && w.freed[i] == p;
                assert(v.freed[i + 1] == p);
            }
        }
        assert forall|i: int| 0 <= i < w.freed.len() implies 1 <= #[trigger] w.freed[i] < w.next_new_pid by {
            assert(w.freed[i] == v.freed[i + 1]);
        }
        assert(w.freed.no_duplicates()) by {
            assert forall|i: int, j: int| 0 <= i < w.freed.len() && 0 <= j < w.freed.len() && i != j
                implies w.freed[i] != w.freed[j] by {
                assert(w.freed[i] == v.freed[i + 1]);
                assert(w.freed[j] == v.freed[j + 1]);
            }
        }
        assert(!w.freed.contains(pid)) by {
            if w.freed.contains(pid) {
                let i = choose|i: int| 0 <= i < w.freed.len() && w.freed[i] == pid;
                assert(v.freed[i + 1] == v.freed[0]);
            }
        }
    } else {
        assert(!v.freed.contains(pid));
    }
}

/// Freeing an identifier that is in use keeps a valid pool valid, and the
/// identifier is no longer in use; the others keep their state.
pub proof fn lemma_free_in_use(v: PidPoolView, pid: u16)
    requires
        pool_valid(v),
        in_use(v, pid),
    ensures
        pool_valid(pool_free(v, pid)),
        v.freed.len() < PID_POOL_SIZE ==> !in_use(pool_free(v, pid), pid),
        forall|p: u16| p != pid ==> (in_use(v, p) <==> in_use(pool_free(v, pid), p)),
{
    let w = pool_free(v, pid);
    if v.freed.len() < PID_POOL_SIZE {
        assert(w.freed.no_duplicates()) by {
            assert forall|i: int, j: int| 0 <= i < w.freed.len() && 0 <= j < w.freed.len() && i != j
                implies w.freed[i] != w.freed[j] by {
                if i == v.freed.len() as int {
                    assert(v.freed.contains(v.freed[j]));
                } else if j == v.freed.len() as int {
                    assert(v.freed.contains(v.freed[i]));
                }
            }
        }
        assert(w.freed.contains(pid)) by {
            assert(w.freed[v.freed.len() as int] == pid);
        }
        assert forall|p: u16| p != pid implies (in_use(v, p) <==> in_use(w, p)) by {
            if v.freed.contains(p) {
                let i = choose|i: int| 0 <= i < v.freed.len() && v.freed[i] == p;
                assert(w.freed[i] == p);
            }
            if w.freed.contains(p) {
                let i = choose|i: int| 0 <= i < w.freed.len() && w.freed[i] == p;
                assert(i < v.freed.len());
                assert(v.freed[i] == p);
            }
        }
    } else {
        // the pool is full: the identifier is lost, never handed out again
    }
}

/// A freed identifier is handed out again before any fresh one: freed into
/// a pool with no other freed identifier, it is the next one handed out.
pub proof fn lemma_freed_pid_reused(v: PidPoolView, pid: u16)
    requires
        v.freed.len() == 0,
    ensures
        pool_take(pool_free(v, pid)).0 == pid,
        pool_take(pool_free(v, pid)).1 == v,
{
    assert(v.freed.push(pid).drop_first() =~= v.freed);
}

} // verus!
