use vstd::prelude::*;

verus! {

/// One slot of the execution queue: a job, or nothing.
#[derive(Clone, Copy)]
pub struct FuncEntry<F> {
    ptr: Option<F>,
}

impl<F: Copy> FuncEntry<F> {
    /// The job the slot holds.
    pub closed spec fn job(&self) -> Option<F> {
        self.ptr
    }

    /// An empty slot.
    pub fn null() -> (e: FuncEntry<F>)
        ensures
            e.job() is None,
    {
        FuncEntry { ptr: None }
    }

    /// A slot holding `data`.
    pub fn new(data: F) -> (e: FuncEntry<F>)
        ensures
            e.job() == Some(data),
    {
        FuncEntry { ptr: Some(data) }
    }
}

/// Number of slots of a [`FuncStack`].
pub const FUNC_SLOTS: usize = 256;

/// Some slot holds a job.
pub open spec fn any_job<F>(s: Seq<Option<F>>) -> bool {
    exists|j: int| 0 <= j < s.len() && (#[trigger] s[j]) is Some
}

/// `k` is the lowest slot that holds a job.
pub open spec fn is_first_job<F>(s: Seq<Option<F>>, k: int) -> bool {
    &&& 0 <= k < s.len()
    &&& s[k] is Some
    &&& forall|j: int| 0 <= j < k ==> (#[trigger] s[j]) is None
}

/// Some slot from `from - 1` up to just before slot `j` holds a job.
pub open spec fn job_before<F>(s: Seq<Option<F>>, from: int, j: int) -> bool {
    exists|k: int| 0 <= k < j && from - 1 <= k && (#[trigger] s[k]) is Some
}

/// The slots after `push` fills from slot `from` on: an empty slot at or after
/// `from` takes `data` when a slot from `from - 1` up to just before it holds a job.
pub open spec fn filled<F>(s: Seq<Option<F>>, from: int, data: F) -> Seq<Option<F>> {
    Seq::new(
        s.len(),
        |j: int|
            if j >= from && s[j] is None && job_before(s, from, j) {
                Some(data)
            } else {
                s[j]
            },
    )
}

proof fn lemma_job_before_step<F>(s: Seq<Option<F>>, from: int, j: int)
    requires
        0 <= j < s.len(),
    ensures
        job_before(s, from, j + 1) == (job_before(s, from, j) || (from - 1 <= j && s[j] is Some)),
{
    if job_before(s, from, j + 1) {
        let k = choose|k: int| 0 <= k < j + 1 && from - 1 <= k && (#[trigger] s[k]) is Some;
        if k < j {
            assert(job_before(s, from, j));
        }
    }
    if job_before(s, from, j) {
        let k = choose|k: int| 0 <= k < j && from - 1 <= k && (#[trigger] s[k]) is Some;
        assert(job_before(s, from, j + 1));
    }
    if from - 1 <= j && s[j] is Some {
        assert(job_before(s, from, j + 1));
    }
}

/// A queue of up to [`FUNC_SLOTS`] jobs for the kernel's execution loop.
pub struct FuncStack<F> {
    stack: [FuncEntry<F>; 256],
    current: u8,
}

impl<F: Copy> FuncStack<F> {
    /// The jobs in the slots, in order.
    pub closed spec fn slots(&self) -> Seq<Option<F>> {
        Seq::new(FUNC_SLOTS as nat, |i: int| self.stack@[i].job())
    }

    /// The queue has [`FUNC_SLOTS`] slots.
    pub proof fn lemma_slots_len(&self)
        ensures
            self.slots().len() == FUNC_SLOTS,
    {
    }

    /// The slot from which `push` starts filling.
    pub closed spec fn start(&self) -> int {
        self.current as int
    }

    /// The queue with every slot empty and filling starting at slot 0.
    pub fn new() -> (s: FuncStack<F>)
        ensures
            s.slots() == Seq::new(FUNC_SLOTS as nat, |i: int| None::<F>),
            s.start() == 0,
    {
        let s = FuncStack { stack: [FuncEntry::null(); 256], current: 0 };
        assert(s.slots() =~= Seq::new(FUNC_SLOTS as nat, |i: int| None::<F>));
        s
    }

    /// Whether any slot holds a job.
    pub fn is_exec(&self) -> (r: bool)
        ensures
            r == any_job(self.slots()),
    {
        let mut i: usize = 0;
        while i < FUNC_SLOTS
            invariant
                0 <= i <= FUNC_SLOTS,
                forall|j: int| 0 <= j < i ==> (#[trigger] self.slots()[j]) is None,
            decreases FUNC_SLOTS - i,
        {
            if self.stack[i].ptr.is_some() {
                assert(self.slots()[i as int] is Some);
                return true;
            }
            i = i + 1;
        }
        false
    }

    /// Takes the job out of the lowest slot that holds one; `None` when every
    /// slot is empty.
    pub fn pop(&mut self) -> (r: Option<F>)
        ensures
            final(self).start() == old(self).start(),
            match r {
                Some(f) => exists|k: int|
                    is_first_job(old(self).slots(), k) && old(self).slots()[k] == Some(f)
                        && final(self).slots() == old(self).slots().update(k, None),
                None => !any_job(old(self).slots()) && final(self).slots() == old(self).slots(),
            },
    {
        let mut i: usize = 0;
        while i < FUNC_SLOTS
            invariant
                0 <= i <= FUNC_SLOTS,
                *self == *old(self),
                forall|j: int| 0 <= j < i ==> (#[trigger] self.slots()[j]) is None,
            decreases FUNC_SLOTS - i,
        {
            if self.stack[i].ptr.is_some() {
                let ret = self.stack[i].ptr;
                self.stack[i].ptr = None;
                assert(is_first_job(old(self).slots(), i as int));
                assert(self.slots() =~= old(self).slots().update(i as int, None));
                return ret;
            }
            i = i + 1;
        }
        None
    }

    /// Whether `push` would look up the slot before slot 0: the queue is busy,
    /// filling starts at slot 0 and slot 0 is empty.
    pub fn push_would_fault(&self) -> (r: bool)
        ensures
            r == (any_job(self.slots()) && self.start() == 0 && self.slots()[0] is None),
    {
        self.is_exec() && self.current == 0 && self.stack[0].ptr.is_none()
    }

    /// Queues `data`: on an idle queue it goes into slot 0; otherwise every
    /// empty slot from the start slot on that follows a job takes it (see
    /// [`filled`]). On a busy queue whose start slot 0 is empty the filling
    /// would look at the slot before slot 0, so that state is excluded (see
    /// [`FuncStack::push_would_fault`]).
    pub fn push(&mut self, data: F)
        requires
            !(any_job(old(self).slots()) && old(self).start() == 0 && old(self).slots()[0] is None),
        ensures
            final(self).start() == old(self).start(),
            !any_job(old(self).slots()) ==> final(self).slots() == old(self).slots().update(
                0,
                Some(data),
            ),
            any_job(old(self).slots()) ==> final(self).slots() == filled(
                old(self).slots(),
                old(self).start(),
                data,
            ),
    {
        if self.is_exec() {
            let ghost s0 = self.slots();
            let ghost from = self.current as int;
            let mut i: usize = self.current as usize;
            while i < FUNC_SLOTS
                invariant
                    from == self.current,
                    from <= i <= FUNC_SLOTS,
                    s0 == old(self).slots(),
                    !(from == 0 && s0[0] is None),
                    forall|j: int| 0 <= j < i ==> #[trigger] self.slots()[j] == filled(s0, from, data)[j],
                    forall|j: int| i <= j < FUNC_SLOTS ==> #[trigger] self.slots()[j] == s0[j],
                decreases FUNC_SLOTS - i,
            {
                proof {
                    if i > 0 {
                        let p = (i - 1) as int;
                        lemma_job_before_step(s0, from, p);
                        assert(self.slots()[p] == filled(s0, from, data)[p]);
                        if p < from {
                            assert(!job_before(s0, from, p)) by {
                                if job_before(s0, from, p) {
                                    let k = choose|k: int|
                                        0 <= k < p && from - 1 <= k && (#[trigger] s0[k]) is Some;
                                }
                            }
                        }
                        assert(self.slots()[p] is Some <==> job_before(s0, from, i as int));
                    }
                }
                let ghost before = self.slots();
                assert(self.stack@[i as int].ptr == before[i as int]);
                assert(before[i as int] == s0[i as int]);
                if i > 0 {
                    assert(self.stack@[i - 1].ptr == before[i - 1]);
                }
                if self.stack[i].ptr.is_none() && self.stack[i - 1].ptr.is_some() {
                    self.stack[i] = FuncEntry::new(data);
                }
                proof {
                    assert forall|j: int| 0 <= j < FUNC_SLOTS && j != i implies #[trigger] self.slots()[j]
                        == before[j] by {
                    }
                    assert(self.slots()[i as int] == filled(s0, from, data)[i as int]);
                }
                i = i + 1;
            }
            assert(self.slots() =~= filled(s0, from, data));
        } else {
            self.stack[0] = FuncEntry::new(data);
            assert(self.slots() =~= old(self).slots().update(0, Some(data)));
        }
    }
}

/// On a busy queue there is a lowest slot with a job, so `pop` after a true
/// `is_exec` always hands out a job.
pub proof fn law_busy_queue_pops<F>(s: Seq<Option<F>>)
    requires
        any_job(s),
    ensures
        exists|k: int| is_first_job(s, k),
{
    let k0 = choose|j: int| 0 <= j < s.len() && (#[trigger] s[j]) is Some;
    lemma_first_job(s, k0);
}

proof fn lemma_first_job<F>(s: Seq<Option<F>>, k: int)
    requires
        0 <= k < s.len(),
        s[k] is Some,
    ensures
        exists|m: int| is_first_job(s, m),
    decreases k,
{
    if forall|j: int| 0 <= j < k ==> (#[trigger] s[j]) is None {
        assert(is_first_job(s, k));
    } else {
        let j = choose|j: int| 0 <= j < k && !((#[trigger] s[j]) is None);
        lemma_first_job(s, j);
    }
}

/// Pushing a job onto an idle queue and popping hands back that job and leaves
/// the queue idle again.
pub proof fn law_push_then_pop_on_idle<F>(s: Seq<Option<F>>, d: F, k: int, f: F)
    requires
        s.len() == FUNC_SLOTS,
        !any_job(s),
        is_first_job(s.update(0, Some(d)), k),
        s.update(0, Some(d))[k] == Some(f),
    ensures
        k == 0,
        f == d,
        s.update(0, Some(d)).update(k, None) == s,
{
    if k > 0 {
        assert(s.update(0, Some(d))[0] is None);
    }
    assert(s[0] is None) by {
        if s[0] is Some {
            assert(any_job(s));
        }
    }
    assert(s.update(0, Some(d)).update(k, None) =~= s);
}

/// On an idle queue, `push(data)` puts `data` in slot 0 and leaves every other
/// slot empty; the following `pop` returns `Some(data)` and leaves the queue
/// idle again, as before the push.
pub proof fn law_idle_push_pop<F: Copy>(
    q0: FuncStack<F>,
    q1: FuncStack<F>,
    q2: FuncStack<F>,
    data: F,
    r: Option<F>,
)
    requires
        !any_job(q0.slots()),
        q1.slots() == q0.slots().update(0, Some(data)),
        match r {
            Some(f) => exists|k: int|
                is_first_job(q1.slots(), k) && q1.slots()[k] == Some(f) && q2.slots()
                    == q1.slots().update(k, None),
            None => !any_job(q1.slots()) && q2.slots() == q1.slots(),
        },
    ensures
        q1.slots()[0] == Some(data),
        forall|j: int| 1 <= j < FUNC_SLOTS ==> (#[trigger] q1.slots()[j]) is None,
        r == Some(data),
        !any_job(q2.slots()),
        q2.slots() == q0.slots(),
{
    q0.lemma_slots_len();
    assert(q0.slots()[0] is None) by {
        if q0.slots()[0] is Some {
            assert(any_job(q0.slots()));
        }
    }
    assert forall|j: int| 1 <= j < FUNC_SLOTS implies (#[trigger] q1.slots()[j]) is None by {
        if q0.slots()[j] is Some {
            assert(any_job(q0.slots()));
        }
    }
    assert(q1.slots()[0] is Some);
    assert(any_job(q1.slots()));
    match r {
        Some(f) => {
            let k = choose|k: int|
                is_first_job(q1.slots(), k) && q1.slots()[k] == Some(f) && q2.slots()
                    == q1.slots().update(k, None);
            law_push_then_pop_on_idle(q0.slots(), data, k, f);
        },
        None => {},
    }
    assert(!any_job(q2.slots())) by {
        if any_job(q2.slots()) {
            let j = choose|j: int| 0 <= j < q2.slots().len() && (#[trigger] q2.slots()[j]) is Some;
            assert(q0.slots()[j] is Some);
        }
    }
}

} // verus!
