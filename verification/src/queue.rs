//! A queue that wakes a task when an item is added.
use std::collections::VecDeque;
use std::task::Waker;
use vstd::prelude::*;

verus! {

/// `std::task::Waker`, held as an opaque value.
#[verifier::external_type_specification]
#[verifier::external_body]
pub struct ExWaker(std::task::Waker);

/// `Waker::clone`: another handle for the same task. Nothing is claimed of it beyond that
/// it is what cloning gave.
pub assume_specification[ <Waker as Clone>::clone ](waker: &Waker) -> Waker
;

/// Calls `Waker::wake`, which tells the task behind the handle to go on. Nothing is claimed
/// of it.
#[verifier::external_body]
fn wake(waker: Waker) {
    waker.wake()
}

/// A queue that wakes a task when an item is added to it.
pub struct WakerQueue<T> {
    queue: VecDeque<T>,
    waker: Option<Waker>,
}

impl<T> View for WakerQueue<T> {
    type V = Seq<T>;

    closed spec fn view(&self) -> Seq<T> {
        self.queue@
    }
}

impl<T> Default for WakerQueue<T> {
    fn default() -> (queue: Self)
        ensures
            queue@ == Seq::<T>::empty(),
            queue.waiting() is None,
    {
        WakerQueue { queue: VecDeque::new(), waker: None }
    }
}

impl<T> WakerQueue<T> {
    /// The handle of the task that waits for the next item.
    pub closed spec fn waiting(self) -> Option<Waker> {
        self.waker
    }

    /// Sets the handle of the task to wake when the next item is added.
    pub fn set_waker(&mut self, waker: &Waker)
        ensures
            exists|set: Waker| #[trigger]
                cloned(*waker, set) && final(self).waiting() == waiting_after(
                    old(self).waiting(),
                    Operation::<T>::SetWaker { waker: set },
                ),
            final(self).waiting() is Some,
            final(self)@ == old(self)@,
    {
        let set = waker.clone();
        assert(cloned(*waker, set));
        self.waker = Some(set);
    }

    /// Adds an item at the end, and gives the handle of the task that waited for it, which
    /// is to be woken.
    pub fn enqueue(&mut self, value: T) -> (waiting: Option<Waker>)
        ensures
            final(self)@ == old(self)@.push(value),
            waiting == old(self).waiting(),
            final(self).waiting() == waiting_after(
                old(self).waiting(),
                Operation::Push { value },
            ),
            handed_out_by(old(self).waiting(), Operation::Push { value }) == (match waiting {
                Some(waker) => seq![waker],
                None => Seq::empty(),
            }),
    {
        self.queue.push_back(value);
        self.waker.take()
    }

    /// Adds an item at the end and wakes the task that waits for it: the one whose handle
    /// `enqueue` gives. That the task is woken leaves no trace in the queue, and is not
    /// stated.
    pub fn push(&mut self, value: T)
        ensures
            final(self)@ == old(self)@.push(value),
            final(self).waiting() == waiting_after(
                old(self).waiting(),
                Operation::Push { value },
            ),
    {
        if let Some(waker) = self.enqueue(value) {
            wake(waker);
        }
    }

    /// Takes the first item.
    pub fn next(&mut self) -> (item: Option<T>)
        ensures
            match item {
                Some(item) => {
                    &&& old(self)@.len() > 0
                    &&& item == old(self)@[0]
                    &&& final(self)@ == old(self)@.skip(1)
                },
                None => old(self)@.len() == 0 && final(self)@ == old(self)@,
            },
            final(self).waiting() == waiting_after(old(self).waiting(), Operation::<T>::Next),
    {
        let ghost before = self.queue@;
        let item = self.queue.pop_front();
        proof {
            if before.len() > 0 {
                assert(before.subrange(1, before.len() as int) =~= before.skip(1));
            }
        }
        item
    }
}

/// A queue after items were added to it, one after the other.
pub open spec fn after_pushes<T>(queue: Seq<T>, items: Seq<T>) -> Seq<T>
    decreases items.len(),
{
    if items.len() == 0 {
        queue
    } else {
        after_pushes(queue.push(items[0]), items.skip(1))
    }
}

/// A queue after its first items were taken, one after the other.
pub open spec fn after_nexts<T>(queue: Seq<T>, n: nat) -> Seq<T>
    decreases n,
{
    if n == 0 {
        queue
    } else {
        after_nexts(queue.skip(1), (n - 1) as nat)
    }
}

proof fn lemma_pushes<T>(queue: Seq<T>, items: Seq<T>)
    ensures
        after_pushes(queue, items) == queue + items,
    decreases items.len(),
{
    if items.len() > 0 {
        lemma_pushes(queue.push(items[0]), items.skip(1));
        assert(queue.push(items[0]) + items.skip(1) =~= queue + items);
    } else {
        assert(queue + items =~= queue);
    }
}

proof fn lemma_nexts<T>(queue: Seq<T>, n: nat)
    requires
        n <= queue.len(),
    ensures
        after_nexts(queue, n) == queue.skip(n as int),
    decreases n,
{
    if n > 0 {
        lemma_nexts(queue.skip(1), (n - 1) as nat);
        assert(queue.skip(1).skip(n - 1) =~= queue.skip(n as int));
    } else {
        assert(queue.skip(0) =~= queue);
    }
}

/// What comes first into the queue leaves it first: an item is next in turn once the items
/// are taken that were in the queue before, or were added before it.
pub proof fn law_first_in_first_out<T>(queue: Seq<T>, items: Seq<T>, k: int)
    requires
        0 <= k < items.len(),
    ensures
        after_nexts(after_pushes(queue, items), (queue.len() + k) as nat).len() > 0,
        after_nexts(after_pushes(queue, items), (queue.len() + k) as nat)[0] == items[k],
{
    lemma_pushes(queue, items);
    lemma_nexts(queue + items, (queue.len() + k) as nat);
}

/// What can be done with a queue.
pub enum Operation<T> {
    SetWaker { waker: Waker },
    Push { value: T },
    Next,
}

/// The handle that waits after an operation.
pub open spec fn waiting_after<T>(waiting: Option<Waker>, operation: Operation<T>) -> Option<
    Waker,
> {
    match operation {
        Operation::SetWaker { waker } => Some(waker),
        Operation::Push { .. } => None,
        Operation::Next => waiting,
    }
}

/// The handles that an operation hands out to be woken.
pub open spec fn handed_out_by<T>(waiting: Option<Waker>, operation: Operation<T>) -> Seq<Waker> {
    match (operation, waiting) {
        (Operation::Push { .. }, Some(waker)) => seq![waker],
        _ => Seq::empty(),
    }
}

/// The handle that waits after operations, one after the other.
pub open spec fn waiting_after_all<T>(
    waiting: Option<Waker>,
    operations: Seq<Operation<T>>,
) -> Option<Waker>
    decreases operations.len(),
{
    if operations.len() == 0 {
        waiting
    } else {
        waiting_after(waiting_after_all(waiting, operations.drop_last()), operations.last())
    }
}

/// The handles that operations hand out to be woken, in order.
pub open spec fn handed_out<T>(
    waiting: Option<Waker>,
    operations: Seq<Operation<T>>,
) -> Seq<Waker>
    decreases operations.len(),
{
    if operations.len() == 0 {
        Seq::empty()
    } else {
        let front = operations.drop_last();
        handed_out(waiting, front) + handed_out_by(
            waiting_after_all(waiting, front),
            operations.last(),
        )
    }
}

proof fn lemma_in_turn<T>(
    waiting: Option<Waker>,
    first: Seq<Operation<T>>,
    second: Seq<Operation<T>>,
)
    ensures
        waiting_after_all(waiting, first + second) == waiting_after_all(
            waiting_after_all(waiting, first),
            second,
        ),
        handed_out(waiting, first + second) == handed_out(waiting, first) + handed_out(
            waiting_after_all(waiting, first),
            second,
        ),
    decreases second.len(),
{
    if second.len() > 0 {
        lemma_in_turn(waiting, first, second.drop_last());
        assert((first + second).drop_last() =~= first + second.drop_last());
        assert((first + second).last() == second.last());
        assert(handed_out(waiting, first + second) =~= handed_out(waiting, first) + handed_out(
            waiting_after_all(waiting, first),
            second,
        ));
    } else {
        assert(first + second =~= first);
        assert(handed_out(waiting, first) + Seq::<Waker>::empty() =~= handed_out(waiting, first));
    }
}

proof fn lemma_no_push<T>(waiting: Option<Waker>, operations: Seq<Operation<T>>)
    requires
        forall|i: int| 0 <= i < operations.len() ==> !(#[trigger] operations[i] is Push),
    ensures
        handed_out(waiting, operations) == Seq::<Waker>::empty(),
        (forall|i: int| 0 <= i < operations.len() ==> #[trigger] operations[i] is Next)
            ==> waiting_after_all(waiting, operations) == waiting,
    decreases operations.len(),
{
    if operations.len() > 0 {
        let front = operations.drop_last();
        assert forall|i: int| 0 <= i < front.len() implies front[i] == operations[i] by {}
        lemma_no_push(waiting, front);
        assert(operations[operations.len() - 1] == operations.last());
        assert(handed_out(waiting, operations) =~= Seq::<Waker>::empty());
    }
}

proof fn lemma_no_waker<T>(operations: Seq<Operation<T>>)
    requires
        forall|i: int| 0 <= i < operations.len() ==> !(#[trigger] operations[i] is SetWaker),
    ensures
        handed_out(None, operations) == Seq::<Waker>::empty(),
        waiting_after_all(None, operations) is None,
    decreases operations.len(),
{
    if operations.len() > 0 {
        let front = operations.drop_last();
        assert forall|i: int| 0 <= i < front.len() implies front[i] == operations[i] by {}
        lemma_no_waker(front);
        assert(operations[operations.len() - 1] == operations.last());
        assert(handed_out(None, operations) =~= Seq::<Waker>::empty());
    }
}

/// Of the handles that are set before an item is added, the last one is handed out to be
/// woken, exactly once, and the ones before it not at all. Taking items out in between
/// changes nothing. After that nothing is handed out before another handle is set.
pub proof fn law_last_waker_is_handed_out_once<T>(
    waiting: Option<Waker>,
    before: Seq<Operation<T>>,
    waker: Waker,
    between: Seq<Operation<T>>,
    value: T,
    after: Seq<Operation<T>>,
)
    requires
        forall|i: int| 0 <= i < before.len() ==> !(#[trigger] before[i] is Push),
        forall|i: int| 0 <= i < between.len() ==> #[trigger] between[i] is Next,
        forall|i: int| 0 <= i < after.len() ==> !(#[trigger] after[i] is SetWaker),
    ensures
        handed_out(
            waiting,
            before.push(Operation::SetWaker { waker }) + between.push(Operation::Push { value })
                + after,
        ) == seq![waker],
{
    let set = before.push(Operation::SetWaker { waker });
    let pushed = between.push(Operation::Push { value });
    assert(set.drop_last() =~= before);
    assert(pushed.drop_last() =~= between);
    lemma_no_push(waiting, before);
    lemma_no_push(Some(waker), between);
    lemma_no_waker(after);
    lemma_in_turn(waiting, set, pushed);
    lemma_in_turn(waiting, set + pushed, after);
    assert(handed_out(waiting, set) =~= Seq::<Waker>::empty());
    assert(handed_out(Some(waker), pushed) =~= seq![waker]);
    assert(handed_out(waiting, set + pushed) =~= seq![waker]);
    assert(handed_out(waiting, set + pushed + after) =~= seq![waker]);
}

} // verus!
