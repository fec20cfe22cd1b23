//! The screen's list of recent task names and where each is drawn.
use vstd::prelude::*;

verus! {

/// How many task names the screen shows at once.
pub const MESSAGE_SLOTS: usize = 3;

/// The horizontal centre of the screen, where every line is centred.
pub const CENTER_X: i32 = 120;

/// The vertical centre of the screen, around which the lines are centred.
pub const CENTER_Y: i32 = 160;

/// The distance between two lines.
pub const LINE_SPACING: i32 = 40;

/// The positions of the filled slots, in order.
pub open spec fn present_indices<T>(slots: Seq<Option<T>>) -> Seq<int>
    decreases slots.len(),
{
    if slots.len() == 0 {
        Seq::empty()
    } else {
        let rest = present_indices(slots.drop_last());
        if slots.last() is Some {
            rest.push(slots.len() - 1)
        } else {
            rest
        }
    }
}

/// The vertical position of line `k` of `count` lines, the block of lines centred on `CENTER_Y`.
pub open spec fn line_y(k: int, count: int) -> int {
    CENTER_Y + LINE_SPACING * k - (LINE_SPACING / 2) * (count - 1)
}

/// The last task names received, oldest first, in `MESSAGE_SLOTS` slots.
pub struct MessageBoard<T> {
    slots: Vec<Option<T>>,
}

impl<T> MessageBoard<T> {
    /// The slots, oldest first.
    pub closed spec fn view(&self) -> Seq<Option<T>> {
        self.slots@
    }

    /// The board always has `MESSAGE_SLOTS` slots.
    pub closed spec fn wf(&self) -> bool {
        self.slots@.len() == MESSAGE_SLOTS
    }

    /// An empty board.
    pub fn new() -> (r: Self)
        ensures
            r.wf(),
            r.view() == seq![None::<T>, None::<T>, None::<T>],
    {
        let mut slots: Vec<Option<T>> = Vec::new();
        slots.push(None);
        slots.push(None);
        slots.push(None);
        MessageBoard { slots }
    }

    /// Adds the newest task name: every name moves one slot up, the oldest
    /// leaves, and the new one takes the last slot.
    pub fn push(&mut self, message: T)
        requires
            old(self).wf(),
        ensures
            final(self).wf(),
            final(self).view() == old(self).view().drop_first().push(Some(message)),
    {
        self.slots.remove(0);
        self.slots.push(Some(message));
        assert(self.slots@ =~= old(self).view().drop_first().push(Some(message)));
    }

    /// The message in a slot.
    pub fn slot(&self, index: usize) -> (r: &Option<T>)
        requires
            self.wf(),
            index < MESSAGE_SLOTS,
        ensures
            *r == self.view()[index as int],
    {
        &self.slots[index]
    }

    /// Where to draw each name: for each filled slot, oldest first, the slot
    /// and the vertical position of its line, the lines `LINE_SPACING` apart
    /// and centred on `CENTER_Y` together.
    pub fn placements(&self) -> (r: Vec<(usize, i32)>)
        requires
            self.wf(),
        ensures
            r@.len() == present_indices(self.view()).len(),
            forall|k: int|
                0 <= k < r@.len() ==> r@[k].0 == present_indices(self.view())[k]
                    && r@[k].1 == line_y(k, r@.len() as int),
    {
        let mut count: usize = 0;
        let mut i: usize = 0;
        while i < MESSAGE_SLOTS
            invariant
                i <= MESSAGE_SLOTS,
                self.wf(),
                count == present_indices(self.view().take(i as int)).len(),
                count <= i,
            decreases MESSAGE_SLOTS - i,
        {
            proof {
                lemma_present_indices_take_step(self.view(), i as int);
            }
            if self.slots[i].is_some() {
                count = count + 1;
            }
            i = i + 1;
        }
        assert(self.view().take(3) =~= self.view());
        let ghost present = present_indices(self.view());
        let mut r: Vec<(usize, i32)> = Vec::new();
        let mut i: usize = 0;
        while i < MESSAGE_SLOTS
            invariant
                i <= MESSAGE_SLOTS,
                self.wf(),
                count == present.len(),
                present == present_indices(self.view()),
                count <= 3,
                r@.len() == present_indices(self.view().take(i as int)).len(),
                r@.len() <= i,
                forall|k: int|
                    0 <= k < r@.len() ==> r@[k].0 == present[k] && r@[k].1 == line_y(
                        k,
                        count as int,
                    ),
            decreases MESSAGE_SLOTS - i,
        {
            proof {
                lemma_present_indices_take_step(self.view(), i as int);
                lemma_present_indices_prefix(self.view(), i as int + 1);
            }
            if self.slots[i].is_some() {
                proof {
                    let before = present_indices(self.view().take(i as int));
                    let after = present_indices(self.view().take(i as int + 1));
                    assert(after == before.push(i as int));
                    assert(after[before.len() as int] == i);
                    assert(present[r@.len() as int] == after[r@.len() as int]);
                }
                let index: i32 = r.len() as i32;
                let y: i32 = CENTER_Y + LINE_SPACING * index - (LINE_SPACING / 2) * (count as i32 - 1);
                r.push((i, y));
            }
            i = i + 1;
        }
        assert(self.view().take(3) =~= self.view());
        r
    }
}

/// The lines are centred on `CENTER_Y`: the `k`-th line from the top and the
/// `k`-th from the bottom lie as far above the centre as below it.
pub proof fn law_lines_centred(k: int, count: int)
    requires
        0 <= k < count,
    ensures
        line_y(k, count) + line_y(count - 1 - k, count) == 2 * CENTER_Y,
        line_y(k + 1, count) - line_y(k, count) == LINE_SPACING,
{
    assert(LINE_SPACING / 2 == 20);
}

/// After a task name is added, it is the last name drawn, on the bottom line.
pub proof fn law_newest_drawn_last<T>(slots: Seq<Option<T>>, message: T)
    requires
        slots.len() == MESSAGE_SLOTS,
    ensures
        ({
            let after = slots.drop_first().push(Some(message));
            let present = present_indices(after);
            &&& present.len() >= 1
            &&& present.last() == MESSAGE_SLOTS - 1
            &&& after[present.last()] == Some(message)
        }),
{
    let after = slots.drop_first().push(Some(message));
    assert(after.drop_last() =~= slots.drop_first());
}

/// Three task names added one after another fill the board with just them, oldest first.
pub proof fn law_board_keeps_last_three<T>(slots: Seq<Option<T>>, a: T, b: T, c: T)
    requires
        slots.len() == MESSAGE_SLOTS,
    ensures
        slots.drop_first().push(Some(a)).drop_first().push(Some(b)).drop_first().push(Some(c))
            == seq![Some(a), Some(b), Some(c)],
{
    assert(slots.drop_first().push(Some(a)).drop_first().push(Some(b)).drop_first().push(Some(c))
        =~= seq![Some(a), Some(b), Some(c)]);
}

/// The slots after adding `messages`, one after another, to the board `slots`.
pub open spec fn after_pushes<T>(slots: Seq<Option<T>>, messages: Seq<T>) -> Seq<Option<T>>
    decreases messages.len(),
{
    if messages.len() == 0 {
        slots
    } else {
        after_pushes(slots, messages.drop_last()).drop_first().push(Some(messages.last()))
    }
}

/// The slots that show the last `MESSAGE_SLOTS` of `messages`, oldest first,
/// with the first slots empty while fewer have arrived.
pub open spec fn latest_slots<T>(messages: Seq<T>) -> Seq<Option<T>> {
    Seq::new(
        MESSAGE_SLOTS as nat,
        |j: int|
            if messages.len() - MESSAGE_SLOTS + j >= 0 {
                Some(messages[messages.len() - MESSAGE_SLOTS + j])
            } else {
                None
            },
    )
}

/// How many names are shown after `k` have arrived.
pub open spec fn shown_count(k: int) -> int {
    if k < MESSAGE_SLOTS {
        k
    } else {
        MESSAGE_SLOTS as int
    }
}

/// From an empty board, after any number `k` of names, the board holds the
/// last min(k, 3) of them in its last slots, oldest first, and the lines drawn
/// are exactly those names in arrival order.
pub proof fn law_board_shows_latest<T>(messages: Seq<T>)
    ensures
        ({
            let slots = after_pushes(seq![None::<T>, None::<T>, None::<T>], messages);
            let k = messages.len() as int;
            let n = shown_count(k);
            &&& slots == latest_slots(messages)
            &&& present_indices(slots).len() == n
            &&& forall|t: int|
                0 <= t < n ==> present_indices(slots)[t] == MESSAGE_SLOTS - n + t
                    && slots[MESSAGE_SLOTS - n + t] == Some(messages[k - n + t])
        }),
    decreases messages.len(),
{
    let empty = seq![None::<T>, None::<T>, None::<T>];
    let slots = after_pushes(empty, messages);
    if messages.len() == 0 {
        assert(slots =~= latest_slots(messages));
    } else {
        law_board_shows_latest(messages.drop_last());
        let before = after_pushes(empty, messages.drop_last());
        assert(before == latest_slots(messages.drop_last()));
        assert(slots =~= latest_slots(messages));
    }
    let k = messages.len() as int;
    reveal_with_fuel(present_indices, 4);
    assert(slots.drop_last().drop_last().drop_last() =~= Seq::<Option<T>>::empty());
    assert(slots.drop_last().drop_last() =~= seq![slots[0]]);
    assert(slots.drop_last() =~= seq![slots[0], slots[1]]);
    if k == 0 {
        assert(present_indices(slots) =~= Seq::<int>::empty());
    } else if k == 1 {
        assert(present_indices(slots) =~= seq![2int]);
    } else if k == 2 {
        assert(present_indices(slots) =~= seq![1int, 2int]);
    } else {
        assert(present_indices(slots) =~= seq![0int, 1int, 2int]);
    }
}

/// One more slot adds its position when it is filled.
pub proof fn lemma_present_indices_take_step<T>(slots: Seq<Option<T>>, i: int)
    requires
        0 <= i < slots.len(),
    ensures
        present_indices(slots.take(i + 1)) == if slots[i] is Some {
            present_indices(slots.take(i)).push(i)
        } else {
            present_indices(slots.take(i))
        },
{
    assert(slots.take(i + 1).drop_last() =~= slots.take(i));
}

/// The positions found in a prefix of the slots begin the positions found in all of them.
pub proof fn lemma_present_indices_prefix<T>(slots: Seq<Option<T>>, i: int)
    requires
        0 <= i <= slots.len(),
    ensures
        present_indices(slots.take(i)).len() <= present_indices(slots).len(),
        present_indices(slots.take(i)) =~= present_indices(slots).take(
            present_indices(slots.take(i)).len() as int,
        ),
        forall|k: int|
            0 <= k < present_indices(slots).len() ==> 0 <= #[trigger] present_indices(slots)[k] < slots.len(),
    decreases slots.len() - i,
{
    if i < slots.len() {
        lemma_present_indices_take_step(slots, i);
        lemma_present_indices_prefix(slots, i + 1);
    } else {
        assert(slots.take(i) =~= slots);
        lemma_present_indices_bounds(slots);
    }
}

proof fn lemma_present_indices_bounds<T>(slots: Seq<Option<T>>)
    ensures
        forall|k: int|
            0 <= k < present_indices(slots).len() ==> 0 <= #[trigger] present_indices(slots)[k] < slots.len(),
        present_indices(slots).len() <= slots.len(),
    decreases slots.len(),
{
    if slots.len() > 0 {
        lemma_present_indices_bounds(slots.drop_last());
    }
}

} // verus!
