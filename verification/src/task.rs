//! Tasks: the pairs of one slab, made ready for a worker of its own.
//!
//! A worker must not reach into the shared particle buffer while others work. So a
//! task lists the particles that its pairs name, its members, and numbers them afresh;
//! the worker takes copies of the members, corrects the copies pair by pair, and the
//! copies are written back when all workers of the phase are done. Since the tasks of
//! a phase share no member, that comes to the same as working all their pairs in turn
//! on the buffer itself.

use crate::pairs::Pair;
use crate::particle::Particle;
use std::collections::HashMap;
use vstd::prelude::*;

verus! {

broadcast use vstd::std_specs::hash::group_hash_axioms;

/// `list` with `x` added at the end, unless it is there already.
pub open spec fn noted(list: Seq<usize>, x: usize) -> Seq<usize> {
    if list.contains(x) {
        list
    } else {
        list.push(x)
    }
}

/// The indices that `pairs` name, each once, in the order in which they first come up.
pub open spec fn seen(pairs: Seq<Pair>) -> Seq<usize>
    decreases pairs.len(),
{
    if pairs.len() == 0 {
        Seq::empty()
    } else {
        noted(noted(seen(pairs.drop_last()), pairs.last().0), pairs.last().1)
    }
}

/// What a task holds.
pub struct TaskView {
    /// The particles that the task works on, by their place in the buffer.
    pub members: Seq<usize>,
    /// The pairs to work, in order; each names two members by their place in `members`.
    pub pairs: Seq<Pair>,
}

impl TaskView {
    /// The renumbering "place among the members to place in the buffer", on pairs.
    pub open spec fn to_global(self) -> spec_fn(Pair) -> Pair {
        |p: Pair| (self.members[p.0 as int], self.members[p.1 as int])
    }

    /// The pairs in the numbering of the buffer.
    pub open spec fn global(self) -> Seq<Pair> {
        self.pairs.map_values(self.to_global())
    }

    /// Whether the renumbering is sound: no particle is listed twice among the
    /// members, and every pair names two members, not the same one twice.
    pub open spec fn sound(self) -> bool {
        &&& self.members.no_duplicates()
        &&& forall|m: int|
            0 <= m < self.pairs.len() ==> (#[trigger] self.pairs[m]).0 < self.members.len()
                && self.pairs[m].1 < self.members.len() && self.pairs[m].0 != self.pairs[m].1
    }

    /// Well-formedness: the renumbering is sound, and the members are just the
    /// particles that the pairs name, in the order in which they first come up.
    pub open spec fn wf(self) -> bool {
        &&& self.sound()
        &&& self.members == seen(self.global())
    }

    /// Whether every member is among the first `count` particles.
    pub open spec fn fits(self, count: int) -> bool {
        forall|k: int| 0 <= k < self.members.len() ==> #[trigger] self.members[k] < count
    }

    /// The members' particles, copied out of `buffer`.
    pub open spec fn copies(self, buffer: Seq<Particle>) -> Seq<Particle> {
        Seq::new(self.members.len(), |k: int| buffer[self.members[k] as int])
    }

    /// Whether the particle at place `x` of the buffer is a member.
    pub open spec fn has_member(self, x: int) -> bool {
        exists|k: int| 0 <= k < self.members.len() && #[trigger] self.members[k] == x
    }

    /// The place among the members of the particle at place `x` of the buffer.
    pub open spec fn place_of(self, x: int) -> int {
        choose|k: int| 0 <= k < self.members.len() && #[trigger] self.members[k] == x
    }

    /// `buffer` with the members' particles replaced by `worked`.
    pub open spec fn written_back(self, buffer: Seq<Particle>, worked: Seq<Particle>) -> Seq<
        Particle,
    > {
        Seq::new(
            buffer.len(),
            |x: int|
                if self.has_member(x) {
                    worked[self.place_of(x)]
                } else {
                    buffer[x]
                },
        )
    }
}

/// What the correction of one pair does: any rule that makes of two particles what
/// becomes of them.
pub type Correction = spec_fn(Particle, Particle) -> (Particle, Particle);

/// `buffer` after the pair `p` has been corrected in place.
pub open spec fn work_pair(buffer: Seq<Particle>, p: Pair, rule: Correction) -> Seq<Particle> {
    let made = rule(buffer[p.0 as int], buffer[p.1 as int]);
    buffer.update(p.0 as int, made.0).update(p.1 as int, made.1)
}

/// `buffer` after `pairs` have been corrected in place, one after the other.
pub open spec fn work_pairs(buffer: Seq<Particle>, pairs: Seq<Pair>, rule: Correction) -> Seq<
    Particle,
>
    decreases pairs.len(),
{
    if pairs.len() == 0 {
        buffer
    } else {
        work_pair(work_pairs(buffer, pairs.drop_last(), rule), pairs.last(), rule)
    }
}

/// `buffer` after every task has been worked on copies taken from `buffer` as it
/// stood, and all copies have been written back.
pub open spec fn worked_apart(buffer: Seq<Particle>, tasks: Seq<TaskView>, rule: Correction) -> Seq<
    Particle,
>
    decreases tasks.len(),
{
    if tasks.len() == 0 {
        buffer
    } else {
        tasks.last().written_back(
            worked_apart(buffer, tasks.drop_last(), rule),
            work_pairs(tasks.last().copies(buffer), tasks.last().pairs, rule),
        )
    }
}

/// The pairs of all tasks in the numbering of the buffer, task after task.
pub open spec fn in_turn(tasks: Seq<TaskView>) -> Seq<Pair> {
    tasks.map_values(|t: TaskView| t.global()).flatten()
}

/// Whether no two of `tasks` share a member.
pub open spec fn apart(tasks: Seq<TaskView>) -> bool {
    forall|j: int, k: int, x: usize|
        0 <= j < tasks.len() && 0 <= k < tasks.len() && j != k ==> !(
        #[trigger] tasks[j].members.contains(x) && #[trigger] tasks[k].members.contains(x))
}

/// Whether every member of every one of `tasks` is among the first `count` particles.
pub open spec fn all_fit(tasks: Seq<TaskView>, count: int) -> bool {
    forall|k: int| 0 <= k < tasks.len() ==> (#[trigger] tasks[k]).fits(count)
}

/// Whether `pairs` name the particle `x`.
pub open spec fn names(pairs: Seq<Pair>, x: usize) -> bool {
    exists|m: int| 0 <= m < pairs.len() && ((#[trigger] pairs[m]).0 == x || pairs[m].1 == x)
}

/// Noting an index adds it to what is listed, and lists nothing twice.
proof fn lemma_noted(list: Seq<usize>, x: usize)
    requires
        list.no_duplicates(),
    ensures
        noted(list, x).no_duplicates(),
        forall|y: usize| noted(list, x).contains(y) <==> list.contains(y) || y == x,
{
    assert forall|y: usize| noted(list, x).contains(y) <==> list.contains(y) || y == x by {
        if list.contains(x) {
        } else {
            let longer = list.push(x);
            if longer.contains(y) {
                let k = choose|k: int| 0 <= k < longer.len() && longer[k] == y;
                if k < list.len() {
                    assert(list[k] == y);
                }
            }
            if list.contains(y) {
                let k = choose|k: int| 0 <= k < list.len() && list[k] == y;
                assert(longer[k] == y);
            }
            if y == x {
                assert(longer[list.len() as int] == y);
            }
        }
    }
}

/// The indices seen in `pairs` are those that `pairs` name, each once.
pub proof fn lemma_seen(pairs: Seq<Pair>)
    ensures
        seen(pairs).no_duplicates(),
        forall|x: usize| seen(pairs).contains(x) <==> names(pairs, x),
    decreases pairs.len(),
{
    if pairs.len() == 0 {
    } else {
        let head = pairs.drop_last();
        let last = pairs.last();
        lemma_seen(head);
        let one = noted(seen(head), last.0);
        lemma_noted(seen(head), last.0);
        lemma_noted(one, last.1);
        assert forall|x: usize| seen(pairs).contains(x) <==> names(pairs, x) by {
            if names(head, x) {
                let m = choose|m: int|
                    0 <= m < head.len() && ((#[trigger] head[m]).0 == x || head[m].1 == x);
                assert(pairs[m] == head[m]);
            }
            if x == last.0 || x == last.1 {
                assert(pairs[pairs.len() - 1] == last);
            }
            if names(pairs, x) {
                let m = choose|m: int|
                    0 <= m < pairs.len() && ((#[trigger] pairs[m]).0 == x || pairs[m].1 == x);
                if m < head.len() {
                    assert(head[m] == pairs[m]);
                }
            }
        }
    }
}

/// The members of a well-formed task are the particles that its pairs name.
pub proof fn lemma_members_named(task: TaskView, x: usize)
    requires
        task.wf(),
    ensures
        task.members.contains(x) <==> names(task.global(), x),
{
    lemma_seen(task.global());
}

/// Correcting one run of pairs and then another is correcting the two runs joined.
pub proof fn lemma_work_joined(buffer: Seq<Particle>, a: Seq<Pair>, b: Seq<Pair>, rule: Correction)
    ensures
        work_pairs(buffer, a + b, rule) == work_pairs(work_pairs(buffer, a, rule), b, rule),
    decreases b.len(),
{
    if b.len() == 0 {
        assert(a + b == a);
    } else {
        lemma_work_joined(buffer, a, b.drop_last(), rule);
        assert((a + b).drop_last() == a + b.drop_last());
        assert((a + b).last() == b.last());
    }
}

/// What a worker does to its copies is what correcting its pairs in place does to the
/// buffer: each member ends as its copy does, and no other particle is touched.
proof fn lemma_copies_follow(task: TaskView, buffer: Seq<Particle>, rule: Correction)
    requires
        task.sound(),
        task.fits(buffer.len() as int),
    ensures
        work_pairs(buffer, task.global(), rule).len() == buffer.len(),
        work_pairs(task.copies(buffer), task.pairs, rule).len() == task.members.len(),
        forall|k: int|
            0 <= k < task.members.len() ==> work_pairs(buffer, task.global(), rule)[
                #[trigger] task.members[k] as int] == work_pairs(
                task.copies(buffer),
                task.pairs,
                rule,
            )[k],
        forall|x: int|
            0 <= x < buffer.len() && !task.has_member(x) ==> #[trigger] work_pairs(
                buffer,
                task.global(),
                rule,
            )[x] == buffer[x],
    decreases task.pairs.len(),
{
    if task.pairs.len() == 0 {
        assert(task.global() == Seq::<Pair>::empty());
    } else {
        let shorter = TaskView { members: task.members, pairs: task.pairs.drop_last() };
        lemma_copies_follow(shorter, buffer, rule);
        assert(task.global().drop_last() == shorter.global());
        let p = task.pairs.last();
        let q = task.global().last();
        assert(q == (task.members[p.0 as int], task.members[p.1 as int]));
        let in_place = work_pairs(buffer, shorter.global(), rule);
        let on_copies = work_pairs(task.copies(buffer), shorter.pairs, rule);
        assert(in_place[q.0 as int] == on_copies[p.0 as int]);
        assert(in_place[q.1 as int] == on_copies[p.1 as int]);
        assert forall|k: int| 0 <= k < task.members.len() implies work_pair(in_place, q, rule)[
            #[trigger] task.members[k] as int] == work_pair(on_copies, p, rule)[k] by {
            if k != p.0 && k != p.1 {
                assert(task.members[k] != q.0 && task.members[k] != q.1);
            }
        }
        assert forall|x: int|
            0 <= x < buffer.len() && !task.has_member(x) implies #[trigger] work_pair(
            in_place,
            q,
            rule,
        )[x] == buffer[x] by {
            assert(task.members[p.0 as int] == q.0);
            assert(task.members[p.1 as int] == q.1);
            assert(!shorter.has_member(x)) by {
                if shorter.has_member(x) {
                    let k = choose|k: int|
                        0 <= k < shorter.members.len() && #[trigger] shorter.members[k] == x;
                    assert(task.members[k] == x);
                }
            }
        }
    }
}

/// Correcting the pairs of a task in place comes to the same as taking copies of its
/// members, correcting the copies, and writing them back.
pub proof fn lemma_task_in_place(task: TaskView, buffer: Seq<Particle>, rule: Correction)
    requires
        task.sound(),
        task.fits(buffer.len() as int),
    ensures
        work_pairs(buffer, task.global(), rule) == task.written_back(
            buffer,
            work_pairs(task.copies(buffer), task.pairs, rule),
        ),
{
    lemma_copies_follow(task, buffer, rule);
    let in_place = work_pairs(buffer, task.global(), rule);
    let on_copies = work_pairs(task.copies(buffer), task.pairs, rule);
    let back = task.written_back(buffer, on_copies);
    assert forall|x: int| 0 <= x < buffer.len() implies in_place[x] == back[x] by {
        if task.has_member(x) {
            let k = task.place_of(x);
            assert(task.members[k] == x);
        }
    }
    assert(in_place =~= back);
}

/// Writing back the copies of tasks leaves alone what is no member of any of them.
proof fn lemma_worked_apart_frame(buffer: Seq<Particle>, tasks: Seq<TaskView>, rule: Correction)
    ensures
        worked_apart(buffer, tasks, rule).len() == buffer.len(),
        forall|x: int|
            0 <= x < buffer.len() && (forall|k: int|
                0 <= k < tasks.len() ==> !(#[trigger] tasks[k]).has_member(x))
                ==> #[trigger] worked_apart(buffer, tasks, rule)[x] == buffer[x],
    decreases tasks.len(),
{
    if tasks.len() > 0 {
        let head = tasks.drop_last();
        lemma_worked_apart_frame(buffer, head, rule);
        assert forall|x: int|
            0 <= x < buffer.len() && (forall|k: int|
                0 <= k < tasks.len() ==> !(#[trigger] tasks[k]).has_member(
                    x,
                )) implies #[trigger] worked_apart(buffer, tasks, rule)[x] == buffer[x] by {
            assert(!tasks[tasks.len() - 1].has_member(x));
            assert forall|k: int| 0 <= k < head.len() implies !(#[trigger] head[k]).has_member(
                x,
            ) by {
                assert(head[k] == tasks[k]);
            }
        }
    }
}

/// Workers that share no particle may work side by side: taking copies for every task
/// from the buffer as it stands, correcting each task's copies on their own, and
/// writing all copies back gives the buffer that correcting all pairs in place, task
/// after task, would give. This holds whatever the correction of a pair does.
pub proof fn lemma_apart_is_in_turn(buffer: Seq<Particle>, tasks: Seq<TaskView>, rule: Correction)
    requires
        forall|k: int|
            0 <= k < tasks.len() ==> (#[trigger] tasks[k]).sound() && tasks[k].fits(
                buffer.len() as int,
            ),
        apart(tasks),
    ensures
        worked_apart(buffer, tasks, rule) == work_pairs(buffer, in_turn(tasks), rule),
        worked_apart(buffer, tasks, rule).len() == buffer.len(),
    decreases tasks.len(),
{
    lemma_worked_apart_frame(buffer, tasks, rule);
    let lists = tasks.map_values(|t: TaskView| t.global());
    if tasks.len() == 0 {
        assert(lists.flatten() == Seq::<Pair>::empty());
    } else {
        let head = tasks.drop_last();
        let last = tasks.last();
        let head_lists = head.map_values(|t: TaskView| t.global());
        assert forall|k: int| 0 <= k < head.len() implies (#[trigger] head[k]).sound()
            && head[k].fits(buffer.len() as int) by {
            assert(head[k] == tasks[k]);
        }
        assert(apart(head)) by {
            assert forall|j: int, k: int, x: usize|
                0 <= j < head.len() && 0 <= k < head.len() && j != k implies !(
            #[trigger] head[j].members.contains(x) && #[trigger] head[k].members.contains(x)) by {
                assert(head[j] == tasks[j] && head[k] == tasks[k]);
            }
        }
        lemma_apart_is_in_turn(buffer, head, rule);
        assert(lists == head_lists.push(last.global()));
        head_lists.lemma_flatten_push(last.global());
        lemma_work_joined(buffer, in_turn(head), last.global(), rule);
        let mid = worked_apart(buffer, head, rule);
        lemma_worked_apart_frame(buffer, head, rule);
        assert(last.copies(mid) == last.copies(buffer)) by {
            assert forall|k: int| 0 <= k < last.members.len() implies mid[last.members[k] as int]
                == buffer[last.members[k] as int] by {
                let x = last.members[k];
                assert(last.members.contains(x));
                assert forall|j: int| 0 <= j < head.len() implies !(#[trigger] head[j]).has_member(
                    x as int,
                ) by {
                    assert(head[j] == tasks[j]);
                    assert(tasks[tasks.len() - 1].members.contains(x));
                    if head[j].has_member(x as int) {
                        let m = choose|m: int|
                            0 <= m < head[j].members.len() && #[trigger] head[j].members[m] == x;
                        assert(tasks[j].members.contains(x));
                    }
                }
            }
        }
        lemma_task_in_place(last, mid, rule);
    }
}

/// The pairs of one slab with the particles they name, ready for one worker.
#[derive(Debug)]
pub struct Task {
    members: Vec<usize>,
    pairs: Vec<Pair>,
    /// No member lies above this.
    top: usize,
}

impl View for Task {
    type V = TaskView;

    closed spec fn view(&self) -> TaskView {
        TaskView { members: self.members@, pairs: self.pairs@ }
    }
}

/// Looks `index` up among the members, and adds it as a new member if it is not one.
fn enrol(
    index: usize,
    members: &mut Vec<usize>,
    slot: &mut HashMap<usize, usize>,
    top: &mut usize,
) -> (place: usize)
    requires
        old(members)@.no_duplicates(),
        forall|k: int|
            0 <= k < old(members)@.len() ==> old(slot)@.contains_key(#[trigger] old(members)@[k])
                && old(slot)@[old(members)@[k]] == k,
        forall|key: usize|
            old(slot)@.contains_key(key) ==> old(members)@.contains(key),
        forall|k: int| 0 <= k < old(members)@.len() ==> #[trigger] old(members)@[k] <= *old(top),
        old(members)@.len() > 0 ==> old(members)@.contains(*old(top)),
    ensures
        final(members)@ == noted(old(members)@, index),
        final(members)@.no_duplicates(),
        place < final(members)@.len(),
        final(members)@[place as int] == index,
        forall|k: int|
            0 <= k < final(members)@.len() ==> final(slot)@.contains_key(
                #[trigger] final(members)@[k],
            ) && final(slot)@[final(members)@[k]] == k,
        forall|key: usize|
            final(slot)@.contains_key(key) ==> final(members)@.contains(key),
        forall|k: int|
            0 <= k < final(members)@.len() ==> #[trigger] final(members)@[k] <= *final(top),
        final(members)@.contains(*final(top)),
{
    let found = slot.get(&index);
    match found {
        Some(place) => {
            let place = *place;
            proof {
                assert(slot@.contains_key(index));
                assert(members@.contains(index));
                let k = choose|k: int| 0 <= k < members@.len() && members@[k] == index;
                assert(slot@[members@[k]] == k);
            }
            place
        },
        None => {
            let place = members.len();
            proof {
                if members@.contains(index) {
                    let k = choose|k: int| 0 <= k < members@.len() && members@[k] == index;
                    assert(slot@.contains_key(members@[k]));
                }
            }
            members.push(index);
            slot.insert(index, place);
            if index > *top || place == 0 {
                *top = index;
            }
            proof {
                assert(members@[place as int] == index);
                assert forall|key: usize| slot@.contains_key(key) implies members@.contains(
                    key,
                ) by {
                    if key != index {
                        assert(old(slot)@.contains_key(key));
                        assert(old(members)@.contains(key));
                        let k = choose|k: int|
                            0 <= k < old(members)@.len() && old(members)@[k] == key;
                        assert(members@[k] == key);
                    }
                }
                if *top != index {
                    let k = choose|k: int|
                        0 <= k < old(members)@.len() && old(members)@[k] == *old(top);
                    assert(members@[k] == *top);
                }
            }
            place
        },
    }
}

impl Task {
    /// What holds of every task.
    #[verifier::type_invariant]
    pub closed spec fn inv(self) -> bool {
        &&& self@.wf()
        &&& forall|k: int| 0 <= k < self.members@.len() ==> #[trigger] self.members@[k] <= self.top
        &&& self.members@.len() > 0 ==> self.members@.contains(self.top)
    }

    /// The task that works `pairs`, given in the numbering of the buffer.
    pub fn from_pairs(pairs: &[Pair]) -> (task: Task)
        requires
            forall|m: int| 0 <= m < pairs@.len() ==> (#[trigger] pairs@[m]).0 != pairs@[m].1,
        ensures
            task@.wf(),
            task@.global() == pairs@,
            task@.members == seen(pairs@),
    {
        let mut members: Vec<usize> = Vec::new();
        let mut local: Vec<Pair> = Vec::new();
        let mut slot: HashMap<usize, usize> = HashMap::new();
        let mut top: usize = 0;
        let n = pairs.len();
        let mut m: usize = 0;
        while m < n
            invariant
                m <= n,
                n == pairs@.len(),
                forall|k: int| 0 <= k < pairs@.len() ==> (#[trigger] pairs@[k]).0 != pairs@[k].1,
                members@.no_duplicates(),
                members@ == seen(pairs@.take(m as int)),
                forall|k: int|
                    0 <= k < members@.len() ==> slot@.contains_key(#[trigger] members@[k])
                        && slot@[members@[k]] == k,
                forall|key: usize| slot@.contains_key(key) ==> members@.contains(key),
                forall|k: int| 0 <= k < members@.len() ==> #[trigger] members@[k] <= top,
                members@.len() > 0 ==> members@.contains(top),
                local@.len() == m,
                forall|k: int|
                    0 <= k < m ==> (#[trigger] local@[k]).0 < members@.len() && local@[k].1
                        < members@.len() && local@[k].0 != local@[k].1 && members@[local@[k].0 as int]
                        == pairs@[k].0 && members@[local@[k].1 as int] == pairs@[k].1,
            decreases n - m,
        {
            let (i, j) = pairs[m];
            let ghost before = members@;
            let a = enrol(i, &mut members, &mut slot, &mut top);
            let ghost between = members@;
            let b = enrol(j, &mut members, &mut slot, &mut top);
            proof {
                assert(pairs@.take(m + 1).drop_last() == pairs@.take(m as int));
                assert(pairs@.take(m + 1).last() == pairs@[m as int]);
                assert(members@ == seen(pairs@.take(m + 1)));
                assert(between[a as int] == members@[a as int]);
                assert forall|k: int| 0 <= k < m implies members@[(#[trigger] local@[k]).0 as int]
                    == pairs@[k].0 && members@[local@[k].1 as int] == pairs@[k].1 by {
                    assert(before[local@[k].0 as int] == between[local@[k].0 as int]);
                    assert(before[local@[k].1 as int] == between[local@[k].1 as int]);
                }
            }
            local.push((a, b));
            m += 1;
        }
        proof {
            let made = TaskView { members: members@, pairs: local@ };
            assert(pairs@.take(n as int) == pairs@);
            assert(made.global() == pairs@);
        }
        Task { members, pairs: local, top }
    }

    /// The members: the particles that the task works on, by their place in the buffer.
    pub fn members(&self) -> (members: &[usize])
        ensures
            members@ == self@.members,
            self@.wf(),
    {
        proof {
            use_type_invariant(self);
        }
        self.members.as_slice()
    }

    /// The pairs, each by the places of its two particles among the members.
    pub fn pairs(&self) -> (pairs: &[Pair])
        ensures
            pairs@ == self@.pairs,
            self@.wf(),
    {
        proof {
            use_type_invariant(self);
        }
        self.pairs.as_slice()
    }

    /// Copies of the members' particles, in the order of the members.
    pub fn copy_out(&self, buffer: &[Particle]) -> (mine: Vec<Particle>)
        requires
            self@.fits(buffer@.len() as int),
        ensures
            mine@ == self@.copies(buffer@),
    {
        let n = self.members.len();
        let mut mine: Vec<Particle> = Vec::with_capacity(n);
        let mut k: usize = 0;
        while k < n
            invariant
                k <= n,
                n == self.members@.len(),
                self@.fits(buffer@.len() as int),
                mine@ == self@.copies(buffer@).take(k as int),
            decreases n - k,
        {
            assert(self@.members[k as int] < buffer@.len());
            mine.push(buffer[self.members[k]]);
            k += 1;
        }
        mine
    }

    /// Writes `worked`, the members' particles after the work, back into `buffer`.
    pub fn write_back(&self, worked: &[Particle], buffer: &mut Vec<Particle>)
        requires
            self@.fits(old(buffer)@.len() as int),
            worked@.len() == self@.members.len(),
        ensures
            final(buffer)@ == self@.written_back(old(buffer)@, worked@),
    {
        proof {
            use_type_invariant(self);
        }
        let n = self.members.len();
        let mut k: usize = 0;
        while k < n
            invariant
                k <= n,
                n == self.members@.len(),
                worked@.len() == n,
                self@.sound(),
                self@.fits(old(buffer)@.len() as int),
                buffer@.len() == old(buffer)@.len(),
                forall|j: int|
                    0 <= j < k ==> buffer@[#[trigger] self.members@[j] as int] == worked@[j],
                forall|x: int|
                    0 <= x < buffer@.len() && (forall|j: int|
                        0 <= j < k ==> #[trigger] self.members@[j] != x) ==> #[trigger] buffer@[x]
                        == old(buffer)@[x],
            decreases n - k,
        {
            let x = self.members[k];
            assert(self@.members[k as int] < buffer@.len());
            buffer[x] = worked[k];
            k += 1;
        }
        proof {
            let back = self@.written_back(old(buffer)@, worked@);
            assert forall|x: int| 0 <= x < buffer@.len() implies buffer@[x] == back[x] by {
                if self@.has_member(x) {
                    let j = self@.place_of(x);
                    assert(self.members@[j] == x);
                }
            }
            assert(buffer@ =~= back);
        }
    }

    /// Whether every member is among the first `count` particles.
    pub fn fits(&self, count: usize) -> (b: bool)
        ensures
            b == self@.fits(count as int),
    {
        proof {
            use_type_invariant(self);
        }
        if self.members.len() == 0 {
            return true;
        }
        proof {
            let k = choose|k: int| 0 <= k < self.members@.len() && self.members@[k] == self.top;
            assert(self@.members[k] == self.top);
        }
        self.top < count
    }
}

} // verus!
