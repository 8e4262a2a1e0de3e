//! The queues a session keeps in memory: messages by the name of the queue
//! that holds them, in the order they came.

use vstd::prelude::*;
use vstd::slice::slice_to_vec;
use vstd::string::*;

use crate::text::same;

verus! {

/// Messages, each taken by its view.
pub open spec fn bodies(messages: Seq<Vec<u8>>) -> Seq<Seq<u8>> {
    messages.map_values(|message: Vec<u8>| message@)
}

/// What is held under `queue`: nothing where there is no such queue.
pub open spec fn held_under(queues: Map<Seq<char>, Seq<Seq<u8>>>, queue: Seq<char>) -> Seq<
    Seq<u8>,
> {
    if queues.dom().contains(queue) {
        queues[queue]
    } else {
        Seq::empty()
    }
}

/// Names, each taken by its view.
pub open spec fn name_views(names: Seq<String>) -> Seq<Seq<char>> {
    names.map_values(|name: String| name@)
}

/// What a session holds: messages per queue, not yet delivered.
#[derive(Debug)]
pub struct Queues {
    entries: Vec<(String, Vec<Vec<u8>>)>,
}

impl View for Queues {
    type V = Map<Seq<char>, Seq<Seq<u8>>>;

    closed spec fn view(&self) -> Map<Seq<char>, Seq<Seq<u8>>> {
        let entries = self.entries@;
        Map::new(
            |queue: Seq<char>| exists|i: int| 0 <= i < entries.len() && entries[i].0@ == queue,
            |queue: Seq<char>|
                bodies(
                    entries[choose|i: int| 0 <= i < entries.len() && entries[i].0@ == queue].1@,
                ),
        )
    }
}

impl Queues {
    /// No queue stands twice.
    #[verifier::type_invariant]
    spec fn distinct(self) -> bool {
        forall|i: int, j: int|
            0 <= i < j < self.entries@.len() ==> self.entries@[i].0@ != self.entries@[j].0@
    }

    /// No queues.
    pub fn new() -> (queues: Self)
        ensures
            queues@ == Map::<Seq<char>, Seq<Seq<u8>>>::empty(),
    {
        let queues = Queues { entries: Vec::new() };
        assert(queues@ =~= Map::<Seq<char>, Seq<Seq<u8>>>::empty());
        queues
    }

    /// Where `queue` stands, or how many queues there are.
    fn position(&self, queue: &str) -> (at: usize)
        ensures
            at <= self.entries@.len(),
            at < self.entries@.len() ==> self.entries@[at as int].0@ == queue@,
            at < self.entries@.len() ==> self@.dom().contains(queue@),
            at < self.entries@.len() ==> self@[queue@] == bodies(self.entries@[at as int].1@),
            at == self.entries@.len() ==> !self@.dom().contains(queue@),
    {
        proof {
            use_type_invariant(self);
        }
        let mut at: usize = 0;
        while at < self.entries.len()
            invariant
                at <= self.entries@.len(),
                forall|i: int| 0 <= i < at ==> self.entries@[i].0@ != queue@,
                self.distinct(),
            decreases self.entries@.len() - at,
        {
            if same(self.entries[at].0.as_str(), queue) {
                return at;
            }
            at = at + 1;
        }
        at
    }

    /// What is held under `queue`, where there is such a queue.
    pub fn get(&self, queue: &str) -> (messages: Option<&Vec<Vec<u8>>>)
        ensures
            messages is Some <==> self@.dom().contains(queue@),
            messages matches Some(held) ==> bodies(held@) == self@[queue@],
    {
        let at: usize = self.position(queue);
        if at < self.entries.len() {
            Some(&self.entries[at].1)
        } else {
            None
        }
    }

    /// The names of the queues, each once and in no order.
    pub fn names(&self) -> (names: Vec<String>)
        ensures
            name_views(names@).no_duplicates(),
            name_views(names@).to_set() == self@.dom(),
    {
        proof {
            use_type_invariant(self);
        }
        let mut names: Vec<String> = Vec::new();
        let mut at: usize = 0;
        while at < self.entries.len()
            invariant
                at <= self.entries@.len(),
                names@.len() == at,
                forall|i: int| 0 <= i < at ==> (#[trigger] names@[i])@ == self.entries@[i].0@,
            decreases self.entries@.len() - at,
        {
            names.push(self.entries[at].0.as_str().to_owned());
            at = at + 1;
        }
        proof {
            let views = name_views(names@);
            assert forall|queue: Seq<char>| views.to_set().contains(queue)
                == self@.dom().contains(queue) by {
                if self@.dom().contains(queue) {
                    let i = choose|i: int|
                        0 <= i < self.entries@.len() && self.entries@[i].0@ == queue;
                    assert(views[i] == queue);
                }
                if views.contains(queue) {
                    let i = views.index_of(queue);
                    assert(self.entries@[i].0@ == queue);
                }
            }
            assert(views.to_set() =~= self@.dom());
        }
        names
    }

    /// Whether every queue here stands in `other` and holds the same there.
    fn within(&self, other: &Queues) -> (result: bool)
        ensures
            result == (forall|queue: Seq<char>| #[trigger]
                self@.dom().contains(queue) ==> other@.dom().contains(queue) && other@[queue]
                    == self@[queue]),
    {
        proof {
            use_type_invariant(self);
        }
        let mut at: usize = 0;
        while at < self.entries.len()
            invariant
                at <= self.entries@.len(),
                self.distinct(),
                forall|i: int|
                    0 <= i < at ==> other@.dom().contains((#[trigger] self.entries@[i]).0@)
                        && other@[self.entries@[i].0@] == bodies(self.entries@[i].1@),
            decreases self.entries@.len() - at,
        {
            let ghost queue = self.entries@[at as int].0@;
            assert(self@.dom().contains(queue));
            assert(self@[queue] == bodies(self.entries@[at as int].1@));
            match other.get(self.entries[at].0.as_str()) {
                Some(messages) => {
                    if !same_messages(&self.entries[at].1, messages) {
                        return false;
                    }
                },
                None => {
                    return false;
                },
            }
            at = at + 1;
        }
        true
    }

    /// Take `queue` out, and what it held.
    pub fn remove(&mut self, queue: &str) -> (messages: Option<Vec<Vec<u8>>>)
        ensures
            final(self)@ == old(self)@.remove(queue@),
            messages is Some <==> old(self)@.dom().contains(queue@),
            messages matches Some(held) ==> bodies(held@) == old(self)@[queue@],
    {
        let at: usize = self.position(queue);
        if at >= self.entries.len() {
            assert(self@ =~= old(self)@.remove(queue@));
            return None;
        }
        proof {
            use_type_invariant(&*self);
        }
        let mut entries: Vec<(String, Vec<Vec<u8>>)> = Vec::new();
        std::mem::swap(&mut entries, &mut self.entries);
        let (_, messages) = entries.remove(at);
        self.entries = entries;
        proof {
            lemma_removed(*old(self), *self, at as int);
        }
        Some(messages)
    }

    /// Put `message` at the end of `queue`, which is made where there is
    /// none.
    pub fn push(&mut self, queue: &str, message: Vec<u8>)
        ensures
            final(self)@ == old(self)@.insert(
                queue@,
                held_under(old(self)@, queue@).push(message@),
            ),
    {
        let mut messages = match self.remove(queue) {
            Some(messages) => messages,
            None => Vec::new(),
        };
        let ghost held = messages@;
        messages.push(message);
        proof {
            assert(bodies(messages@) =~= bodies(held).push(message@));
            assert(held_under(old(self)@, queue@) =~= bodies(held));
            use_type_invariant(&*self);
        }
        let ghost before = *self;
        let mut entries: Vec<(String, Vec<Vec<u8>>)> = Vec::new();
        std::mem::swap(&mut entries, &mut self.entries);
        proof {
            assert forall|i: int| 0 <= i < entries@.len() implies entries@[i].0@ != queue@ by {
                assert(before@.dom().contains(entries@[i].0@));
            }
        }
        entries.push((queue.to_owned(), messages));
        self.entries = entries;
        proof {
            assert(self.entries@.drop_last() =~= before.entries@);
            lemma_added(before, *self);
            assert(self@ =~= old(self)@.insert(queue@, bodies(messages@)));
        }
    }
}

/// Whether two octet strings are the same.
fn same_octets(left: &[u8], right: &[u8]) -> (result: bool)
    ensures
        result == (left@ == right@),
{
    if left.len() != right.len() {
        return false;
    }
    let mut at: usize = 0;
    while at < left.len()
        invariant
            at <= left@.len(),
            left@.len() == right@.len(),
            forall|i: int| 0 <= i < at ==> left@[i] == right@[i],
        decreases left@.len() - at,
    {
        if left[at] != right[at] {
            return false;
        }
        at = at + 1;
    }
    assert(left@ =~= right@);
    true
}

/// Whether two queues hold the same messages in the same order.
fn same_messages(left: &Vec<Vec<u8>>, right: &Vec<Vec<u8>>) -> (result: bool)
    ensures
        result == (bodies(left@) == bodies(right@)),
{
    if left.len() != right.len() {
        assert(bodies(left@).len() != bodies(right@).len());
        return false;
    }
    let mut at: usize = 0;
    while at < left.len()
        invariant
            at <= left@.len(),
            left@.len() == right@.len(),
            forall|i: int| 0 <= i < at ==> bodies(left@)[i] == bodies(right@)[i],
        decreases left@.len() - at,
    {
        if !same_octets(left[at].as_slice(), right[at].as_slice()) {
            assert(bodies(left@)[at as int] != bodies(right@)[at as int]);
            return false;
        }
        at = at + 1;
    }
    assert(bodies(left@) =~= bodies(right@));
    true
}

impl PartialEq for Queues {
    fn eq(&self, other: &Self) -> (result: bool) {
        let result = self.within(other) && other.within(self);
        proof {
            if result {
                assert(self@ =~= other@);
            }
        }
        result
    }
}

impl vstd::std_specs::cmp::PartialEqSpecImpl for Queues {
    open spec fn obeys_eq_spec() -> bool {
        true
    }

    open spec fn eq_spec(&self, other: &Self) -> bool {
        self@ == other@
    }
}

impl Eq for Queues {

}

impl Clone for Queues {
    fn clone(&self) -> (queues: Self)
        ensures
            queues@ == self@,
    {
        proof {
            use_type_invariant(self);
        }
        let mut entries: Vec<(String, Vec<Vec<u8>>)> = Vec::new();
        let mut at: usize = 0;
        while at < self.entries.len()
            invariant
                at <= self.entries@.len(),
                entries@.len() == at,
                forall|i: int|
                    0 <= i < at ==> (#[trigger] entries@[i]).0@ == self.entries@[i].0@ && bodies(
                        entries@[i].1@,
                    ) == bodies(self.entries@[i].1@),
            decreases self.entries@.len() - at,
        {
            let name = self.entries[at].0.as_str().to_owned();
            let messages = copied(&self.entries[at].1);
            entries.push((name, messages));
            at = at + 1;
        }
        let queues = Queues { entries };
        proof {
            lemma_same_entries(*self, queues);
        }
        queues
    }
}

/// The same messages in the same order.
fn copied(messages: &Vec<Vec<u8>>) -> (copy: Vec<Vec<u8>>)
    ensures
        bodies(copy@) == bodies(messages@),
{
    let mut copy: Vec<Vec<u8>> = Vec::new();
    let mut at: usize = 0;
    while at < messages.len()
        invariant
            at <= messages@.len(),
            copy@.len() == at,
            forall|i: int| 0 <= i < at ==> (#[trigger] copy@[i])@ == messages@[i]@,
        decreases messages@.len() - at,
    {
        copy.push(slice_to_vec(messages[at].as_slice()));
        at = at + 1;
    }
    assert(bodies(copy@) =~= bodies(messages@));
    copy
}

/// Queues that stand in the same places and hold the same are the same.
proof fn lemma_same_entries(left: Queues, right: Queues)
    requires
        left.distinct(),
        right.distinct(),
        left.entries@.len() == right.entries@.len(),
        forall|i: int|
            0 <= i < left.entries@.len() ==> (#[trigger] right.entries@[i]).0@
                == left.entries@[i].0@ && bodies(right.entries@[i].1@) == bodies(
                left.entries@[i].1@,
            ),
    ensures
        right@ == left@,
{
    assert forall|queue: Seq<char>| #[trigger]
        left@.dom().contains(queue) implies right@.dom().contains(queue) && right@[queue]
        == left@[queue] by {
        let i = choose|i: int| 0 <= i < left.entries@.len() && left.entries@[i].0@ == queue;
        assert(right.entries@[i].0@ == queue);
    }
    assert forall|queue: Seq<char>| #[trigger]
        right@.dom().contains(queue) implies left@.dom().contains(queue) by {
        let i = choose|i: int| 0 <= i < right.entries@.len() && right.entries@[i].0@ == queue;
        assert(left.entries@[i].0@ == queue);
    }
    assert(right@ =~= left@);
}

/// Queues without the one that stood at `at`.
proof fn lemma_removed(before: Queues, after: Queues, at: int)
    requires
        before.distinct(),
        0 <= at < before.entries@.len(),
        after.entries@ == before.entries@.remove(at),
    ensures
        after@ == before@.remove(before.entries@[at].0@),
{
    let gone = before.entries@[at].0@;
    let expected = before@.remove(gone);
    assert forall|queue: Seq<char>| #[trigger]
        after@.dom().contains(queue) implies expected.dom().contains(queue) && after@[queue]
        == expected[queue] by {
        let i = choose|i: int| 0 <= i < after.entries@.len() && after.entries@[i].0@ == queue;
        let j = if i < at { i } else { i + 1 };
        assert(before.entries@[j] == after.entries@[i]);
        assert(before.entries@[j].0@ == queue);
    }
    assert forall|queue: Seq<char>| #[trigger]
        expected.dom().contains(queue) implies after@.dom().contains(queue) by {
        let j = choose|j: int| 0 <= j < before.entries@.len() && before.entries@[j].0@ == queue;
        let i = if j < at { j } else { j - 1 };
        assert(before.entries@[j] == after.entries@[i]);
        assert(after.entries@[i].0@ == queue);
    }
    assert(after@ =~= expected);
}

/// Queues with one more at the end.
proof fn lemma_added(before: Queues, after: Queues)
    requires
        after.distinct(),
        after.entries@.len() == before.entries@.len() + 1,
        before.entries@ == after.entries@.drop_last(),
    ensures
        after@ == before@.insert(after.entries@.last().0@, bodies(after.entries@.last().1@)),
{
    let last = after.entries@.last();
    let expected = before@.insert(last.0@, bodies(last.1@));
    assert(last == after.entries@[after.entries@.len() - 1]);
    assert forall|queue: Seq<char>| #[trigger]
        after@.dom().contains(queue) implies expected.dom().contains(queue) && after@[queue]
        == expected[queue] by {
        let i = choose|i: int| 0 <= i < after.entries@.len() && after.entries@[i].0@ == queue;
        if i < before.entries@.len() {
            assert(before.entries@[i] == after.entries@[i]);
            assert(before.entries@[i].0@ == queue);
        }
    }
    assert forall|queue: Seq<char>| #[trigger]
        expected.dom().contains(queue) implies after@.dom().contains(queue) by {
        if queue != last.0@ {
            let j = choose|j: int| 0 <= j < before.entries@.len() && before.entries@[j].0@ == queue;
            assert(before.entries@[j] == after.entries@[j]);
        }
    }
    assert(after@ =~= expected);
}

} // verus!
