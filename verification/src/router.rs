//! The router: the registry of connections that may receive lines, and the
//! fan-out of one line to every registered connection but its origin.

use crate::writer::{Action, Writer};
use vstd::prelude::*;

verus! {

/// What became of handing a line to one connection's channel.
#[derive(Clone, Copy, Debug, PartialEq, Eq, Structural)]
pub struct Delivery {
    /// The connection the line was meant for.
    pub id: usize,
    /// Whether the connection's channel took the line.
    pub queued: bool,
}

/// One line handed to one connection's channel, as the router's history
/// keeps it.
pub struct Attempt {
    /// The connection whose channel was handed the line.
    pub to: usize,
    /// The line.
    pub text: Seq<char>,
}

/// The identifiers of the handles, in their order.
pub open spec fn ids_of(ws: Seq<Writer>) -> Seq<usize> {
    ws.map_values(|w: Writer| w.spec_id())
}

/// Some handle in `ws` stands for connection `id`.
pub open spec fn has_id(ws: Seq<Writer>, id: usize) -> bool {
    exists|i: int| 0 <= i < ws.len() && (#[trigger] ws[i]).spec_id() == id
}

/// No two handles in `ws` stand for the same connection.
pub open spec fn distinct_ids(ws: Seq<Writer>) -> bool {
    forall|i: int, j: int|
        0 <= i < j < ws.len() ==> (#[trigger] ws[i]).spec_id() != (#[trigger] ws[j]).spec_id()
}

/// `i` is the position of the first handle in `ws` that stands for `id`.
pub open spec fn is_first_with(ws: Seq<Writer>, id: usize, i: int) -> bool {
    &&& 0 <= i < ws.len()
    &&& ws[i].spec_id() == id
    &&& forall|j: int| 0 <= j < i ==> (#[trigger] ws[j]).spec_id() != id
}

/// `ws` with the first handle that stands for `id` taken out, and `ws` itself
/// where there is none.
pub open spec fn without(ws: Seq<Writer>, id: usize) -> Seq<Writer> {
    if has_id(ws, id) {
        ws.remove(choose|i: int| is_first_with(ws, id, i))
    } else {
        ws
    }
}

/// The handles that a line from connection `origin` goes to: all of `ws` but
/// those that stand for `origin`, in the order of `ws`.
pub open spec fn recipients(ws: Seq<Writer>, origin: usize) -> Seq<Writer> {
    ws.filter(|w: Writer| w.spec_id() != origin)
}

/// What one broadcast of `text` from connection `origin` hands to channels:
/// the line once for each recipient, in registry order.
pub open spec fn fan_out(ws: Seq<Writer>, text: Seq<char>, origin: usize) -> Seq<Attempt> {
    recipients(ws, origin).map_values(|w: Writer| Attempt { to: w.spec_id(), text })
}

/// The lines that a history hands to connection `id`, first to last.
pub open spec fn queued_for(history: Seq<Attempt>, id: usize) -> Seq<Seq<char>> {
    history.filter(|a: Attempt| a.to == id).map_values(|a: Attempt| a.text)
}

/// The connections that a report names, in its order.
pub open spec fn attempted(report: Seq<Delivery>) -> Seq<usize> {
    report.map_values(|d: Delivery| d.id)
}

/// At most one position of `ws` is the first with `id`.
pub proof fn lemma_first_with_unique(ws: Seq<Writer>, id: usize, i: int, k: int)
    requires
        is_first_with(ws, id, i),
        is_first_with(ws, id, k),
    ensures
        i == k,
{
    if i < k {
        assert(ws[i].spec_id() != id);
    } else if k < i {
        assert(ws[k].spec_id() != id);
    }
}

/// Taking out the handle at the first position with `id` is `without`.
pub proof fn lemma_without_at(ws: Seq<Writer>, id: usize, i: int)
    requires
        is_first_with(ws, id, i),
    ensures
        has_id(ws, id),
        without(ws, id) == ws.remove(i),
{
    assert(ws[i].spec_id() == id);
    let k = choose|k: int| is_first_with(ws, id, k);
    lemma_first_with_unique(ws, id, i, k);
}

/// The registry of connections, in the order in which they were added,
/// together with the history of what the router has handed to their channels.
pub struct Router {
    writers: Vec<Writer>,
    history: Ghost<Seq<Attempt>>,
}

impl View for Router {
    type V = Seq<Writer>;

    closed spec fn view(&self) -> Seq<Writer> {
        self.writers@
    }
}

impl Router {
    /// Every line that this router has handed to a channel since it was
    /// made, with the connection it was meant for, first to last.
    pub closed spec fn attempts(&self) -> Seq<Attempt> {
        self.history@
    }

    /// A router with nothing registered and nothing sent.
    pub fn new() -> (r: Router)
        ensures
            r@ == Seq::<Writer>::empty(),
            r.attempts() == Seq::<Attempt>::empty(),
    {
        Router { writers: Vec::new(), history: Ghost(Seq::empty()) }
    }

    /// The number of registered handles.
    pub fn len(&self) -> (n: usize)
        ensures
            n == self@.len(),
    {
        self.writers.len()
    }

    /// The identifiers of the registered connections, in registry order.
    pub fn ids(&self) -> (ids: Vec<usize>)
        ensures
            ids@ == ids_of(self@),
    {
        let mut ids: Vec<usize> = Vec::new();
        let mut i: usize = 0;
        while i < self.writers.len()
            invariant
                i <= self.writers.len(),
                ids@ == ids_of(self.writers@.take(i as int)),
            decreases self.writers.len() - i,
        {
            ids.push(self.writers[i].id());
            assert(ids@ =~= ids_of(self.writers@.take(i + 1)));
            i += 1;
        }
        assert(self.writers@.take(i as int) =~= self.writers@);
        ids
    }

    /// Appends `w` to the registry. Nothing is compared: a handle for a
    /// connection that is registered already is appended all the same.
    pub fn add_writer(&mut self, w: Writer)
        ensures
            final(self)@ == old(self)@.push(w),
            final(self).attempts() == old(self).attempts(),
            distinct_ids(old(self)@) && !has_id(old(self)@, w.spec_id()) ==> distinct_ids(
                final(self)@,
            ),
    {
        self.writers.push(w);
    }

    /// Takes the first handle that stands for the connection of `w` out of
    /// the registry; where there is none the registry stays as it is.
    pub fn rm_writer(&mut self, w: &Writer)
        ensures
            final(self)@ == without(old(self)@, w.spec_id()),
            final(self).attempts() == old(self).attempts(),
            distinct_ids(old(self)@) ==> distinct_ids(final(self)@) && !has_id(
                final(self)@,
                w.spec_id(),
            ),
    {
        let mut i: usize = 0;
        while i < self.writers.len()
            invariant
                i <= self.writers.len(),
                self.writers@ == old(self).writers@,
                self.history@ == old(self).history@,
                forall|j: int| 0 <= j < i ==> (#[trigger] self.writers@[j]).spec_id() != w.spec_id(),
            decreases self.writers.len() - i,
        {
            if self.writers[i] == *w {
                proof {
                    lemma_without_at(self.writers@, w.spec_id(), i as int);
                    if distinct_ids(self.writers@) {
                        lemma_without_distinct(self.writers@, w.spec_id());
                    }
                }
                self.writers.remove(i);
                return ;
            }
            i += 1;
        }
    }

    /// Hands a copy of `msg` to the channel of the handle at position `at`,
    /// notes the attempt in the history and tells whether the channel took
    /// the line. This is the one place where the router sends, and the one
    /// place where its history grows.
    fn hand_over(&mut self, at: usize, msg: &String) -> (queued: bool)
        requires
            at < old(self)@.len(),
        ensures
            final(self)@ == old(self)@,
            final(self).attempts() == old(self).attempts().push(
                Attempt { to: old(self)@[at as int].spec_id(), text: msg@ },
            ),
    {
        let to = &self.writers[at];
        let queued = to.queue(msg.clone());
        self.history = Ghost(self.history@.push(Attempt { to: to.spec_id(), text: msg@ }));
        queued
    }

    /// Hands a copy of `msg` to the channel of every registered connection
    /// but the one `from` stands for, in registry order, and reports each
    /// attempt.
    ///
    /// A channel that refuses the line stops nothing: there is one attempt
    /// for each recipient whatever became of the attempts before it. The
    /// registry itself is not touched.
    pub fn to_writers(&mut self, msg: &String, from: &Writer) -> (report: Vec<Delivery>)
        ensures
            final(self)@ == old(self)@,
            final(self).attempts() == old(self).attempts() + fan_out(
                old(self)@,
                msg@,
                from.spec_id(),
            ),
            attempted(report@) == ids_of(recipients(old(self)@, from.spec_id())),
    {
        let mut report: Vec<Delivery> = Vec::new();
        let ghost others = |w: Writer| w.spec_id() != from.spec_id();
        let mut i: usize = 0;
        assert(self.history@ =~= old(self).history@ + fan_out(
            self.writers@.take(0),
            msg@,
            from.spec_id(),
        ));
        while i < self.writers.len()
            invariant
                i <= self.writers.len(),
                self.writers@ == old(self).writers@,
                others == |w: Writer| w.spec_id() != from.spec_id(),
                attempted(report@) == ids_of(self.writers@.take(i as int).filter(others)),
                self.history@ == old(self).history@ + fan_out(
                    self.writers@.take(i as int),
                    msg@,
                    from.spec_id(),
                ),
            decreases self.writers.len() - i,
        {
            let ghost to = self.writers@[i as int];
            let ghost seen = self.writers@.take(i as int);
            proof {
                assert(self.writers@.take(i + 1) =~= seen.push(to));
                seen.lemma_filter_push(to, others);
            }
            if self.writers[i] != *from {
                let ghost before = report@;
                let queued = self.hand_over(i, msg);
                report.push(Delivery { id: self.writers[i].id(), queued });
                proof {
                    let kept = seen.filter(others);
                    assert(others(to));
                    assert(attempted(report@) =~= attempted(before).push(to.spec_id()));
                    assert(ids_of(kept.push(to)) =~= ids_of(kept).push(to.spec_id()));
                    assert(fan_out(seen.push(to), msg@, from.spec_id()) =~= fan_out(
                        seen,
                        msg@,
                        from.spec_id(),
                    ).push(Attempt { to: to.spec_id(), text: msg@ }));
                    assert(self.history@ =~= old(self).history@ + fan_out(
                        seen.push(to),
                        msg@,
                        from.spec_id(),
                    ));
                }
            }
            i += 1;
        }
        assert(self.writers@.take(i as int) =~= self.writers@);
        report
    }

    /// Carries out one command and reports the attempts it made to queue a
    /// line: one for each recipient of a broadcast, none for the other
    /// commands.
    pub fn apply(&mut self, act: Action) -> (report: Vec<Delivery>)
        ensures
            match act {
                Action::ToWriters(msg, from) => {
                    &&& final(self)@ == old(self)@
                    &&& final(self).attempts() == old(self).attempts() + fan_out(
                        old(self)@,
                        msg@,
                        from.spec_id(),
                    )
                    &&& attempted(report@) == ids_of(recipients(old(self)@, from.spec_id()))
                },
                Action::AddWriter(w) => {
                    &&& final(self)@ == old(self)@.push(w)
                    &&& final(self).attempts() == old(self).attempts()
                    &&& report@.len() == 0
                },
                Action::RmWriter(w) => {
                    &&& final(self)@ == without(old(self)@, w.spec_id())
                    &&& final(self).attempts() == old(self).attempts()
                    &&& report@.len() == 0
                },
            },
    {
        match act {
            Action::ToWriters(msg, from) => self.to_writers(&msg, &from),
            Action::AddWriter(w) => {
                self.add_writer(w);
                Vec::new()
            },
            Action::RmWriter(w) => {
                self.rm_writer(&w);
                Vec::new()
            },
        }
    }
}

/// Taking the first handle with `id` out of a registry without repeated
/// identifiers leaves no handle with `id`, and no repeated identifier.
pub proof fn lemma_without_distinct(ws: Seq<Writer>, id: usize)
    requires
        distinct_ids(ws),
    ensures
        distinct_ids(without(ws, id)),
        !has_id(without(ws, id), id),
{
    if has_id(ws, id) {
        let i = choose|i: int| is_first_with(ws, id, i);
        lemma_has_first(ws, id);
        let rest = ws.remove(i);
        assert forall|a: int| 0 <= a < rest.len() implies (#[trigger] rest[a]).spec_id() != id by {
            let b = if a < i { a } else { a + 1 };
            assert(rest[a] == ws[b]);
            if b < i {
                assert(ws[b].spec_id() != ws[i].spec_id());
            } else {
                assert(ws[i].spec_id() != ws[b].spec_id());
            }
        }
        assert forall|a: int, b: int| 0 <= a < b < rest.len() implies (#[trigger] rest[a]).spec_id()
            != (#[trigger] rest[b]).spec_id() by {
            let a2 = if a < i { a } else { a + 1 };
            let b2 = if b < i { b } else { b + 1 };
            assert(rest[a] == ws[a2]);
            assert(rest[b] == ws[b2]);
        }
    }
}

/// Where some handle stands for `id`, one of them is the first.
pub proof fn lemma_has_first(ws: Seq<Writer>, id: usize)
    requires
        has_id(ws, id),
    ensures
        exists|i: int| is_first_with(ws, id, i),
    decreases ws.len(),
{
    let k = choose|k: int| 0 <= k < ws.len() && (#[trigger] ws[k]).spec_id() == id;
    let front = ws.take(k);
    if has_id(front, id) {
        lemma_has_first(front, id);
        let i = choose|i: int| is_first_with(front, id, i);
        assert(ws[i] == front[i]);
        assert forall|j: int| 0 <= j < i implies (#[trigger] ws[j]).spec_id() != id by {
            assert(ws[j] == front[j]);
        }
        assert(is_first_with(ws, id, i));
    } else {
        assert forall|j: int| 0 <= j < k implies (#[trigger] ws[j]).spec_id() != id by {
            assert(front[j] == ws[j]);
        }
        assert(is_first_with(ws, id, k));
    }
}

} // verus!
