//! What a broadcast reaches: laws of the fan-out, of the registry under
//! registration and removal, and of the order in which lines are handed to a
//! connection.

use crate::router::{
    distinct_ids, fan_out, has_id, ids_of, is_first_with, lemma_has_first, lemma_without_at,
    queued_for, recipients, without, Attempt,
};
use crate::writer::Writer;
use vstd::prelude::*;

verus! {

/// Every identifier in `ws` is below `bound`.
pub open spec fn ids_below(ws: Seq<Writer>, bound: nat) -> bool {
    forall|i: int| 0 <= i < ws.len() ==> (#[trigger] ws[i]).spec_id() < bound
}

/// Identifiers that are handed out in growing order keep the registry free of
/// repeats: a handle whose identifier is at or above every bound so far can
/// be appended to a registry without repeats, and the result has none.
pub proof fn lemma_fresh_id_keeps_distinct(ws: Seq<Writer>, w: Writer, issued: nat)
    requires
        distinct_ids(ws),
        ids_below(ws, issued),
        w.spec_id() == issued,
    ensures
        !has_id(ws, w.spec_id()),
        distinct_ids(ws.push(w)),
        ids_below(ws.push(w), issued + 1),
{
}

/// A line never comes back to the connection it came from: no recipient of a
/// line from `origin` stands for `origin`.
pub proof fn lemma_no_self_delivery(ws: Seq<Writer>, origin: usize)
    ensures
        !has_id(recipients(ws, origin), origin),
        !ids_of(recipients(ws, origin)).contains(origin),
{
    let others = |w: Writer| w.spec_id() != origin;
    let to = ws.filter(others);
    assert forall|i: int| 0 <= i < to.len() implies (#[trigger] to[i]).spec_id() != origin by {
        ws.lemma_filter_pred(others, i);
    }
    assert forall|i: int| 0 <= i < ids_of(to).len() implies (#[trigger] ids_of(to)[i])
        != origin by {
        assert(ids_of(to)[i] == to[i].spec_id());
    }
}

/// Every registered connection other than the origin is a recipient, the
/// recipients stand in registry order, and nothing else is one. With no
/// identifier registered twice, each of the others is a recipient once: a
/// registered origin leaves all handles but its own, and an origin that is
/// not registered leaves the whole registry.
pub proof fn lemma_fan_out_complete(ws: Seq<Writer>, origin: usize)
    ensures
        forall|i: int|
            0 <= i < ws.len() && (#[trigger] ws[i]).spec_id() != origin ==> recipients(
                ws,
                origin,
            ).contains(ws[i]),
        forall|w: Writer| #[trigger]
            recipients(ws, origin).contains(w) ==> ws.contains(w) && w.spec_id() != origin,
        !has_id(ws, origin) ==> recipients(ws, origin) == ws,
        distinct_ids(ws) ==> distinct_ids(recipients(ws, origin)),
        distinct_ids(ws) && has_id(ws, origin) ==> recipients(ws, origin).len() == ws.len() - 1,
    decreases ws.len(),
{
    let others = |w: Writer| w.spec_id() != origin;
    let to = ws.filter(others);
    assert forall|i: int| 0 <= i < ws.len() && (#[trigger] ws[i]).spec_id() != origin implies to.contains(
        ws[i],
    ) by {
        ws.lemma_filter_contains(others, i);
    }
    assert forall|w: Writer| #[trigger] to.contains(w) implies ws.contains(w) && w.spec_id()
        != origin by {
        ws.lemma_filter_contains_rev(others, w);
        let k = choose|k: int| 0 <= k < to.len() && to[k] == w;
        ws.lemma_filter_pred(others, k);
    }
    if ws.len() > 0 {
        let front = ws.drop_last();
        let last = ws.last();
        lemma_fan_out_complete(front, origin);
        assert(ws =~= front.push(last));
        front.lemma_filter_push(last, others);
        let kept = front.filter(others);
        if !has_id(ws, origin) {
            assert forall|i: int| 0 <= i < front.len() implies (#[trigger] front[i]).spec_id()
                != origin by {
                assert(front[i] == ws[i]);
            }
            assert(last == ws[ws.len() - 1]);
        }
        if distinct_ids(ws) {
            assert forall|i: int, j: int| 0 <= i < j < front.len() implies (#[trigger] front[i]).spec_id()
                != (#[trigger] front[j]).spec_id() by {
                assert(front[i] == ws[i] && front[j] == ws[j]);
            }
            assert forall|i: int| 0 <= i < front.len() implies (#[trigger] front[i]).spec_id()
                != last.spec_id() by {
                assert(front[i] == ws[i] && last == ws[ws.len() - 1]);
            }
            if others(last) {
                assert forall|i: int, j: int| 0 <= i < j < to.len() implies (#[trigger] to[i]).spec_id()
                    != (#[trigger] to[j]).spec_id() by {
                    if j == kept.len() {
                        assert(kept.contains(kept[i]));
                        let k = choose|k: int| 0 <= k < front.len() && front[k] == kept[i];
                        assert(front[k].spec_id() != last.spec_id());
                    } else {
                        assert(to[i] == kept[i] && to[j] == kept[j]);
                    }
                }
            }
            if has_id(ws, origin) {
                if others(last) {
                    let k = choose|k: int| 0 <= k < ws.len() && (#[trigger] ws[k]).spec_id() == origin;
                    assert(front[k] == ws[k]);
                    assert(has_id(front, origin));
                } else {
                    assert(!has_id(front, origin));
                }
            }
        }
    } else {
        ws.lemma_filter_len(others);
        assert(to =~= ws);
    }
}

/// Registering a connection takes no recipient away and moves none: the
/// recipients of a line are those from before, in the same order, followed by
/// the new connection unless the line is its own.
pub proof fn lemma_register_keeps_recipients(ws: Seq<Writer>, w: Writer, origin: usize)
    ensures
        recipients(ws.push(w), origin) == if w.spec_id() != origin {
            recipients(ws, origin).push(w)
        } else {
            recipients(ws, origin)
        },
{
    ws.lemma_filter_push(w, |w: Writer| w.spec_id() != origin);
}

/// Taking a connection out of the registry takes it, and nothing else, out of
/// the recipients of a line: the others stay, in their order.
pub proof fn lemma_deregister_keeps_recipients(ws: Seq<Writer>, gone: usize, origin: usize)
    ensures
        recipients(without(ws, gone), origin) == without(recipients(ws, origin), gone),
{
    let others = |w: Writer| w.spec_id() != origin;
    let to = ws.filter(others);
    if has_id(ws, gone) {
        lemma_has_first(ws, gone);
        let i = choose|i: int| is_first_with(ws, gone, i);
        let front = ws.take(i);
        let back = ws.skip(i + 1);
        let x = ws[i];
        assert(ws =~= front + (seq![x] + back));
        assert(ws.remove(i) =~= front + back);
        Seq::filter_distributes_over_add(front, seq![x] + back, others);
        Seq::filter_distributes_over_add(front, back, others);
        back.lemma_filter_prepend(x, others);
        let a = front.filter(others);
        let b = back.filter(others);
        assert forall|j: int| 0 <= j < a.len() implies (#[trigger] a[j]).spec_id() != gone by {
            assert(a.contains(a[j]));
            front.lemma_filter_contains_rev(others, a[j]);
            let k = choose|k: int| 0 <= k < front.len() && front[k] == a[j];
            assert(ws[k] == front[k]);
        }
        if gone == origin {
            assert(to =~= a + b);
            lemma_no_self_delivery(ws, origin);
        } else {
            assert(to =~= a + (seq![x] + b));
            assert(to[a.len() as int] == x);
            assert forall|j: int| 0 <= j < a.len() implies (#[trigger] to[j]).spec_id() != gone by {
                assert(to[j] == a[j]);
            }
            assert(is_first_with(to, gone, a.len() as int));
            lemma_without_at(to, gone, a.len() as int);
            assert(to.remove(a.len() as int) =~= a + b);
        }
    } else {
        if has_id(to, gone) {
            let k = choose|k: int| 0 <= k < to.len() && (#[trigger] to[k]).spec_id() == gone;
            assert(to.contains(to[k]));
            ws.lemma_filter_contains_rev(others, to[k]);
            let m = choose|m: int| 0 <= m < ws.len() && ws[m] == to[k];
            assert(ws[m].spec_id() == gone);
        }
    }
}

/// What a history hands to a connection keeps the order of the history: the
/// lines of an earlier part come before the lines of a later part.
pub proof fn lemma_queue_order(earlier: Seq<Attempt>, later: Seq<Attempt>, id: usize)
    ensures
        queued_for(earlier + later, id) == queued_for(earlier, id) + queued_for(later, id),
{
    let mine = |a: Attempt| a.to == id;
    Seq::filter_distributes_over_add(earlier, later, mine);
    assert(queued_for(earlier + later, id) =~= queued_for(earlier, id) + queued_for(later, id));
}

/// What one more attempt adds to the lines of a connection: its line, where
/// the attempt is meant for that connection, and nothing otherwise.
pub proof fn lemma_queue_push(history: Seq<Attempt>, a: Attempt, id: usize)
    ensures
        queued_for(history.push(a), id) == if a.to == id {
            queued_for(history, id).push(a.text)
        } else {
            queued_for(history, id)
        },
{
    let mine = |a: Attempt| a.to == id;
    history.lemma_filter_push(a, mine);
    if a.to == id {
        assert(queued_for(history.push(a), id) =~= queued_for(history, id).push(a.text));
    }
}

/// What one broadcast hands to one connection: nothing to its origin and
/// nothing to a connection that is not registered; and, with no identifier
/// registered twice, the line exactly once to each other registered
/// connection.
pub proof fn lemma_fan_out_queue(ws: Seq<Writer>, text: Seq<char>, origin: usize, id: usize)
    ensures
        id == origin ==> queued_for(fan_out(ws, text, origin), id) == Seq::<Seq<char>>::empty(),
        !has_id(ws, id) ==> queued_for(fan_out(ws, text, origin), id) == Seq::<Seq<char>>::empty(),
        distinct_ids(ws) && has_id(ws, id) && id != origin ==> queued_for(
            fan_out(ws, text, origin),
            id,
        ) == seq![text],
    decreases ws.len(),
{
    let others = |w: Writer| w.spec_id() != origin;
    let mine = |a: Attempt| a.to == id;
    if ws.len() == 0 {
        ws.lemma_filter_len(others);
        assert(fan_out(ws, text, origin) =~= Seq::<Attempt>::empty());
        Seq::<Attempt>::empty().lemma_filter_len(mine);
        assert(queued_for(fan_out(ws, text, origin), id) =~= Seq::<Seq<char>>::empty());
    } else {
        let front = ws.drop_last();
        let last = ws.last();
        lemma_fan_out_queue(front, text, origin, id);
        assert(ws =~= front.push(last));
        front.lemma_filter_push(last, others);
        let sent = Attempt { to: last.spec_id(), text };
        if others(last) {
            assert(fan_out(ws, text, origin) =~= fan_out(front, text, origin).push(sent));
            lemma_queue_push(fan_out(front, text, origin), sent, id);
        }
        if !has_id(ws, id) {
            assert forall|i: int| 0 <= i < front.len() implies (#[trigger] front[i]).spec_id()
                != id by {
                assert(front[i] == ws[i]);
            }
            assert(last == ws[ws.len() - 1]);
        }
        if distinct_ids(ws) && has_id(ws, id) && id != origin {
            assert forall|i: int, j: int| 0 <= i < j < front.len() implies (#[trigger] front[i]).spec_id()
                != (#[trigger] front[j]).spec_id() by {
                assert(front[i] == ws[i] && front[j] == ws[j]);
            }
            if last.spec_id() == id {
                assert forall|i: int| 0 <= i < front.len() implies (#[trigger] front[i]).spec_id()
                    != id by {
                    assert(front[i] == ws[i] && last == ws[ws.len() - 1]);
                }
                assert(queued_for(fan_out(ws, text, origin), id) =~= seq![text]);
            } else {
                let k = choose|k: int| 0 <= k < ws.len() && (#[trigger] ws[k]).spec_id() == id;
                assert(front[k] == ws[k]);
            }
        }
    }
}

/// Two broadcasts, carried out one after the other on a registry without
/// repeated identifiers, reach a registered connection that sent neither of
/// them in that order: after all that was handed to it before come the first
/// line and then the second, and nothing else.
pub proof fn lemma_two_lines_in_order(
    ws: Seq<Writer>,
    history: Seq<Attempt>,
    first: Seq<char>,
    first_origin: usize,
    second: Seq<char>,
    second_origin: usize,
    id: usize,
)
    requires
        distinct_ids(ws),
        has_id(ws, id),
        id != first_origin,
        id != second_origin,
    ensures
        queued_for(
            history + fan_out(ws, first, first_origin) + fan_out(ws, second, second_origin),
            id,
        ) == queued_for(history, id).push(first).push(second),
{
    let one = fan_out(ws, first, first_origin);
    let two = fan_out(ws, second, second_origin);
    lemma_queue_order(history + one, two, id);
    lemma_queue_order(history, one, id);
    lemma_fan_out_queue(ws, first, first_origin, id);
    lemma_fan_out_queue(ws, second, second_origin, id);
    assert(queued_for(history, id) + seq![first] + seq![second] =~= queued_for(history, id).push(
        first,
    ).push(second));
}

} // verus!
