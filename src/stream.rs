use vstd::prelude::*;
use vstd::seq_lib::lemma_flatten_concat;

use crate::console::write_step;
use crate::model::{byte_len, lemma_byte_len_concat};

verus! {

/// Feeding `writes` in order to an empty sink of `capacity` bytes: the groups
/// of writes flushed so far (each group is one delivered chunk), and the
/// writes still pending.
pub open spec fn feed(capacity: nat, writes: Seq<Seq<char>>) -> (
    Seq<Seq<Seq<char>>>,
    Seq<Seq<char>>,
)
    decreases writes.len(),
{
    if writes.len() == 0 {
        (Seq::empty(), Seq::empty())
    } else {
        let prev = feed(capacity, writes.drop_last());
        let t = writes.last();
        if byte_len(prev.1.flatten()) + byte_len(t) >= capacity {
            (prev.0.push(prev.1), seq![t])
        } else {
            (prev.0, prev.1.push(t))
        }
    }
}

/// The chunks delivered, in call order, while feeding `writes`.
pub open spec fn delivered(capacity: nat, writes: Seq<Seq<char>>) -> Seq<Seq<char>> {
    feed(capacity, writes).0.map_values(|g: Seq<Seq<char>>| g.flatten())
}

/// The text still buffered after feeding `writes`.
pub open spec fn pending_after(capacity: nat, writes: Seq<Seq<char>>) -> Seq<char> {
    feed(capacity, writes).1.flatten()
}

/// Everything delivered for `writes` once the final flush of a non-empty
/// buffer is done.
pub open spec fn finished(capacity: nat, writes: Seq<Seq<char>>) -> Seq<Seq<char>> {
    if pending_after(capacity, writes).len() == 0 {
        delivered(capacity, writes)
    } else {
        delivered(capacity, writes).push(pending_after(capacity, writes))
    }
}

/// One more write extends the model exactly as `Console::write_text` acts on
/// a sink: the chunk it flushes (if any) is the next delivered one, and the
/// text it leaves pending is the model's.
pub proof fn lemma_feed_matches_write(capacity: nat, writes: Seq<Seq<char>>, t: Seq<char>)
    ensures
        ({
            let step = write_step(capacity, pending_after(capacity, writes), t);
            &&& pending_after(capacity, writes.push(t)) == step.1
            &&& delivered(capacity, writes.push(t)) == match step.0 {
                Some(c) => delivered(capacity, writes).push(c),
                None => delivered(capacity, writes),
            }
        }),
{
    let ws = writes.push(t);
    assert(ws.drop_last() =~= writes);
    let prev = feed(capacity, writes);
    let f = |g: Seq<Seq<char>>| g.flatten();
    prev.1.lemma_flatten_push(t);
    seq![t].lemma_flatten_singleton();
    assert(prev.0.push(prev.1).map_values(f) =~= prev.0.map_values(f).push(prev.1.flatten()));
}

/// Writes whose total size stays below the capacity are never flushed on the
/// way: nothing is delivered, and the buffer holds their concatenation, which
/// the final flush hands over unmodified.
pub proof fn lemma_fits_one_chunk(capacity: nat, writes: Seq<Seq<char>>)
    requires
        byte_len(writes.flatten()) < capacity,
    ensures
        delivered(capacity, writes).len() == 0,
        pending_after(capacity, writes) == writes.flatten(),
        finished(capacity, writes) == if writes.flatten().len() == 0 {
            Seq::<Seq<char>>::empty()
        } else {
            seq![writes.flatten()]
        },
    decreases writes.len(),
{
    if writes.len() == 0 {
        assert(delivered(capacity, writes) =~= Seq::<Seq<char>>::empty());
    } else {
        let init = writes.drop_last();
        let t = writes.last();
        assert(init.push(t) =~= writes);
        init.lemma_flatten_push(t);
        lemma_byte_len_concat(init.flatten(), t);
        lemma_fits_one_chunk(capacity, init);
        let prev = feed(capacity, init);
        prev.1.lemma_flatten_push(t);
    }
    assert(delivered(capacity, writes) =~= Seq::<Seq<char>>::empty());
    assert(seq![writes.flatten()] =~= Seq::<Seq<char>>::empty().push(writes.flatten()));
}

/// Flattening each group and then the whole is flattening twice.
proof fn lemma_flatten_groups(gs: Seq<Seq<Seq<char>>>)
    ensures
        gs.map_values(|g: Seq<Seq<char>>| g.flatten()).flatten() == gs.flatten().flatten(),
    decreases gs.len(),
{
    let f = |g: Seq<Seq<char>>| g.flatten();
    if gs.len() == 0 {
        assert(gs.map_values(f) =~= Seq::<Seq<char>>::empty());
    } else {
        assert(gs.map_values(f).drop_first() =~= gs.drop_first().map_values(f));
        lemma_flatten_groups(gs.drop_first());
        lemma_flatten_concat(seq![gs[0]], gs.drop_first());
        assert(seq![gs[0]] + gs.drop_first() =~= gs);
        lemma_flatten_concat(gs[0], gs.drop_first().flatten());
        assert(gs.flatten() == gs[0] + gs.drop_first().flatten());
    }
}

/// The groups flushed, followed by the pending writes, are the writes
/// themselves, whole and in order: no chunk splits a write.
pub proof fn lemma_groups_are_whole_writes(capacity: nat, writes: Seq<Seq<char>>)
    ensures
        feed(capacity, writes).0.flatten() + feed(capacity, writes).1 == writes,
        delivered(capacity, writes).len() == feed(capacity, writes).0.len(),
        forall|i: int|
            0 <= i < delivered(capacity, writes).len() ==> #[trigger] delivered(capacity, writes)[i]
                == feed(capacity, writes).0[i].flatten(),
    decreases writes.len(),
{
    if writes.len() > 0 {
        let init = writes.drop_last();
        let t = writes.last();
        assert(init.push(t) =~= writes);
        lemma_groups_are_whole_writes(capacity, init);
        let prev = feed(capacity, init);
        prev.0.lemma_flatten_push(prev.1);
        assert(prev.0.flatten() + prev.1.push(t) =~= (prev.0.flatten() + prev.1).push(t));
        assert(prev.0.flatten() + prev.1 + seq![t] =~= (prev.0.flatten() + prev.1).push(t));
    } else {
        assert(feed(capacity, writes).0.flatten() + feed(capacity, writes).1 =~= writes);
    }
}

/// Splitting is lossless and keeps order: the delivered chunks in call order,
/// followed by the pending text, are all written text.
pub proof fn lemma_delivery_lossless(capacity: nat, writes: Seq<Seq<char>>)
    ensures
        delivered(capacity, writes).flatten() + pending_after(capacity, writes)
            == writes.flatten(),
        finished(capacity, writes).flatten() == writes.flatten(),
{
    let groups = feed(capacity, writes).0;
    let rest = feed(capacity, writes).1;
    lemma_groups_are_whole_writes(capacity, writes);
    lemma_flatten_groups(groups);
    lemma_flatten_concat(groups.flatten(), rest);
    let d = delivered(capacity, writes);
    let p = pending_after(capacity, writes);
    d.lemma_flatten_push(p);
    if p.len() == 0 {
        assert(d.flatten() + p =~= d.flatten());
    }
}

/// The group of writes that comes after group `i`: the next flushed group,
/// or the pending writes after the last one.
pub open spec fn next_group(groups: Seq<Seq<Seq<char>>>, rest: Seq<Seq<char>>, i: int) -> Seq<
    Seq<char>,
> {
    if i + 1 < groups.len() {
        groups[i + 1]
    } else {
        rest
    }
}

#[verifier::opaque]
/// Within `g`, no write reached the capacity together with the writes before it.
pub open spec fn no_boundary_inside(capacity: nat, g: Seq<Seq<char>>) -> bool {
    forall|j: int|
        1 <= j < g.len() ==> byte_len(g.take(j).flatten()) + byte_len(#[trigger] g[j]) < capacity
}

/// What `lemma_flush_only_at_boundaries` states of one feed result.
pub open spec fn flushes_at_boundaries(
    capacity: nat,
    groups: Seq<Seq<Seq<char>>>,
    rest: Seq<Seq<char>>,
) -> bool {
    &&& no_boundary_inside(capacity, rest)
    &&& forall|i: int| 0 <= i < groups.len() ==> no_boundary_inside(capacity, #[trigger] groups[i])
    &&& forall|i: int|
        0 <= i < groups.len() ==> next_group(groups, rest, i).len() > 0 && byte_len(
            (#[trigger] groups[i]).flatten(),
        ) + byte_len(next_group(groups, rest, i)[0]) >= capacity
}

proof fn lemma_boundaries_after_flush(
    capacity: nat,
    groups: Seq<Seq<Seq<char>>>,
    rest: Seq<Seq<char>>,
    t: Seq<char>,
)
    requires
        flushes_at_boundaries(capacity, groups, rest),
        byte_len(rest.flatten()) + byte_len(t) >= capacity,
    ensures
        flushes_at_boundaries(capacity, groups.push(rest), seq![t]),
{
    let g2 = groups.push(rest);
    let r2 = seq![t];
    assert(no_boundary_inside(capacity, r2)) by {
        reveal(no_boundary_inside);
    }
    assert forall|i: int| 0 <= i < g2.len() implies no_boundary_inside(capacity, #[trigger] g2[i]) by {
        if i < groups.len() {
            assert(g2[i] == groups[i]);
        } else {
            assert(g2[i] == rest);
        }
    }
    assert forall|i: int|
        0 <= i < g2.len() implies next_group(g2, r2, i).len() > 0 && byte_len(
            (#[trigger] g2[i]).flatten(),
        ) + byte_len(next_group(g2, r2, i)[0]) >= capacity by {
        if i < groups.len() {
            assert(g2[i] == groups[i]);
            assert(next_group(g2, r2, i) == next_group(groups, rest, i));
        } else {
            assert(g2[i] == rest);
            assert(next_group(g2, r2, i) == r2);
            assert(r2[0] == t);
        }
    }
}

proof fn lemma_no_boundary_push(capacity: nat, rest: Seq<Seq<char>>, t: Seq<char>)
    requires
        no_boundary_inside(capacity, rest),
        byte_len(rest.flatten()) + byte_len(t) < capacity,
    ensures
        no_boundary_inside(capacity, rest.push(t)),
{
    reveal(no_boundary_inside);
    let r2 = rest.push(t);
    assert forall|j: int| 1 <= j < r2.len() implies byte_len(r2.take(j).flatten()) + byte_len(
        #[trigger] r2[j],
    ) < capacity by {
        if j < rest.len() {
            assert(r2.take(j) =~= rest.take(j));
            assert(r2[j] == rest[j]);
        } else {
            assert(r2.take(j) =~= rest);
        }
    }
}

proof fn lemma_boundary_kept_at(
    capacity: nat,
    groups: Seq<Seq<Seq<char>>>,
    rest: Seq<Seq<char>>,
    t: Seq<char>,
    i: int,
)
    requires
        0 <= i < groups.len(),
        rest.len() > 0,
        flushes_at_boundaries(capacity, groups, rest),
    ensures
        next_group(groups, rest.push(t), i).len() > 0,
        byte_len(groups[i].flatten()) + byte_len(next_group(groups, rest.push(t), i)[0])
            >= capacity,
{
    let g = groups[i];
    assert(next_group(groups, rest, i).len() > 0);
    if i + 1 >= groups.len() {
        assert(rest.push(t)[0] == rest[0]);
    }
}

proof fn lemma_boundaries_after_append(
    capacity: nat,
    groups: Seq<Seq<Seq<char>>>,
    rest: Seq<Seq<char>>,
    t: Seq<char>,
)
    requires
        flushes_at_boundaries(capacity, groups, rest),
        groups.len() > 0 ==> rest.len() > 0,
        byte_len(rest.flatten()) + byte_len(t) < capacity,
    ensures
        flushes_at_boundaries(capacity, groups, rest.push(t)),
{
    let r2 = rest.push(t);
    lemma_no_boundary_push(capacity, rest, t);
    assert forall|i: int| 0 <= i < groups.len() implies next_group(groups, r2, i).len() > 0
        && byte_len((#[trigger] groups[i]).flatten()) + byte_len(next_group(groups, r2, i)[0])
        >= capacity by {
        lemma_boundary_kept_at(capacity, groups, rest, t, i);
    }
}

/// The sink flushes exactly at buffer-full boundaries: each flushed group,
/// together with the first write after it, reaches the capacity, and inside
/// a group (flushed or pending) no write did.
pub proof fn lemma_flush_only_at_boundaries(capacity: nat, writes: Seq<Seq<char>>)
    ensures
        writes.len() > 0 ==> feed(capacity, writes).1.len() > 0,
        flushes_at_boundaries(capacity, feed(capacity, writes).0, feed(capacity, writes).1),
    decreases writes.len(),
{
    if writes.len() > 0 {
        let init = writes.drop_last();
        let t = writes.last();
        assert(init.push(t) =~= writes);
        lemma_flush_only_at_boundaries(capacity, init);
        let (groups, rest) = feed(capacity, init);
        if byte_len(rest.flatten()) + byte_len(t) >= capacity {
            lemma_boundaries_after_flush(capacity, groups, rest, t);
        } else {
            assert(groups.len() > 0 ==> init.len() > 0);
            lemma_boundaries_after_append(capacity, groups, rest, t);
        }
    } else {
        assert(feed(capacity, writes).1 =~= Seq::<Seq<char>>::empty());
        reveal(no_boundary_inside);
    }
}

/// When no single write exceeds the capacity, no delivered chunk does, and
/// neither does the pending text.
pub proof fn lemma_chunks_bounded(capacity: nat, writes: Seq<Seq<char>>)
    requires
        forall|i: int| 0 <= i < writes.len() ==> byte_len(#[trigger] writes[i]) <= capacity,
    ensures
        forall|i: int|
            0 <= i < delivered(capacity, writes).len() ==> byte_len(
                #[trigger] delivered(capacity, writes)[i],
            ) <= capacity,
        byte_len(pending_after(capacity, writes)) <= capacity,
        forall|i: int|
            0 <= i < finished(capacity, writes).len() ==> byte_len(
                #[trigger] finished(capacity, writes)[i],
            ) <= capacity,
    decreases writes.len(),
{
    if writes.len() == 0 {
        assert(pending_after(capacity, writes) =~= Seq::<char>::empty());
        assert(delivered(capacity, writes) =~= Seq::<Seq<char>>::empty());
    } else {
        let init = writes.drop_last();
        let t = writes.last();
        assert(init.push(t) =~= writes);
        assert(forall|i: int| 0 <= i < init.len() ==> init[i] == writes[i]);
        lemma_chunks_bounded(capacity, init);
        lemma_feed_matches_write(capacity, init, t);
        let p = pending_after(capacity, init);
        lemma_byte_len_concat(p, t);
        assert(byte_len(t) <= capacity);
        let d0 = delivered(capacity, init);
        let d = delivered(capacity, writes);
        assert forall|i: int| 0 <= i < d.len() implies byte_len(#[trigger] d[i]) <= capacity by {
            if i < d0.len() {
                assert(d[i] == d0[i]);
            }
        }
    }
    let d = delivered(capacity, writes);
    let fin = finished(capacity, writes);
    assert forall|i: int| 0 <= i < fin.len() implies byte_len(#[trigger] fin[i]) <= capacity by {
        if i < d.len() {
            assert(fin[i] == d[i]);
        }
    }
}

} // verus!
