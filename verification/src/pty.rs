//! The byte side of a process on a pseudo-terminal: the bounded scrollback, the
//! subscribers its output fans out to, and what an exit means.

use std::collections::VecDeque;

use vstd::prelude::*;

use crate::list;

verus! {

/// The scrollback of one process, oldest byte first.
pub type Ring = VecDeque<u8>;

/// What a process is started with.
pub struct PtySpawn {
    pub program: String,
    pub args: Vec<String>,
    pub cwd: String,
    /// Bytes that stand in the scrollback before the process writes anything.
    pub seed_bytes: Vec<u8>,
    pub ring_capacity: usize,
    /// Tells a true exit apart from a client that merely detached.
    pub tmux_session_name: String,
    pub tmux_bin: String,
}

/// One consumer of live output.
pub struct Subscriber<T> {
    pub id: u32,
    pub sink: T,
}

/// The last `n` bytes, or all of them where there are fewer.
pub open spec fn tail(s: Seq<u8>, n: int) -> Seq<u8> {
    if s.len() <= n {
        s
    } else {
        s.skip(s.len() - n)
    }
}

/// Append `data` to the ring, evicting from the front to stay within `capacity`.
/// A write larger than the whole ring keeps only its tail.
pub fn append_to_ring(ring: &mut Ring, data: &[u8], capacity: usize)
    ensures
        final(ring)@ == tail(old(ring)@ + data@, capacity as int),
{
    let ghost before = ring@;
    let n: usize = data.len();
    let mut from: usize = 0;
    if n >= capacity {
        ring.clear();
        from = n - capacity;
        assert(ring@ =~= seq![]);
    } else {
        let room: usize = capacity - n;
        let ghost mut gone: int = 0;
        while ring.len() > room
            invariant
                0 <= gone <= before.len(),
                ring@ == before.skip(gone),
                gone > 0 ==> ring.len() >= room,
            decreases ring.len(),
        {
            ring.pop_front();
            proof {
                gone = gone + 1;
                assert(ring@ =~= before.skip(gone));
            }
        }
        assert(ring@ =~= tail(before, room as int));
    }
    let ghost kept = ring@;
    let mut i: usize = from;
    while i < n
        invariant
            from <= i <= n == data.len(),
            ring@ == kept + data@.subrange(from as int, i as int),
        decreases n - i,
    {
        ring.push_back(data[i]);
        i = i + 1;
        assert(ring@ =~= kept + data@.subrange(from as int, i as int));
    }
    assert(ring@ =~= tail(before + data@, capacity as int));
}

/// A ring never outgrows its capacity, and what was written last is what it
/// holds.
pub proof fn ring_keeps_the_newest_bytes(before: Seq<u8>, data: Seq<u8>, capacity: int)
    requires
        0 <= capacity,
    ensures
        tail(before + data, capacity).len() <= capacity,
        tail(before + data, capacity).is_suffix_of(before + data),
        data.len() <= capacity ==> data.is_suffix_of(tail(before + data, capacity)),
        before.len() + data.len() <= capacity ==> tail(before + data, capacity) == before + data,
{
    let all = before + data;
    let t = tail(all, capacity);
    assert(t =~= all.subrange(all.len() - t.len(), all.len() as int));
    if data.len() <= capacity {
        assert(data =~= t.subrange(t.len() - data.len(), t.len() as int));
    }
}

/// Writing in two goes leaves what writing in one leaves.
pub proof fn ring_writes_compose(before: Seq<u8>, a: Seq<u8>, b: Seq<u8>, capacity: int)
    requires
        0 <= capacity,
    ensures
        tail(tail(before + a, capacity) + b, capacity) == tail(before + (a + b), capacity),
{
    assert(tail(tail(before + a, capacity) + b, capacity) =~= tail(before + (a + b), capacity));
}

/// Drop the subscriber with the given id. Others keep their order.
pub fn remove_subscriber<T>(subs: &mut Vec<Subscriber<T>>, channel_id: u32)
    ensures
        final(subs)@ == old(subs)@.filter(|s: Subscriber<T>| s.id != channel_id),
{
    let differs = |s: &Subscriber<T>| -> (b: bool)
        ensures
            b == (s.id != channel_id),
        { s.id != channel_id };
    list::keep(subs, differs, Ghost(|s: Subscriber<T>| s.id != channel_id));
}

} // verus!
