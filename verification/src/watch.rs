//! A bounded history of observed keys.
//!
//! A [`LowBullWatcher`] is made with a fixed capacity and remembers the most
//! recent `capacity` keys handed to [`LowBullWatcher::watch`], oldest first,
//! each with the instant at which it was recorded. Once it is full, every
//! new observation evicts the oldest one. Storage is a ring: recording is
//! constant time whatever the capacity.
//!
//! A watcher of capacity zero is an inert sink: it accepts every observation
//! and remembers none.

use std::time::Instant;
use vstd::prelude::*;

verus! {

/// `std::time::Instant`, carried through as an opaque value.
#[verifier::external_type_specification]
#[verifier::external_body]
pub struct ExInstant(Instant);

/// Reads the clock through `std::time::Instant::now`.
///
/// Nothing is claimed of the instant returned: it depends on when the call
/// is made.
#[verifier::external_body]
fn current_instant() -> Instant {
    Instant::now()
}

/// The last `n` items of `s`, in order; all of `s` if it has no more than `n`.
pub open spec fn newest<T>(s: Seq<T>, n: nat) -> Seq<T> {
    if s.len() <= n {
        s
    } else {
        s.subrange(s.len() - n, s.len() as int)
    }
}

/// What a history bounded by `cap` holds after `items` were recorded one by
/// one, in order, on top of `start`.
pub open spec fn recorded<T>(start: Seq<T>, items: Seq<T>, cap: nat) -> Seq<T>
    decreases items.len(),
{
    if items.len() == 0 {
        start
    } else {
        newest(recorded(start, items.drop_last(), cap).push(items.last()), cap)
    }
}

/// The slot of a ring of `len` slots that lies `offset` places after `head`.
pub open spec fn ring_slot(head: int, offset: int, len: int) -> int {
    if head + offset < len {
        head + offset
    } else {
        head + offset - len
    }
}

/// Taking the newest `n` pairs and then their keys is taking the keys and
/// then the newest `n` of them.
pub proof fn lemma_newest_of_keys<K, T>(s: Seq<(K, T)>, n: nat)
    ensures
        newest(s, n).map_values(|e: (K, T)| e.0) == newest(s.map_values(|e: (K, T)| e.0), n),
{
    assert(newest(s, n).map_values(|e: (K, T)| e.0) =~= newest(
        s.map_values(|e: (K, T)| e.0),
        n,
    ));
}

/// A bounded history keeps the order of what it remembers: the item at
/// place `i` of `newest(s, n)` is the one that stood `i` places after the
/// first survivor in `s`.
pub proof fn lemma_newest_keeps_order<T>(s: Seq<T>, n: nat)
    ensures
        newest(s, n).len() == if s.len() <= n {
            s.len()
        } else {
            n
        },
        forall|i: int|
            0 <= i < newest(s, n).len() ==> #[trigger] newest(s, n)[i] == s[s.len() - newest(
                s,
                n,
            ).len() + i],
{
}

/// Recording `items` one by one on top of a history that fits its bound
/// leaves the newest `cap` of everything seen, oldest first.
pub proof fn lemma_recorded_is_newest<T>(start: Seq<T>, items: Seq<T>, cap: nat)
    requires
        start.len() <= cap,
    ensures
        recorded(start, items, cap) == newest(start + items, cap),
    decreases items.len(),
{
    if items.len() == 0 {
        assert(start + items =~= start);
    } else {
        let earlier = items.drop_last();
        lemma_recorded_is_newest(start, earlier, cap);
        assert(start + items =~= (start + earlier).push(items.last()));
        assert(newest(newest(start + earlier, cap).push(items.last()), cap) =~= newest(
            (start + earlier).push(items.last()),
            cap,
        ));
    }
}

/// A fresh history of capacity `cap` on which `items` were recorded holds
/// all of them, in call order, if there are at most `cap`; otherwise exactly
/// the last `cap` of them, oldest first.
pub proof fn lemma_fresh_history<T>(items: Seq<T>, cap: nat)
    ensures
        recorded(Seq::empty(), items, cap) == newest(items, cap),
        items.len() <= cap ==> recorded(Seq::empty(), items, cap) == items,
        items.len() > cap ==> recorded(Seq::empty(), items, cap) == items.subrange(
            items.len() - cap,
            items.len() as int,
        ),
        recorded(Seq::empty(), items, cap).len() == if items.len() <= cap {
            items.len()
        } else {
            cap
        },
{
    lemma_recorded_is_newest(Seq::empty(), items, cap);
    assert(Seq::<T>::empty() + items =~= items);
}

/// An observed key together with the instant at which it was recorded.
#[derive(Debug)]
pub struct WatchEntry<K> {
    key: K,
    time: Instant,
}

impl<K> View for WatchEntry<K> {
    type V = (K, Instant);

    closed spec fn view(&self) -> (K, Instant) {
        (self.key, self.time)
    }
}

impl<K: Clone> Clone for WatchEntry<K> {
    /// A copy that carries a clone of the key and the same instant.
    fn clone(&self) -> (copy: Self)
        ensures
            cloned(self@.0, copy@.0),
            copy@.1 == self@.1,
    {
        WatchEntry { key: self.key.clone(), time: self.time }
    }
}

impl<K> WatchEntry<K> {
    /// Pairs `key` with the current instant.
    pub fn new(key: K) -> (entry: Self)
        ensures
            entry@.0 == key,
    {
        Self::at(key, current_instant())
    }

    /// Pairs `key` with the given instant.
    pub fn at(key: K, time: Instant) -> (entry: Self)
        ensures
            entry@ == (key, time),
    {
        WatchEntry { key, time }
    }

    /// The observed key.
    pub fn key(&self) -> (key: &K)
        ensures
            *key == self@.0,
    {
        &self.key
    }

    /// The instant at which the key was recorded.
    pub fn time(&self) -> (time: Instant)
        ensures
            time == self@.1,
    {
        self.time
    }
}

/// A fixed-capacity record of the most recently observed keys.
///
/// Its view is the sequence of remembered `(key, instant)` pairs, oldest
/// first and newest last; it is never longer than the capacity.
pub struct LowBullWatcher<K> {
    capacity: usize,
    /// The slot that holds the oldest entry.
    head: usize,
    slots: Vec<WatchEntry<K>>,
}

impl<K> View for LowBullWatcher<K> {
    type V = Seq<(K, Instant)>;

    closed spec fn view(&self) -> Seq<(K, Instant)> {
        Seq::new(
            self.slots.len() as nat,
            |i: int| self.slots[ring_slot(self.head as int, i, self.slots.len() as int)]@,
        )
    }
}

impl<K> LowBullWatcher<K> {
    #[verifier::type_invariant]
    spec fn well_formed(self) -> bool {
        &&& self.slots.len() <= self.capacity
        &&& self.slots.len() < self.capacity ==> self.head == 0
        &&& self.head == 0 || self.head < self.slots.len()
    }

    /// The number of entries the history can hold.
    pub closed spec fn spec_capacity(&self) -> nat {
        self.capacity as nat
    }

    /// The remembered keys, oldest first.
    pub open spec fn keys(&self) -> Seq<K> {
        self@.map_values(|e: (K, Instant)| e.0)
    }

    /// The number of remembered entries.
    pub fn len(&self) -> (len: usize)
        ensures
            len == self@.len(),
            len <= self.spec_capacity(),
    {
        proof {
            use_type_invariant(self);
        }
        self.slots.len()
    }

    /// The number of entries the history can hold.
    pub fn capacity(&self) -> (capacity: usize)
        ensures
            capacity == self.spec_capacity(),
    {
        self.capacity
    }

    /// The remembered entries, oldest first and newest last.
    pub fn history(&self) -> (entries: Vec<&WatchEntry<K>>)
        ensures
            entries@.len() == self@.len(),
            forall|i: int| 0 <= i < entries@.len() ==> (#[trigger] entries@[i])@ == self@[i],
    {
        proof {
            use_type_invariant(self);
        }
        let len: usize = self.slots.len();
        let tail: usize = len - self.head;
        let mut entries: Vec<&WatchEntry<K>> = Vec::with_capacity(len);
        let mut i: usize = 0;
        while i < len
            invariant
                len == self.slots.len(),
                self.head <= len,
                tail == len - self.head,
                i <= len,
                entries@.len() == i,
                forall|j: int| 0 <= j < i ==> (#[trigger] entries@[j])@ == self@[j],
            decreases len - i,
        {
            let slot: usize = if i < tail {
                self.head + i
            } else {
                i - tail
            };
            entries.push(&self.slots[slot]);
            i += 1;
        }
        entries
    }

    /// An empty history that remembers up to `history_size` entries.
    ///
    /// Every size is accepted. With a size of zero the history stays empty
    /// whatever is recorded.
    pub fn new(history_size: usize) -> (watcher: Self)
        ensures
            watcher@ == Seq::<(K, Instant)>::empty(),
            watcher.spec_capacity() == history_size,
    {
        LowBullWatcher { capacity: history_size, head: 0, slots: Vec::new() }
    }

    /// Records `key` with the current instant, evicting the oldest entry if
    /// the history is full.
    pub fn watch(&mut self, key: K)
        ensures
            final(self).spec_capacity() == old(self).spec_capacity(),
            final(self).keys() == newest(old(self).keys().push(key), old(self).spec_capacity()),
            exists|time: Instant|
                final(self)@ == newest(
                    old(self)@.push((key, time)),
                    old(self).spec_capacity(),
                ),
    {
        let entry = WatchEntry::new(key);
        self.record(entry);
        assert(self@ == newest(old(self)@.push((key, entry@.1)), old(self).spec_capacity()));
    }

    /// Records `entry` as the newest one, evicting the oldest entry if the
    /// history is full.
    pub fn record(&mut self, entry: WatchEntry<K>)
        ensures
            final(self).spec_capacity() == old(self).spec_capacity(),
            final(self)@ == newest(old(self)@.push(entry@), old(self).spec_capacity()),
            final(self).keys() == newest(
                old(self).keys().push(entry@.0),
                old(self).spec_capacity(),
            ),
    {
        proof {
            use_type_invariant(&*self);
            lemma_newest_of_keys(old(self)@.push(entry@), old(self).spec_capacity());
            assert(old(self)@.push(entry@).map_values(|e: (K, Instant)| e.0) =~= old(
                self,
            ).keys().push(entry@.0));
        }
        if self.capacity == 0 {
            return ;
        }
        let ghost before = self@;
        let head: usize = self.head;
        let mut slots: Vec<WatchEntry<K>> = Vec::new();
        self.head = 0;
        std::mem::swap(&mut slots, &mut self.slots);
        if slots.len() < self.capacity {
            slots.push(entry);
            self.slots = slots;
            assert(self@ =~= before.push(entry@));
        } else {
            slots.set(head, entry);
            self.slots = slots;
            self.head = if head + 1 == self.capacity {
                0
            } else {
                head + 1
            };
            assert(self@ =~= before.push(entry@).subrange(1, before.len() as int + 1));
        }
    }
}

} // verus!
