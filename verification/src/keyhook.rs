//! The bounded key history and the backspace-classification heuristic.
//!
//! Every key-down that the caller captures becomes a [`Key`]; a
//! [`KeyHistory`] stores the most recent keys in a FIFO window and keeps a
//! counter of the stored backspaces that were classified as corrections of
//! earlier input.

use vstd::prelude::*;

use std::collections::VecDeque;

use crate::setting::MisstypeConfig;

verus! {

/// Virtual key code of the backspace key.
pub const VK_BACK: u32 = 0x08;

/// Virtual key code of the enter key, which confirms an input-method composition.
pub const VK_RETURN: u32 = 0x0D;

/// Virtual key code of the left arrow key.
pub const VK_LEFT: u32 = 0x25;

/// Virtual key code of the up arrow key.
pub const VK_UP: u32 = 0x26;

/// Virtual key code of the right arrow key.
pub const VK_RIGHT: u32 = 0x27;

/// Virtual key code of the down arrow key.
pub const VK_DOWN: u32 = 0x28;

/// One captured key-down: the virtual key code, and whether an input-method
/// composition was in progress when the key went down.
#[derive(Clone, Copy, Debug, PartialEq, Eq, Structural)]
pub struct Key {
    pub code: u32,
    pub ime_composition: bool,
}

impl Key {
    pub fn new(code: u32, ime_composition: bool) -> (k: Self)
        ensures
            k.code == code,
            k.ime_composition == ime_composition,
    {
        Self { code, ime_composition }
    }
}

/// Whether a key is the backspace key.
pub open spec fn is_backspace(k: Key) -> bool {
    k.code == VK_BACK
}

/// Whether a key is one of the four arrow keys.
pub open spec fn is_arrow(k: Key) -> bool {
    k.code == VK_UP || k.code == VK_DOWN || k.code == VK_LEFT || k.code == VK_RIGHT
}

/// How many stored keys are backspaces. Because only backspaces that were
/// classified as corrections are ever stored, this is exactly the mistake
/// counter of a well-formed history.
pub open spec fn backspace_count(s: Seq<Key>) -> nat
    decreases s.len(),
{
    if s.len() == 0 {
        0
    } else {
        (if is_backspace(s[0]) {
            1nat
        } else {
            0nat
        }) + backspace_count(s.skip(1))
    }
}

/// The window after evicting from the front until at most `cap` keys remain.
pub open spec fn shrunk(s: Seq<Key>, cap: nat) -> Seq<Key> {
    if s.len() <= cap {
        s
    } else {
        s.skip(s.len() - cap)
    }
}

/// The window after storing `k` in a window of capacity `cap`: first evict
/// from the front until there is room, then append.
pub open spec fn after_insert(s: Seq<Key>, cap: nat, k: Key) -> Seq<Key>
    recommends
        cap >= 1,
{
    shrunk(s, (cap - 1) as nat).push(k)
}

/// Whether key `k` arriving after window `s` is dropped entirely: only a
/// backspace is ever dropped, either because its predecessor is also a
/// backspace (a continuation of an already-counted correction) or because
/// its predecessor is an arrow key and the configuration says such a
/// backspace does not count.
pub open spec fn suppresses(s: Seq<Key>, k: Key, afterallow: bool) -> bool {
    &&& is_backspace(k)
    &&& s.len() >= 1
    &&& (is_backspace(s.last()) || (is_arrow(s.last()) && !afterallow))
}

/// Whether key `k` arriving after window `s` is stored and counted as a
/// mistake correction: exactly the backspaces that are not suppressed.
pub open spec fn counted_as_mistake(s: Seq<Key>, k: Key, afterallow: bool) -> bool {
    is_backspace(k) && !suppresses(s, k, afterallow)
}

/// The window after one key is classified: unchanged for a suppressed
/// backspace, otherwise the key is stored with eviction.
pub open spec fn step(s: Seq<Key>, cap: nat, k: Key, afterallow: bool) -> Seq<Key>
    recommends
        cap >= 1,
{
    if suppresses(s, k, afterallow) {
        s
    } else {
        after_insert(s, cap, k)
    }
}

proof fn lemma_backspace_count_le_len(s: Seq<Key>)
    ensures
        backspace_count(s) <= s.len(),
    decreases s.len(),
{
    if s.len() > 0 {
        lemma_backspace_count_le_len(s.skip(1));
    }
}

proof fn lemma_backspace_count_push(s: Seq<Key>, k: Key)
    ensures
        backspace_count(s.push(k)) == backspace_count(s) + (if is_backspace(k) {
            1nat
        } else {
            0nat
        }),
    decreases s.len(),
{
    if s.len() == 0 {
        assert(s.push(k)[0] == k);
        assert(s.push(k).skip(1) =~= Seq::<Key>::empty());
        assert(backspace_count(s.push(k)) == (if is_backspace(k) {
            1nat
        } else {
            0nat
        }) + backspace_count(s.push(k).skip(1)));
    } else {
        assert(s.push(k)[0] == s[0]);
        assert(s.push(k).skip(1) =~= s.skip(1).push(k));
        lemma_backspace_count_push(s.skip(1), k);
        assert(backspace_count(s.push(k)) == (if is_backspace(s[0]) {
            1nat
        } else {
            0nat
        }) + backspace_count(s.skip(1).push(k)));
        assert(backspace_count(s) == (if is_backspace(s[0]) {
            1nat
        } else {
            0nat
        }) + backspace_count(s.skip(1)));
    }
}

proof fn lemma_backspace_count_split(s: Seq<Key>, k: int)
    requires
        0 <= k <= s.len(),
    ensures
        backspace_count(s) == backspace_count(s.take(k)) + backspace_count(s.skip(k)),
    decreases k,
{
    if k == 0 {
        assert(s.take(0) =~= Seq::<Key>::empty());
        assert(s.skip(0) =~= s);
    } else {
        lemma_backspace_count_split(s.skip(1), k - 1);
        assert(s.skip(1).take(k - 1) =~= s.take(k).skip(1));
        assert(s.skip(1).skip(k - 1) =~= s.skip(k));
        assert(s.take(k)[0] == s[0]);
    }
}

/// The key history: a FIFO window of the most recent keys, bounded by a
/// capacity, together with the derived mistake counter.
pub struct KeyHistory {
    max_history_size: usize,
    misstype_cnt: usize,
    history: VecDeque<Key>,
}

impl KeyHistory {
    /// The capacity: how many keys the window may hold.
    pub closed spec fn capacity(&self) -> nat {
        self.max_history_size as nat
    }

    /// The stored keys, oldest first.
    pub closed spec fn keys(&self) -> Seq<Key> {
        self.history@
    }

    /// The mistake counter.
    pub closed spec fn count(&self) -> nat {
        self.misstype_cnt as nat
    }

    /// A well-formed history: the capacity is positive, the window fits in
    /// it, and the counter equals the number of stored backspaces.
    pub open spec fn wf(&self) -> bool {
        &&& self.capacity() >= 1
        &&& self.keys().len() <= self.capacity()
        &&& self.count() == backspace_count(self.keys())
    }

    pub fn new(max_history_size: usize) -> (h: Self)
        requires
            max_history_size >= 1,
        ensures
            h.wf(),
            h.capacity() == max_history_size,
            h.keys() == Seq::<Key>::empty(),
            h.count() == 0,
    {
        Self {
            max_history_size,
            misstype_cnt: 0,
            history: VecDeque::with_capacity(max_history_size),
        }
    }

    /// Empties the window and zeroes the counter.
    pub fn clear(&mut self)
        ensures
            final(self).capacity() == old(self).capacity(),
            final(self).keys() == Seq::<Key>::empty(),
            final(self).count() == 0,
            old(self).wf() ==> final(self).wf(),
    {
        self.history.clear();
        self.misstype_cnt = 0;
    }

    /// The current mistake counter.
    pub fn get_recent_mistype_cnt(&self) -> (cnt: usize)
        ensures
            cnt == self.count(),
    {
        self.misstype_cnt
    }

    /// How many keys the window currently holds.
    pub fn len(&self) -> (n: usize)
        ensures
            n == self.keys().len(),
    {
        self.history.len()
    }

    /// The stored key at `index`, oldest first, or `None` past the end.
    pub fn get(&self, index: usize) -> (k: Option<Key>)
        ensures
            k == (if index < self.keys().len() {
                Some(self.keys()[index as int])
            } else {
                None::<Key>
            }),
    {
        if index < self.history.len() {
            Some(self.history[index])
        } else {
            None
        }
    }

    /// Evicts from the front until at most `bound` keys remain; every
    /// evicted backspace comes off the counter.
    fn evict_front_to(&mut self, bound: usize)
        requires
            old(self).count() == backspace_count(old(self).keys()),
        ensures
            final(self).capacity() == old(self).capacity(),
            final(self).keys() == shrunk(old(self).keys(), bound as nat),
            final(self).count() == backspace_count(final(self).keys()),
    {
        let ghost s0 = self.history@;
        while self.history.len() > bound
            invariant
                self.max_history_size == old(self).max_history_size,
                self.misstype_cnt == backspace_count(self.history@),
                self.history@.len() <= s0.len(),
                self.history@ == s0.skip(s0.len() - self.history@.len()),
                self.history@.len() >= bound || self.history@ == s0,
            decreases self.history@.len(),
        {
            let ghost cur = self.history@;
            let oldest = self.history.pop_front();
            proof {
                assert(cur.len() > 0);
                assert(self.history@ =~= cur.skip(1));
                assert(s0.skip(s0.len() - cur.len()).skip(1) =~= s0.skip(
                    s0.len() - self.history@.len(),
                ));
            }
            if let Some(old_key) = oldest {
                proof {
                    assert(backspace_count(cur) == (if is_backspace(cur[0]) {
                        1nat
                    } else {
                        0nat
                    }) + backspace_count(cur.skip(1)));
                }
                if old_key.code == VK_BACK && self.misstype_cnt > 0 {
                    self.misstype_cnt = self.misstype_cnt - 1;
                }
            }
        }
        proof {
            assert(final(self).keys() =~= shrunk(s0, bound as nat));
        }
    }

    /// Stores one key: evicts from the front while the window is full, then
    /// appends. The counter is adjusted only for the evicted backspaces; a
    /// stored backspace is counted by the caller.
    fn add_key(&mut self, key: &Key)
        requires
            old(self).wf(),
        ensures
            final(self).capacity() == old(self).capacity(),
            final(self).keys() == after_insert(old(self).keys(), old(self).capacity(), *key),
            final(self).count() + (if is_backspace(*key) {
                1nat
            } else {
                0nat
            }) == backspace_count(final(self).keys()),
            final(self).keys().len() <= final(self).capacity(),
    {
        let room = self.max_history_size - 1;
        self.evict_front_to(room);
        proof {
            lemma_backspace_count_push(self.history@, *key);
        }
        self.history.push_back(*key);
    }

    /// Stores a backspace that was classified as a mistake correction and
    /// counts it.
    fn insert_counted(&mut self, key: &Key)
        requires
            old(self).wf(),
            is_backspace(*key),
        ensures
            final(self).wf(),
            final(self).capacity() == old(self).capacity(),
            final(self).keys() == after_insert(old(self).keys(), old(self).capacity(), *key),
    {
        self.add_key(key);
        proof {
            lemma_backspace_count_le_len(self.history@);
        }
        self.misstype_cnt = self.misstype_cnt + 1;
    }

    /// Changes the capacity. When it shrinks below the current length, the
    /// oldest keys are evicted at once, and every evicted backspace comes
    /// off the counter.
    pub fn change_max_history_size(&mut self, max_history_size: usize)
        requires
            old(self).wf(),
            max_history_size >= 1,
        ensures
            final(self).wf(),
            final(self).capacity() == max_history_size,
            final(self).keys() == shrunk(old(self).keys(), max_history_size as nat),
            final(self).count() + backspace_count(
                old(self).keys().take(old(self).keys().len() - final(self).keys().len()),
            ) == old(self).count(),
    {
        self.max_history_size = max_history_size;
        self.evict_front_to(max_history_size);
        proof {
            lemma_shrink_adjusts_count(old(self).keys(), max_history_size as nat);
        }
    }

    /// Classifies one captured key and updates the window and the counter.
    ///
    /// A key other than backspace is stored unconditionally. A backspace is
    /// classified by its predecessor: after another backspace it is dropped
    /// as a continuation of an already-counted correction; after an arrow
    /// key it is stored and counted only when the configuration says so;
    /// after a key that confirmed an input-method composition, after any
    /// other key, or into an empty window, it is stored and counted as an
    /// ordinary correction.
    pub fn regist_key(&mut self, input_key: &Key, config: &MisstypeConfig)
        requires
            old(self).wf(),
        ensures
            final(self).wf(),
            final(self).capacity() == old(self).capacity(),
            final(self).keys() == step(
                old(self).keys(),
                old(self).capacity(),
                *input_key,
                config.afterallow(),
            ),
            old(self).keys().len() < old(self).capacity() ==> final(self).count() == old(
                self,
            ).count() + (if counted_as_mistake(
                old(self).keys(),
                *input_key,
                config.afterallow(),
            ) {
                1nat
            } else {
                0nat
            }),
    {
        proof {
            if old(self).keys().len() < old(self).capacity() && !suppresses(
                old(self).keys(),
                *input_key,
                config.afterallow(),
            ) {
                assert(shrunk(old(self).keys(), (old(self).capacity() - 1) as nat) == old(
                    self,
                ).keys());
                lemma_backspace_count_push(old(self).keys(), *input_key);
            }
        }
        let len = self.history.len();
        let prev: Option<Key> = if len >= 1 {
            Some(self.history[len - 1])
        } else {
            None
        };
        let prev_prev: Option<Key> = if len >= 2 {
            Some(self.history[len - 2])
        } else {
            None
        };

        if input_key.code == VK_BACK {
            match prev {
                None => {
                    // no previous key: an ordinary correction
                    self.insert_counted(input_key);
                },
                Some(p1) => {
                    if p1.code == VK_BACK {
                        // a continuation of an already-counted correction:
                        // neither stored nor counted
                    } else if p1.code == VK_RETURN && (match prev_prev {
                        Some(p2) => p2.ime_composition,
                        None => false,
                    }) {
                        // a composition was confirmed and then undone
                        self.insert_counted(input_key);
                    } else if p1.code == VK_UP || p1.code == VK_DOWN || p1.code == VK_LEFT
                        || p1.code == VK_RIGHT {
                        // navigation then delete: gated by configuration
                        if config.get_afterallow() {
                            self.insert_counted(input_key);
                        }
                    } else {
                        // an ordinary correction
                        self.insert_counted(input_key);
                    }
                },
            }
        } else {
            self.add_key(input_key);
            proof {
                lemma_backspace_count_push(
                    shrunk(old(self).keys(), (old(self).capacity() - 1) as nat),
                    *input_key,
                );
            }
        }
    }
}

/// For every well-formed history state, the mistake counter is bounded by
/// the number of stored keys, which is bounded by the capacity.
pub proof fn lemma_history_invariant(h: KeyHistory)
    requires
        h.wf(),
    ensures
        h.count() <= h.keys().len() <= h.capacity(),
{
    lemma_backspace_count_le_len(h.keys());
}

/// Two backspaces in a row with no key between them: the second one changes
/// nothing (it is neither stored nor counted), and over the pair the number
/// of counted backspaces rises by at most one.
pub proof fn lemma_consecutive_backspaces(s: Seq<Key>, cap: nat, k1: Key, k2: Key, afterallow: bool)
    requires
        cap >= 1,
        is_backspace(k1),
        is_backspace(k2),
    ensures
        step(step(s, cap, k1, afterallow), cap, k2, afterallow) == step(s, cap, k1, afterallow),
        backspace_count(step(step(s, cap, k1, afterallow), cap, k2, afterallow)) <= backspace_count(
            s,
        ) + 1,
{
    let s1 = step(s, cap, k1, afterallow);
    if suppresses(s, k1, afterallow) {
        assert(s1 == s);
        assert(suppresses(s1, k2, afterallow));
    } else {
        let room = shrunk(s, (cap - 1) as nat);
        assert(s1 == room.push(k1));
        assert(s1.last() == k1);
        assert(suppresses(s1, k2, afterallow));
        lemma_backspace_count_push(room, k1);
        lemma_backspace_count_shrunk_le(s, (cap - 1) as nat);
    }
}

/// Evicting down to `cap` keys takes exactly the evicted backspaces out of
/// the count: the count of the whole window splits into the count of the
/// evicted prefix and the count of what remains.
pub proof fn lemma_shrink_adjusts_count(s: Seq<Key>, cap: nat)
    ensures
        backspace_count(s) == backspace_count(s.take(s.len() - shrunk(s, cap).len()))
            + backspace_count(shrunk(s, cap)),
{
    lemma_backspace_count_split(s, s.len() - shrunk(s, cap).len());
    assert(s.skip(s.len() - shrunk(s, cap).len()) =~= shrunk(s, cap));
}

/// What remains after an eviction never counts more backspaces than the
/// whole window did.
pub proof fn lemma_backspace_count_shrunk_le(s: Seq<Key>, cap: nat)
    ensures
        backspace_count(shrunk(s, cap)) <= backspace_count(s),
{
    lemma_shrink_adjusts_count(s, cap);
}

} // verus!
