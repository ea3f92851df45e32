//! Round-robin rotation over a pool of credential strings.
//!
//! A provider owns one `KeyPool`; every attempt draws the key under the
//! cursor and advances the cursor by one, modulo the pool size, so that
//! successive attempts cycle through all keys fairly. Keys are never removed
//! at runtime: skipping a key is the caller's business, done by not asking
//! again.

use vstd::prelude::*;

verus! {

/// An ordered pool of credential strings with a rotation cursor.
pub struct KeyPool {
    keys: Vec<String>,
    cursor: usize,
}

impl KeyPool {
    /// The cursor always points at a valid key, or at 0 when there are none.
    pub closed spec fn wf(self) -> bool {
        if self.keys@.len() == 0 {
            self.cursor == 0
        } else {
            self.cursor < self.keys@.len()
        }
    }

    pub closed spec fn spec_keys(self) -> Seq<Seq<char>> {
        self.keys@.map_values(|k: String| k@)
    }

    pub closed spec fn spec_cursor(self) -> int {
        self.cursor as int
    }

    pub fn new(keys: Vec<String>) -> (pool: KeyPool)
        ensures
            pool.wf(),
            pool.spec_keys() == keys@.map_values(|k: String| k@),
            pool.spec_cursor() == 0,
    {
        KeyPool { keys, cursor: 0 }
    }

    pub fn is_empty(&self) -> (r: bool)
        ensures
            r == (self.spec_keys().len() == 0),
    {
        self.keys.len() == 0
    }

    pub fn len(&self) -> (n: usize)
        ensures
            n == self.spec_keys().len(),
    {
        self.keys.len()
    }

    /// Draw the key under the cursor and advance the cursor by one, modulo
    /// the pool size. Returns `None` only when the pool is empty.
    pub fn next_key(&mut self) -> (r: Option<String>)
        requires
            old(self).wf(),
        ensures
            final(self).wf(),
            final(self).spec_keys() == old(self).spec_keys(),
            old(self).spec_keys().len() == 0 ==> r is None && *final(self) == *old(self),
            old(self).spec_keys().len() > 0 ==> {
                &&& r matches Some(k) && k@ == old(self).spec_keys()[old(self).spec_cursor()]
                &&& final(self).spec_cursor() == rotated(
                    old(self).spec_cursor(),
                    1,
                    old(self).spec_keys().len() as int,
                )
            },
    {
        if self.keys.len() == 0 {
            return None;
        }
        let key = self.keys[self.cursor].clone();
        self.cursor = (self.cursor + 1) % self.keys.len();
        Some(key)
    }
}

/// The cursor position reached after `k` draws starting from `start`, in a
/// pool of `n` keys.
pub open spec fn rotated(start: int, k: int, n: int) -> int
    recommends
        n > 0,
        0 <= start < n,
        k >= 0,
{
    (start + k) % n
}

/// Over any window of `n` consecutive draws, rotation visits `n` distinct
/// key indices, and the draw after the window lands back on the first: the
/// cycle repeats with period exactly `n`.
pub proof fn lemma_rotation_cycle(start: int, n: int)
    requires
        n > 0,
        0 <= start < n,
    ensures
        forall|i: int, j: int|
            0 <= i < n && 0 <= j < n && i != j ==> #[trigger] rotated(start, i, n) != #[trigger] rotated(start, j, n),
        forall|k: int| 0 <= k ==> 0 <= #[trigger] rotated(start, k, n) < n,
        rotated(start, n, n) == rotated(start, 0, n),
{
    assert forall|i: int, j: int|
        0 <= i < n && 0 <= j < n && i != j implies #[trigger] rotated(start, i, n) != #[trigger] rotated(
        start,
        j,
        n,
    ) by {
        lemma_rotated_distinct(start, i, j, n);
    }
    assert forall|k: int| 0 <= k implies 0 <= #[trigger] rotated(start, k, n) < n by {
        vstd::arithmetic::div_mod::lemma_mod_division_less_than_divisor(start + k, n);
    }
    vstd::arithmetic::div_mod::lemma_mod_add_multiples_vanish(start, n);
    vstd::arithmetic::div_mod::lemma_small_mod(start as nat, n as nat);
}

/// Every key index is reached within a window of `n` draws: the draw
/// returned here lands on `idx`.
pub proof fn lemma_rotation_reaches(start: int, n: int, idx: int) -> (k: int)
    requires
        n > 0,
        0 <= start < n,
        0 <= idx < n,
    ensures
        0 <= k < n,
        rotated(start, k, n) == idx,
{
    let k = if idx >= start {
        idx - start
    } else {
        idx - start + n
    };
    if idx >= start {
        vstd::arithmetic::div_mod::lemma_small_mod(idx as nat, n as nat);
    } else {
        vstd::arithmetic::div_mod::lemma_mod_add_multiples_vanish(idx, n);
        vstd::arithmetic::div_mod::lemma_small_mod(idx as nat, n as nat);
    }
    k
}

proof fn lemma_rotated_distinct(start: int, i: int, j: int, n: int)
    requires
        n > 0,
        0 <= i < n,
        0 <= j < n,
        i != j,
    ensures
        (start + i) % n != (start + j) % n,
{
    if (start + i) % n == (start + j) % n {
        vstd::arithmetic::div_mod::lemma_fundamental_div_mod(start + i, n);
        vstd::arithmetic::div_mod::lemma_fundamental_div_mod(start + j, n);
        let q1 = (start + i) / n;
        let q2 = (start + j) / n;
        let r = (start + i) % n;
        assert(i == j) by (nonlinear_arith)
            requires
                start + i == n * q1 + r,
                start + j == n * q2 + r,
                n > 0,
                0 <= i < n,
                0 <= j < n,
        ;
        assert(false);
    }
}

} // verus!
