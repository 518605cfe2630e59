//! A model of the shared event counter: its value, and the operations that
//! reset, read and increment it. Additions wrap around modulo 2^64.
use vstd::prelude::*;

verus! {

/// `v + k`, wrapped around modulo 2^64.
pub open spec fn add_wrapping(v: u64, k: nat) -> u64 {
    ((v + k) % 0x1_0000_0000_0000_0000) as u64
}

/// The value a counter reaches from `start` after `threads` batches of
/// `iterations` increments each.
pub open spec fn after_batches(start: u64, iterations: nat, threads: nat) -> u64
    decreases threads,
{
    if threads == 0 {
        start
    } else {
        add_wrapping(after_batches(start, iterations, (threads - 1) as nat), iterations)
    }
}

/// An event counter holding one `u64`.
pub struct Counter {
    value: u64,
}

impl View for Counter {
    type V = u64;

    closed spec fn view(&self) -> u64 {
        self.value
    }
}

impl Counter {
    /// A counter at zero.
    pub fn new() -> (c: Counter)
        ensures
            c@ == 0,
    {
        Counter { value: 0 }
    }

    /// Adds `delta`, wrapping around on overflow, and returns the value held
    /// before the addition.
    pub fn fetch_add(&mut self, delta: u64) -> (prev: u64)
        ensures
            prev == old(self)@,
            final(self)@ == add_wrapping(old(self)@, delta as nat),
    {
        let prev = self.value;
        self.value = self.value.wrapping_add(delta);
        proof {
            lemma_wrapping_add_is_mod(prev, delta);
        }
        prev
    }

    /// Increments the counter by one, `times` times over.
    pub fn increment_times(&mut self, times: usize)
        ensures
            final(self)@ == add_wrapping(old(self)@, times as nat),
    {
        let ghost start = self@;
        let mut i: usize = 0;
        proof {
            vstd::arithmetic::div_mod::lemma_small_mod(start as nat, 0x1_0000_0000_0000_0000nat);
        }
        while i < times
            invariant
                i <= times,
                self@ == add_wrapping(start, i as nat),
            decreases times - i,
        {
            self.fetch_add(1);
            proof {
                lemma_add_wrapping_compose(start, i as nat, 1);
            }
            i = i + 1;
        }
    }
}

/// Sets the counter back to zero.
pub fn reset_counter(counter: &mut Counter)
    ensures
        final(counter)@ == 0,
{
    counter.value = 0;
}

/// The value the counter holds.
pub fn read_after_sleep(counter: &Counter) -> (v: u64)
    ensures
        v == counter@,
{
    counter.value
}

/// `wrapping_add` on `u64` is addition modulo 2^64.
proof fn lemma_wrapping_add_is_mod(v: u64, d: u64)
    ensures
        vstd::wrapping::u64_specs::wrapping_add(v, d) == add_wrapping(v, d as nat),
{
    let m: int = 0x1_0000_0000_0000_0000;
    if v + d >= m {
        vstd::arithmetic::div_mod::lemma_fundamental_div_mod_converse_mod(v + d, m, 1, v + d - m);
    } else {
        vstd::arithmetic::div_mod::lemma_fundamental_div_mod_converse_mod(v + d, m, 0, v + d);
    }
}

/// Adding `a` and then `b` is adding `a + b`, whatever wrapping happened in
/// between.
pub proof fn lemma_add_wrapping_compose(v: u64, a: nat, b: nat)
    ensures
        add_wrapping(add_wrapping(v, a), b) == add_wrapping(v, a + b),
{
    let m: int = 0x1_0000_0000_0000_0000;
    vstd::arithmetic::div_mod::lemma_add_mod_noop(v + a, b as int, m);
    vstd::arithmetic::div_mod::lemma_mod_twice(b as int, m);
    vstd::arithmetic::div_mod::lemma_add_mod_noop((v + a) % m, b as int, m);
    vstd::arithmetic::div_mod::lemma_mod_twice(v + a, m);
    assert(((v + a) % m) % m == (v + a) % m);
}

/// Adding without overflow gives the plain sum; on overflow the sum wraps
/// around once, exactly as `u64::wrapping_add` does.
pub proof fn lemma_add_wrapping_exact(v: u64, k: u64)
    ensures
        v + k <= u64::MAX ==> add_wrapping(v, k as nat) == v + k,
        v + k > u64::MAX ==> add_wrapping(v, k as nat) == v + k - 0x1_0000_0000_0000_0000,
        add_wrapping(v, k as nat) == vstd::wrapping::u64_specs::wrapping_add(v, k),
{
    lemma_wrapping_add_is_mod(v, k);
}

/// Two batches of increments give the same value in either order.
pub proof fn lemma_increments_commute(v: u64, a: nat, b: nat)
    ensures
        add_wrapping(add_wrapping(v, a), b) == add_wrapping(add_wrapping(v, b), a),
{
    lemma_add_wrapping_compose(v, a, b);
    lemma_add_wrapping_compose(v, b, a);
}

/// After a reset, `threads` batches of `iterations` increments leave the
/// counter at `iterations * threads`, wrapped around modulo 2^64.
pub proof fn lemma_batches_total(iterations: nat, threads: nat)
    ensures
        after_batches(0, iterations, threads) == add_wrapping(0, iterations * threads),
    decreases threads,
{
    if threads == 0 {
        assert(iterations * threads == 0) by (nonlinear_arith)
            requires
                threads == 0,
        ;
        vstd::arithmetic::div_mod::lemma_small_mod(0, 0x1_0000_0000_0000_0000nat);
    } else {
        lemma_batches_total(iterations, (threads - 1) as nat);
        lemma_add_wrapping_compose(0, iterations * ((threads - 1) as nat), iterations);
        assert(iterations * ((threads - 1) as nat) + iterations == iterations * threads)
            by (nonlinear_arith)
            requires
                threads >= 1,
        ;
    }
}

} // verus!
