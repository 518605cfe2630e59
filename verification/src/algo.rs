//! Order-preserving deduplication and Fibonacci numbers.
use std::collections::HashSet;
use vstd::prelude::*;

verus! {

broadcast use vstd::std_specs::hash::group_hash_axioms;

// ---------------------------------------------------------------------------
// Deduplication
// ---------------------------------------------------------------------------

/// The values of `s` in the order of their first occurrence, each once:
/// an element is kept exactly when no equal element stands before it.
pub open spec fn dedup_spec(s: Seq<u64>) -> Seq<u64>
    decreases s.len(),
{
    if s.len() == 0 {
        Seq::empty()
    } else {
        let prev = dedup_spec(s.drop_last());
        if prev.contains(s.last()) {
            prev
        } else {
            prev.push(s.last())
        }
    }
}

/// Deduplication keeps exactly the values of the input.
pub proof fn lemma_dedup_same_elements(s: Seq<u64>)
    ensures
        forall|x: u64| #[trigger] dedup_spec(s).contains(x) <==> s.contains(x),
    decreases s.len(),
{
    if s.len() > 0 {
        let init = s.drop_last();
        lemma_dedup_same_elements(init);
        assert forall|x: u64| #[trigger] dedup_spec(s).contains(x) <==> s.contains(x) by {
            if s.contains(x) && x != s.last() {
                let k = choose|k: int| 0 <= k < s.len() && s[k] == x;
                assert(init[k] == x);
            }
            if init.contains(x) {
                let k = choose|k: int| 0 <= k < init.len() && init[k] == x;
                assert(s[k] == x);
            }
            if dedup_spec(init).contains(s.last()) {
            } else {
                let p = dedup_spec(init);
                if p.push(s.last()).contains(x) && x != s.last() {
                    let k = choose|k: int| 0 <= k < p.push(s.last()).len() && p.push(s.last())[k] == x;
                    assert(p[k] == x);
                }
                if p.contains(x) {
                    let k = choose|k: int| 0 <= k < p.len() && p[k] == x;
                    assert(p.push(s.last())[k] == x);
                }
                assert(p.push(s.last())[p.len() as int] == s.last());
            }
            assert(s[s.len() - 1] == s.last());
        }
    }
}

/// The result of deduplication holds no value twice.
pub proof fn lemma_dedup_no_duplicates(s: Seq<u64>)
    ensures
        dedup_spec(s).no_duplicates(),
    decreases s.len(),
{
    if s.len() > 0 {
        lemma_dedup_no_duplicates(s.drop_last());
        let p = dedup_spec(s.drop_last());
        if !p.contains(s.last()) {
            let q = p.push(s.last());
            assert forall|i: int, j: int|
                0 <= i < q.len() && 0 <= j < q.len() && i != j implies q[i] != q[j] by {
                if i == p.len() {
                    assert(p[j] == q[j]);
                } else if j == p.len() {
                    assert(p[i] == q[i]);
                }
            }
        }
    }
}

/// A sequence that holds no value twice is left as it is.
pub proof fn lemma_dedup_identity_on_distinct(s: Seq<u64>)
    requires
        s.no_duplicates(),
    ensures
        dedup_spec(s) == s,
    decreases s.len(),
{
    if s.len() > 0 {
        let init = s.drop_last();
        assert(init.no_duplicates()) by {
            assert forall|i: int, j: int|
                0 <= i < init.len() && 0 <= j < init.len() && i != j implies init[i] != init[j] by {
                assert(s[i] == init[i] && s[j] == init[j]);
            }
        }
        lemma_dedup_identity_on_distinct(init);
        if init.contains(s.last()) {
            let k = choose|k: int| 0 <= k < init.len() && init[k] == s.last();
            assert(s[k] == s[s.len() - 1]);
        }
        assert(init.push(s.last()) =~= s);
    }
}

/// Deduplicating twice is the same as deduplicating once.
pub proof fn lemma_dedup_idempotent(s: Seq<u64>)
    ensures
        dedup_spec(dedup_spec(s)) == dedup_spec(s),
{
    lemma_dedup_no_duplicates(s);
    lemma_dedup_identity_on_distinct(dedup_spec(s));
}

/// Appending input never reorders what was already kept: the result for `s`
/// is a prefix of the result for `s + t`.
pub proof fn lemma_dedup_prefix(s: Seq<u64>, t: Seq<u64>)
    ensures
        dedup_spec(s).len() <= dedup_spec(s + t).len(),
        dedup_spec(s + t).subrange(0, dedup_spec(s).len() as int) == dedup_spec(s),
    decreases t.len(),
{
    if t.len() == 0 {
        assert(s + t =~= s);
        assert(dedup_spec(s).subrange(0, dedup_spec(s).len() as int) =~= dedup_spec(s));
    } else {
        let t0 = t.drop_last();
        lemma_dedup_prefix(s, t0);
        assert((s + t).drop_last() =~= s + t0);
        let p = dedup_spec(s + t0);
        let n = dedup_spec(s).len() as int;
        if !p.contains((s + t).last()) {
            assert(p.push((s + t).last()).subrange(0, n) =~= p.subrange(0, n));
        }
    }
}

/// Removes repeated values from `values`, keeping the first occurrence of each
/// and the order in which values first occur.
pub fn slow_dedup(values: &[u64]) -> (out: Vec<u64>)
    ensures
        out@ == dedup_spec(values@),
        out@.no_duplicates(),
        forall|x: u64| #[trigger] out@.contains(x) <==> values@.contains(x),
{
    let mut seen: HashSet<u64> = HashSet::with_capacity(values.len());
    let mut out: Vec<u64> = Vec::with_capacity(values.len());
    let n = values.len();
    let mut i: usize = 0;
    while i < n
        invariant
            n == values.len(),
            i <= n,
            out@ == dedup_spec(values@.take(i as int)),
            forall|x: u64| #[trigger] seen@.contains(x) <==> out@.contains(x),
        decreases n - i,
    {
        let v = values[i];
        proof {
            lemma_dedup_same_elements(values@.take(i as int));
            assert(values@.take(i + 1).drop_last() =~= values@.take(i as int));
            assert(values@.take(i + 1).last() == v);
        }
        let fresh = seen.insert(v);
        if fresh {
            out.push(v);
        }
        proof {
            assert forall|x: u64| #[trigger] seen@.contains(x) <==> out@.contains(x) by {
                if fresh {
                    let p = dedup_spec(values@.take(i as int));
                    if p.contains(x) {
                        let k = choose|k: int| 0 <= k < p.len() && p[k] == x;
                        assert(out@[k] == x);
                    }
                    if out@.contains(x) && x != v {
                        let k = choose|k: int| 0 <= k < out@.len() && out@[k] == x;
                        assert(p[k] == x);
                    }
                    assert(out@[out@.len() - 1] == v);
                }
            }
        }
        i = i + 1;
    }
    proof {
        assert(values@.take(n as int) =~= values@);
        lemma_dedup_no_duplicates(values@);
        lemma_dedup_same_elements(values@);
    }
    out
}

// ---------------------------------------------------------------------------
// Fibonacci
// ---------------------------------------------------------------------------

/// The Fibonacci numbers: 0, 1, 1, 2, 3, 5, ...
pub open spec fn fib(n: nat) -> nat
    decreases n,
{
    if n <= 1 {
        n
    } else {
        fib((n - 2) as nat) + fib((n - 1) as nat)
    }
}

/// The sequence starts 0, 1 and each later number is the sum of the two
/// before it.
pub proof fn lemma_fib_recurrence(n: nat)
    ensures
        fib(0) == 0,
        fib(1) == 1,
        n >= 2 ==> fib(n) == fib((n - 1) as nat) + fib((n - 2) as nat),
        fib_u64(0) == 0,
        fib_u64(1) == 1,
{
}

/// The `n`-th Fibonacci number reduced modulo 2^64, as `u64` arithmetic that
/// wraps on overflow computes it.
pub open spec fn fib_u64(n: nat) -> u64 {
    (fib(n) % 0x1_0000_0000_0000_0000) as u64
}

/// The `n`-th Fibonacci number; additions wrap around modulo 2^64.
pub fn slow_fib(n: u64) -> (r: u64)
    ensures
        r == fib_u64(n as nat),
        fib(n as nat) <= u64::MAX ==> r == fib(n as nat),
{
    if n <= 1 {
        return n;
    }
    let mut a: u64 = 0;
    let mut b: u64 = 1;
    let mut i: u64 = 1;
    while i < n
        invariant
            1 <= i <= n,
            a == fib_u64((i - 1) as nat),
            b == fib_u64(i as nat),
        decreases n - i,
    {
        let c = a.wrapping_add(b);
        proof {
            lemma_fib_u64_step((i + 1) as nat);
        }
        a = b;
        b = c;
        i = i + 1;
    }
    b
}

/// Wrapping addition of the two previous values gives the next one.
pub proof fn lemma_fib_u64_step(n: nat)
    requires
        n >= 2,
    ensures
        fib_u64(n) == vstd::wrapping::u64_specs::wrapping_add(
            fib_u64((n - 2) as nat),
            fib_u64((n - 1) as nat),
        ),
{
    let m: int = 0x1_0000_0000_0000_0000;
    let x = fib((n - 2) as nat) as int;
    let y = fib((n - 1) as nat) as int;
    vstd::arithmetic::div_mod::lemma_add_mod_noop(x, y, m);
    let xs = x % m;
    let ys = y % m;
    assert(0 <= xs < m && 0 <= ys < m);
    if xs + ys >= m {
        vstd::arithmetic::div_mod::lemma_fundamental_div_mod_converse_mod(xs + ys, m, 1, xs + ys - m);
    } else {
        vstd::arithmetic::div_mod::lemma_fundamental_div_mod_converse_mod(xs + ys, m, 0, xs + ys);
    }
}

} // verus!
