//! Small verified utilities: sums and counts over slices, whitespace-free
//! lowercase normalisation of text, deduplication, Fibonacci numbers and a
//! shared counter model.
pub mod algo;
pub mod concurrency;

use vstd::prelude::*;

verus! {

// ---------------------------------------------------------------------------
// Sum of the even values
// ---------------------------------------------------------------------------

/// The sum, as a mathematical integer, of the even values of `s`.
pub open spec fn sum_even_spec(s: Seq<i64>) -> int
    decreases s.len(),
{
    if s.len() == 0 {
        0
    } else {
        sum_even_spec(s.drop_last()) + if s.last() % 2 == 0 {
            s.last() as int
        } else {
            0
        }
    }
}

/// Every partial sum of the even values of `s`, taken from the left, fits in
/// an `i64`.
pub open spec fn even_prefix_sums_fit(s: Seq<i64>) -> bool {
    forall|i: int|
        0 <= i <= s.len() ==> i64::MIN <= #[trigger] sum_even_spec(s.take(i)) <= i64::MAX
}

/// The sum of the even values of `values` (an empty slice sums to 0).
/// Adding from the left must never leave the range of `i64`.
pub fn sum_even(values: &[i64]) -> (total: i64)
    requires
        even_prefix_sums_fit(values@),
    ensures
        total == sum_even_spec(values@),
{
    let n = values.len();
    let mut total: i64 = 0;
    let mut i: usize = 0;
    while i < n
        invariant
            n == values.len(),
            i <= n,
            total == sum_even_spec(values@.take(i as int)),
            even_prefix_sums_fit(values@),
        decreases n - i,
    {
        let v = values[i];
        proof {
            assert(values@.take(i + 1).drop_last() =~= values@.take(i as int));
            assert(values@.take(i + 1).last() == v);
            assert(i64::MIN <= sum_even_spec(values@.take(i + 1)) <= i64::MAX);
        }
        if v % 2 == 0 {
            total = total + v;
        }
        i = i + 1;
    }
    proof {
        assert(values@.take(n as int) =~= values@);
    }
    total
}

/// The even-value sum of a concatenation is the sum of the even-value sums of
/// its parts.
pub proof fn lemma_sum_even_concat(a: Seq<i64>, b: Seq<i64>)
    ensures
        sum_even_spec(a + b) == sum_even_spec(a) + sum_even_spec(b),
    decreases b.len(),
{
    if b.len() == 0 {
        assert(a + b =~= a);
    } else {
        lemma_sum_even_concat(a, b.drop_last());
        assert((a + b).drop_last() =~= a + b.drop_last());
        assert((a + b).last() == b.last());
    }
}

/// A sequence without even values sums to zero.
pub proof fn lemma_sum_even_all_odd(s: Seq<i64>)
    requires
        forall|i: int| 0 <= i < s.len() ==> #[trigger] s[i] % 2 != 0,
    ensures
        sum_even_spec(s) == 0,
    decreases s.len(),
{
    if s.len() > 0 {
        assert(s.last() == s[s.len() - 1]);
        lemma_sum_even_all_odd(s.drop_last());
    }
}

/// The sum of the even values is the plain sum of the subsequence of even
/// values: every even element adds exactly itself, every odd one nothing.
pub proof fn lemma_sum_even_is_sum_of_evens(s: Seq<i64>)
    ensures
        sum_even_spec(s) == s.filter(|v: i64| v % 2 == 0).fold_left(
            0int,
            |acc: int, v: i64| acc + v,
        ),
    decreases s.len(),
{
    reveal(Seq::filter);
    if s.len() > 0 {
        lemma_sum_even_is_sum_of_evens(s.drop_last());
        let f = s.drop_last().filter(|v: i64| v % 2 == 0);
        if s.last() % 2 == 0 {
            assert(f.push(s.last()).drop_last() =~= f);
        }
    }
}

/// A single value contributes itself when even and nothing when odd.
pub proof fn lemma_sum_even_single(x: i64)
    ensures
        sum_even_spec(seq![x]) == (if x % 2 == 0 { x as int } else { 0 }),
{
    let s = seq![x];
    assert(s.len() == 1 && s.last() == x);
    assert(s.drop_last() =~= Seq::<i64>::empty());
    assert(sum_even_spec(s.drop_last()) == 0);
}

// ---------------------------------------------------------------------------
// Count of the non-zero bytes
// ---------------------------------------------------------------------------

/// The number of non-zero bytes in `s`.
pub open spec fn count_nonzero(s: Seq<u8>) -> nat
    decreases s.len(),
{
    if s.len() == 0 {
        0
    } else {
        count_nonzero(s.drop_last()) + if s.last() != 0 {
            1nat
        } else {
            0nat
        }
    }
}

/// The number of non-zero bytes in `input`.
pub fn leak_buffer(input: &[u8]) -> (count: usize)
    ensures
        count == count_nonzero(input@),
{
    let n = input.len();
    let mut count: usize = 0;
    let mut i: usize = 0;
    while i < n
        invariant
            n == input.len(),
            i <= n,
            count == count_nonzero(input@.take(i as int)),
            count <= i,
        decreases n - i,
    {
        proof {
            assert(input@.take(i + 1).drop_last() =~= input@.take(i as int));
            assert(input@.take(i + 1).last() == input@[i as int]);
        }
        if input[i] != 0 {
            count = count + 1;
        }
        i = i + 1;
    }
    proof {
        assert(input@.take(n as int) =~= input@);
    }
    count
}

/// The count never exceeds the length, and equals it exactly when no byte is
/// zero.
pub proof fn lemma_count_nonzero_bounds(s: Seq<u8>)
    ensures
        count_nonzero(s) <= s.len(),
        count_nonzero(s) == s.len() <==> (forall|i: int| 0 <= i < s.len() ==> #[trigger] s[i] != 0),
        count_nonzero(s) == 0 <==> (forall|i: int| 0 <= i < s.len() ==> #[trigger] s[i] == 0),
    decreases s.len(),
{
    if s.len() > 0 {
        let init = s.drop_last();
        lemma_count_nonzero_bounds(init);
        assert(s.last() == s[s.len() - 1]);
        assert forall|i: int| 0 <= i < init.len() implies #[trigger] init[i] == s[i] by {}
        if (forall|i: int| 0 <= i < s.len() ==> #[trigger] s[i] != 0) {
            assert forall|i: int| 0 <= i < init.len() implies #[trigger] init[i] != 0 by {
                assert(s[i] != 0);
            }
        }
        if (forall|i: int| 0 <= i < s.len() ==> #[trigger] s[i] == 0) {
            assert forall|i: int| 0 <= i < init.len() implies #[trigger] init[i] == 0 by {
                assert(s[i] == 0);
            }
        }
        if count_nonzero(s) == 0 {
            assert forall|i: int| 0 <= i < s.len() implies #[trigger] s[i] == 0 by {
                if i < init.len() {
                    assert(init[i] == 0);
                }
            }
        }
        if count_nonzero(s) == s.len() {
            assert forall|i: int| 0 <= i < s.len() implies #[trigger] s[i] != 0 by {
                if i < init.len() {
                    assert(init[i] != 0);
                }
            }
        }
    }
}

/// The count is the length of the subsequence of non-zero bytes.
pub proof fn lemma_count_nonzero_is_filter_len(s: Seq<u8>)
    ensures
        count_nonzero(s) == s.filter(|b: u8| b != 0).len(),
    decreases s.len(),
{
    reveal(Seq::filter);
    if s.len() > 0 {
        lemma_count_nonzero_is_filter_len(s.drop_last());
    }
}

/// The count of a concatenation is the sum of the counts of its parts.
pub proof fn lemma_count_nonzero_concat(a: Seq<u8>, b: Seq<u8>)
    ensures
        count_nonzero(a + b) == count_nonzero(a) + count_nonzero(b),
    decreases b.len(),
{
    if b.len() == 0 {
        assert(a + b =~= a);
    } else {
        lemma_count_nonzero_concat(a, b.drop_last());
        assert((a + b).drop_last() =~= a + b.drop_last());
        assert((a + b).last() == b.last());
    }
}

// ---------------------------------------------------------------------------
// Mean of the positive values: the integer part
// ---------------------------------------------------------------------------

/// The sum, as a mathematical integer, of the positive values of `s`.
pub open spec fn sum_positive_spec(s: Seq<i64>) -> int
    decreases s.len(),
{
    if s.len() == 0 {
        0
    } else {
        sum_positive_spec(s.drop_last()) + if s.last() > 0 {
            s.last() as int
        } else {
            0
        }
    }
}

/// The number of positive values in `s`.
pub open spec fn count_positive(s: Seq<i64>) -> nat
    decreases s.len(),
{
    if s.len() == 0 {
        0
    } else {
        count_positive(s.drop_last()) + if s.last() > 0 {
            1nat
        } else {
            0nat
        }
    }
}

/// The positive-value sum of a prefix never exceeds that of the whole.
pub proof fn lemma_sum_positive_prefix(s: Seq<i64>, i: int)
    requires
        0 <= i <= s.len(),
    ensures
        0 <= sum_positive_spec(s.take(i)) <= sum_positive_spec(s),
    decreases s.len(),
{
    if s.len() > 0 {
        if i == s.len() {
            assert(s.take(i) =~= s);
            lemma_sum_positive_prefix(s.drop_last(), i - 1);
            assert(s.drop_last().take(i - 1) =~= s.drop_last());
        } else {
            lemma_sum_positive_prefix(s.drop_last(), i);
            assert(s.drop_last().take(i) =~= s.take(i));
            lemma_sum_positive_prefix(s.drop_last(), s.len() - 1);
            assert(s.drop_last().take(s.len() - 1) =~= s.drop_last());
        }
    }
}

/// The positive-value sum is the plain sum of the subsequence of values
/// greater than zero: every positive element adds exactly itself.
pub proof fn lemma_sum_positive_is_sum_of_positives(s: Seq<i64>)
    ensures
        sum_positive_spec(s) == s.filter(|v: i64| v > 0).fold_left(
            0int,
            |acc: int, v: i64| acc + v,
        ),
    decreases s.len(),
{
    reveal(Seq::filter);
    if s.len() > 0 {
        lemma_sum_positive_is_sum_of_positives(s.drop_last());
        let f = s.drop_last().filter(|v: i64| v > 0);
        if s.last() > 0 {
            assert(f.push(s.last()).drop_last() =~= f);
        }
    }
}

/// The count of positive values is the length of the subsequence of values
/// greater than zero.
pub proof fn lemma_count_positive_is_filter_len(s: Seq<i64>)
    ensures
        count_positive(s) == s.filter(|v: i64| v > 0).len(),
    decreases s.len(),
{
    reveal(Seq::filter);
    if s.len() > 0 {
        lemma_count_positive_is_filter_len(s.drop_last());
    }
}

/// Sum and count both add up over a concatenation.
pub proof fn lemma_positive_concat(a: Seq<i64>, b: Seq<i64>)
    ensures
        sum_positive_spec(a + b) == sum_positive_spec(a) + sum_positive_spec(b),
        count_positive(a + b) == count_positive(a) + count_positive(b),
    decreases b.len(),
{
    if b.len() == 0 {
        assert(a + b =~= a);
    } else {
        lemma_positive_concat(a, b.drop_last());
        assert((a + b).drop_last() =~= a + b.drop_last());
        assert((a + b).last() == b.last());
    }
}

/// A single value is counted, and adds itself to the sum, exactly when it is
/// greater than zero.
pub proof fn lemma_positive_single(x: i64)
    ensures
        sum_positive_spec(seq![x]) == (if x > 0 { x as int } else { 0 }),
        count_positive(seq![x]) == (if x > 0 { 1nat } else { 0nat }),
{
    let s = seq![x];
    assert(s.len() == 1 && s.last() == x);
    assert(s.drop_last() =~= Seq::<i64>::empty());
    assert(sum_positive_spec(s.drop_last()) == 0);
    assert(count_positive(s.drop_last()) == 0);
}

/// The sum and the number of the positive values of `values`: the two
/// integers whose quotient is their arithmetic mean. The sum must fit in an
/// `i64`.
pub fn positive_sum_and_count(values: &[i64]) -> (r: (i64, usize))
    requires
        sum_positive_spec(values@) <= i64::MAX,
    ensures
        r.0 == sum_positive_spec(values@),
        r.1 == count_positive(values@),
{
    let n = values.len();
    let mut sum: i64 = 0;
    let mut count: usize = 0;
    let mut i: usize = 0;
    while i < n
        invariant
            n == values.len(),
            i <= n,
            sum == sum_positive_spec(values@.take(i as int)),
            count == count_positive(values@.take(i as int)),
            count <= i,
            sum_positive_spec(values@) <= i64::MAX,
        decreases n - i,
    {
        let v = values[i];
        proof {
            assert(values@.take(i + 1).drop_last() =~= values@.take(i as int));
            assert(values@.take(i + 1).last() == v);
            lemma_sum_positive_prefix(values@, i + 1);
        }
        if v > 0 {
            sum = sum + v;
            count = count + 1;
        }
        i = i + 1;
    }
    proof {
        assert(values@.take(n as int) =~= values@);
    }
    (sum, count)
}

// ---------------------------------------------------------------------------
// Text normalisation
// ---------------------------------------------------------------------------

/// The characters with the Unicode White_Space property.
pub open spec fn is_white_space(c: char) -> bool {
    let u = c as u32;
    ||| 0x09 <= u <= 0x0D
    ||| u == 0x20
    ||| u == 0x85
    ||| u == 0xA0
    ||| u == 0x1680
    ||| 0x2000 <= u <= 0x200A
    ||| u == 0x2028
    ||| u == 0x2029
    ||| u == 0x202F
    ||| u == 0x205F
    ||| u == 0x3000
}

/// `s` with every white-space character left out, the others kept in order.
pub open spec fn remove_whitespace(s: Seq<char>) -> Seq<char>
    decreases s.len(),
{
    if s.len() == 0 {
        Seq::empty()
    } else {
        let init = remove_whitespace(s.drop_last());
        if is_white_space(s.last()) {
            init
        } else {
            init.push(s.last())
        }
    }
}

/// What `str::to_lowercase` returns for the characters `s`: the lowercase
/// mapping of Unicode, which may change the length and, for a final capital
/// sigma, depends on the neighbouring characters.
pub uninterp spec fn str_lowercase(s: Seq<char>) -> Seq<char>;

/// Calls `char::is_whitespace`, which std documents as true exactly for the
/// characters with the Unicode White_Space property; the contract lists them.
#[verifier::external_body]
fn char_is_whitespace(c: char) -> (r: bool)
    ensures
        r == is_white_space(c),
{
    c.is_whitespace()
}

/// Calls `String::push`, which appends one character at the end.
#[verifier::external_body]
fn string_push(s: &mut String, c: char)
    ensures
        final(s)@ == old(s)@.push(c),
{
    s.push(c)
}

/// Calls `str::to_lowercase`. Its result is given the name `str_lowercase`
/// of the input's characters; nothing more is claimed of that mapping.
#[verifier::external_body]
fn str_to_lowercase(s: &str) -> (r: String)
    ensures
        r@ == str_lowercase(s@),
{
    s.to_lowercase()
}

/// `input` with all white-space characters removed.
pub fn strip_whitespace(input: &str) -> (out: String)
    ensures
        out@ == remove_whitespace(input@),
{
    let n = input.unicode_len();
    let mut out = String::new();
    let mut i: usize = 0;
    while i < n
        invariant
            n == input@.len(),
            i <= n,
            out@ == remove_whitespace(input@.take(i as int)),
        decreases n - i,
    {
        let c = input.get_char(i);
        proof {
            assert(input@.take(i + 1).drop_last() =~= input@.take(i as int));
            assert(input@.take(i + 1).last() == c);
        }
        if !char_is_whitespace(c) {
            string_push(&mut out, c);
        }
        i = i + 1;
    }
    proof {
        assert(input@.take(n as int) =~= input@);
    }
    out
}

/// `input` with all white-space characters (spaces, tabs, line breaks and the
/// other Unicode white space) removed, then mapped to lowercase.
pub fn normalize(input: &str) -> (out: String)
    ensures
        out@ == str_lowercase(remove_whitespace(input@)),
{
    let stripped = strip_whitespace(input);
    str_to_lowercase(stripped.as_str())
}

/// No white space is left after removal, and every character left was in the
/// input.
pub proof fn lemma_remove_whitespace_clean(s: Seq<char>)
    ensures
        forall|i: int|
            0 <= i < remove_whitespace(s).len() ==> !is_white_space(
                #[trigger] remove_whitespace(s)[i],
            ),
        forall|c: char| #[trigger] remove_whitespace(s).contains(c) ==> s.contains(c),
        remove_whitespace(s).len() <= s.len(),
    decreases s.len(),
{
    if s.len() > 0 {
        let init = s.drop_last();
        lemma_remove_whitespace_clean(init);
        let r = remove_whitespace(init);
        assert forall|c: char| #[trigger] remove_whitespace(s).contains(c) implies s.contains(c) by {
            if r.contains(c) {
                let k = choose|k: int| 0 <= k < r.len() && r[k] == c;
                assert(init.contains(c));
                let j = choose|j: int| 0 <= j < init.len() && init[j] == c;
                assert(s[j] == c);
            } else {
                assert(!is_white_space(s.last()));
                let k = choose|k: int| 0 <= k < r.push(s.last()).len() && r.push(s.last())[k] == c;
                assert(k == r.len());
                assert(s[s.len() - 1] == c);
            }
        }
    }
}

/// Removal keeps exactly the subsequence of characters that are not white
/// space.
pub proof fn lemma_remove_whitespace_is_filter(s: Seq<char>)
    ensures
        remove_whitespace(s) == s.filter(|c: char| !is_white_space(c)),
    decreases s.len(),
{
    reveal(Seq::filter);
    if s.len() > 0 {
        lemma_remove_whitespace_is_filter(s.drop_last());
    }
}

/// A text without white space is left as it is.
pub proof fn lemma_remove_whitespace_identity(s: Seq<char>)
    requires
        forall|i: int| 0 <= i < s.len() ==> !is_white_space(#[trigger] s[i]),
    ensures
        remove_whitespace(s) == s,
    decreases s.len(),
{
    if s.len() > 0 {
        let init = s.drop_last();
        assert forall|i: int| 0 <= i < init.len() implies !is_white_space(#[trigger] init[i]) by {
            assert(init[i] == s[i]);
        }
        lemma_remove_whitespace_identity(init);
        assert(s.last() == s[s.len() - 1]);
        assert(init.push(s.last()) =~= s);
    }
}

/// Removing white space twice is the same as removing it once.
pub proof fn lemma_remove_whitespace_idempotent(s: Seq<char>)
    ensures
        remove_whitespace(remove_whitespace(s)) == remove_whitespace(s),
{
    lemma_remove_whitespace_clean(s);
    lemma_remove_whitespace_identity(remove_whitespace(s));
}

/// Removing white space from a concatenation removes it from each part.
pub proof fn lemma_remove_whitespace_concat(a: Seq<char>, b: Seq<char>)
    ensures
        remove_whitespace(a + b) == remove_whitespace(a) + remove_whitespace(b),
    decreases b.len(),
{
    if b.len() == 0 {
        assert(a + b =~= a);
        assert(remove_whitespace(a) + remove_whitespace(b) =~= remove_whitespace(a));
    } else {
        lemma_remove_whitespace_concat(a, b.drop_last());
        assert((a + b).drop_last() =~= a + b.drop_last());
        assert((a + b).last() == b.last());
        let ra = remove_whitespace(a);
        let rb = remove_whitespace(b.drop_last());
        assert((ra + rb).push(b.last()) =~= ra + rb.push(b.last()));
    }
}

// ---------------------------------------------------------------------------
// Boxed value
// ---------------------------------------------------------------------------

/// Moves 42 into a box and adds 42 to the boxed value: 84.
pub fn use_after_free() -> (r: i32)
    ensures
        r == 84,
{
    let b = Box::new(42i32);
    *b + 42
}

} // verus!
