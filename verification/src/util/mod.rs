//! Alignment and timing helpers shared by the kernel.

use vstd::prelude::*;

verus! {

/// Cycles per microsecond of the nominal 2.4 GHz core clock.
pub const CYCLES_PER_US: u64 = 2400;

/// `i` is the index of the first element of `s` that satisfies `p`.
pub open spec fn is_first_match<T>(s: Seq<T>, p: spec_fn(T) -> bool, i: int) -> bool {
    &&& 0 <= i < s.len()
    &&& p(s[i])
    &&& forall|j: int| 0 <= j < i ==> !p(#[trigger] s[j])
}

/// The index of the first element of `s` that satisfies `p`, if there is one.
pub open spec fn first_match<T>(s: Seq<T>, p: spec_fn(T) -> bool) -> Option<int> {
    if exists|i: int| is_first_match(s, p, i) {
        Some(choose|i: int| is_first_match(s, p, i))
    } else {
        None
    }
}

/// The first match is unique: once found, it is what `first_match` names.
pub proof fn lemma_first_match_is<T>(s: Seq<T>, p: spec_fn(T) -> bool, i: int)
    requires
        is_first_match(s, p, i),
    ensures
        first_match(s, p) == Some(i),
{
    let k = choose|k: int| is_first_match(s, p, k);
    assert(is_first_match(s, p, k));
    if k < i {
        assert(!p(s[k]));
    } else if i < k {
        assert(!p(s[i]));
    }
}

/// With some element satisfying `p` there is a first match.
pub proof fn lemma_first_match_exists<T>(s: Seq<T>, p: spec_fn(T) -> bool, i: int)
    requires
        0 <= i < s.len(),
        p(s[i]),
    ensures
        first_match(s, p) is Some,
        is_first_match(s, p, first_match(s, p)->0),
    decreases i,
{
    if exists|j: int| 0 <= j < i && p(#[trigger] s[j]) {
        let j = choose|j: int| 0 <= j < i && p(#[trigger] s[j]);
        lemma_first_match_exists(s, p, j);
    } else {
        assert(is_first_match(s, p, i));
        lemma_first_match_is(s, p, i);
    }
}

/// With no element satisfying `p` there is no first match.
pub proof fn lemma_first_match_none<T>(s: Seq<T>, p: spec_fn(T) -> bool)
    requires
        forall|j: int| 0 <= j < s.len() ==> !p(#[trigger] s[j]),
    ensures
        first_match(s, p) == None::<int>,
{
    if exists|i: int| is_first_match(s, p, i) {
        let k = choose|k: int| is_first_match(s, p, k);
        assert(p(s[k]));
    }
}

/// How many elements of `s` are `Some`.
pub open spec fn count_some<T>(s: Seq<Option<T>>) -> nat
    decreases s.len(),
{
    if s.len() == 0 {
        0
    } else {
        count_some(s.drop_last()) + if s.last() is Some {
            1nat
        } else {
            0nat
        }
    }
}

/// Bounds of `count_some`: at most the length, equal to it when every
/// element is `Some`, at least one when some element is.
pub proof fn lemma_count_some_bounds<T>(s: Seq<Option<T>>)
    ensures
        count_some(s) <= s.len(),
        (forall|i: int| 0 <= i < s.len() ==> (#[trigger] s[i]) is Some) ==> count_some(s) == s.len(),
        (exists|i: int| 0 <= i < s.len() && (#[trigger] s[i]) is Some) ==> count_some(s) >= 1,
        (forall|i: int| 0 <= i < s.len() ==> (#[trigger] s[i]) is None) ==> count_some(s) == 0,
    decreases s.len(),
{
    if s.len() > 0 {
        lemma_count_some_bounds(s.drop_last());
        if forall|i: int| 0 <= i < s.len() ==> (#[trigger] s[i]) is Some {
            assert forall|i: int| 0 <= i < s.drop_last().len() implies (#[trigger] s.drop_last()[i]) is Some by {
                assert(s[i] is Some);
            }
        }
        if forall|i: int| 0 <= i < s.len() ==> (#[trigger] s[i]) is None {
            assert forall|i: int| 0 <= i < s.drop_last().len() implies (#[trigger] s.drop_last()[i]) is None by {
                assert(s[i] is None);
            }
        }
        if exists|i: int| 0 <= i < s.len() && (#[trigger] s[i]) is Some {
            let i = choose|i: int| 0 <= i < s.len() && (#[trigger] s[i]) is Some;
            if i < s.len() - 1 {
                assert(s.drop_last()[i] is Some);
            }
        }
    }
}

/// Setting element `i` changes `count_some` by the change at `i`.
pub proof fn lemma_count_some_update<T>(s: Seq<Option<T>>, i: int, v: Option<T>)
    requires
        0 <= i < s.len(),
    ensures
        count_some(s.update(i, v)) + (if s[i] is Some {
            1nat
        } else {
            0nat
        }) == count_some(s) + (if v is Some {
            1nat
        } else {
            0nat
        }),
    decreases s.len(),
{
    if i == s.len() - 1 {
        assert(s.update(i, v).drop_last() =~= s.drop_last());
    } else {
        lemma_count_some_update(s.drop_last(), i, v);
        assert(s.update(i, v).drop_last() =~= s.drop_last().update(i, v));
    }
}

/// `count_some` looks only at which elements are `Some`.
pub proof fn lemma_count_some_same_shape<T>(s: Seq<Option<T>>, t: Seq<Option<T>>)
    requires
        s.len() == t.len(),
        forall|i: int| 0 <= i < s.len() ==> (#[trigger] s[i] is Some) == (t[i] is Some),
    ensures
        count_some(s) == count_some(t),
    decreases s.len(),
{
    if s.len() > 0 {
        assert forall|i: int| 0 <= i < s.drop_last().len() implies (#[trigger] s.drop_last()[i] is Some) == (
        t.drop_last()[i] is Some) by {
            assert(s[i] is Some == t[i] is Some);
        }
        lemma_count_some_same_shape(s.drop_last(), t.drop_last());
        assert(s[s.len() - 1] is Some == t[s.len() - 1] is Some);
    }
}

/// `a` is a non-zero power of two.
pub open spec fn is_pow2(a: usize) -> bool {
    a != 0 && a & ((a - 1) as usize) == 0
}

#[verifier::rlimit(100)]
proof fn lemma_mask_zero_is_aligned(x: usize, align: usize)
    by (bit_vector)
    requires
        align != 0,
        align & ((align - 1) as usize) == 0,
        x & ((align - 1) as usize) == 0,
    ensures
        x % align == 0,
{
}

/// Two multiples of `align` that lie less than `align` apart are equal.
proof fn lemma_close_multiples_equal(a: int, b: int, align: int)
    by (nonlinear_arith)
    requires
        align > 0,
        a >= 0,
        b >= 0,
        a % align == 0,
        b % align == 0,
        a <= b < a + align,
    ensures
        a == b,
{
    let qa = a / align;
    let qb = b / align;
    assert(a == qa * align);
    assert(b == qb * align);
    assert(qa <= qb);
    assert(qb < qa + 1);
}

/// Spin for about `microseconds` microseconds.
pub fn delay_us(microseconds: u64)
    requires
        CYCLES_PER_US * microseconds <= u64::MAX,
{
    let cycles = CYCLES_PER_US * microseconds;
    let mut c: u64 = 0;
    while c < cycles
        invariant
            c <= cycles,
        decreases cycles - c,
    {
        cpu_relax();
        c += 1;
    }
}

/// Sleep for `milliseconds` milliseconds by spinning.
pub fn sleep_ms(milliseconds: u64)
    requires
        CYCLES_PER_US * (milliseconds * 1000) <= u64::MAX,
{
    delay_us(milliseconds * 1000);
}

/// Round `addr` up to the next multiple of `align` (a power of two).
pub fn align_up(addr: usize, align: usize) -> (r: usize)
    requires
        align >= 1,
        addr + align - 1 <= usize::MAX,
    ensures
        r == (addr + align - 1) as usize & !((align - 1) as usize),
        is_pow2(align) ==> r % align == 0 && addr <= r && r < addr + align,
        is_pow2(align) && addr % align == 0 ==> r == addr,
{
    let m = align - 1;
    let s = addr + m;
    let r = s & !m;
    proof {
        if is_pow2(align) {
            assert(r & m == 0 && addr <= r && r <= s) by (bit_vector)
                requires
                    align != 0,
                    align & m == 0,
                    m == align - 1,
                    s == addr + m,
                    r == s & !m,
            ;
            lemma_mask_zero_is_aligned(r, align);
            if addr % align == 0 {
                lemma_close_multiples_equal(addr as int, r as int, align as int);
            }
        }
    }
    r
}

/// Round `addr` down to a multiple of `align` (a power of two).
pub fn align_down(addr: usize, align: usize) -> (r: usize)
    requires
        align >= 1,
    ensures
        r == addr & !((align - 1) as usize),
        is_pow2(align) ==> r % align == 0 && r <= addr && addr < r + align,
        is_pow2(align) && addr % align == 0 ==> r == addr,
{
    let m = align - 1;
    let r = addr & !m;
    proof {
        if is_pow2(align) {
            assert(r & m == 0 && r <= addr && addr <= r + m) by (bit_vector)
                requires
                    align != 0,
                    align & m == 0,
                    m == align - 1,
                    r == addr & !m,
            ;
            lemma_mask_zero_is_aligned(r, align);
            if addr % align == 0 {
                lemma_close_multiples_equal(r as int, addr as int, align as int);
            }
        }
    }
    r
}

/// Whether `addr` is a multiple of `align`.
pub fn is_aligned(addr: usize, align: usize) -> (r: bool)
    requires
        align != 0,
    ensures
        r == (addr % align == 0),
{
    addr % align == 0
}

/// Hint to the core that it is spinning.
#[verifier::external_body]
fn cpu_relax() {
    core::hint::spin_loop();
}

} // verus!
