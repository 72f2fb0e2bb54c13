//! Counting the occurrences of a byte in a buffer, as the counting
//! components export it and as the benchmarking hosts compute it natively.
use vstd::prelude::*;

verus! {

/// Number of positions of `s` that hold `target`.
pub open spec fn count_spec(s: Seq<u8>, target: u8) -> nat
    decreases s.len(),
{
    if s.len() == 0 {
        0
    } else {
        count_spec(s.drop_last(), target) + if s.last() == target {
            1nat
        } else {
            0nat
        }
    }
}

/// Counts how many bytes of `data` equal `target`.
pub fn count_matches(data: &[u8], target: u8) -> (n: usize)
    ensures
        n == count_spec(data@, target),
{
    let mut n: usize = 0;
    let mut i: usize = 0;
    while i < data.len()
        invariant
            i <= data.len(),
            n <= i,
            n == count_spec(data@.take(i as int), target),
        decreases data.len() - i,
    {
        assert(data@.take(i + 1).drop_last() =~= data@.take(i as int));
        if data[i] == target {
            n = n + 1;
        }
        i = i + 1;
    }
    assert(data@.take(data.len() as int) =~= data@);
    n
}

/// `block` repeated `times` times.
pub open spec fn repeat_spec(block: Seq<u8>, times: nat) -> Seq<u8>
    decreases times,
{
    if times == 0 {
        Seq::empty()
    } else {
        repeat_spec(block, (times - 1) as nat) + block
    }
}

/// The count is the length of the buffer filtered down to the target byte,
/// the way an iterator filter-and-count computes it.
pub proof fn lemma_count_is_filter_len(s: Seq<u8>, target: u8)
    ensures
        count_spec(s, target) == s.filter(|b: u8| b == target).len(),
    decreases s.len(),
{
    reveal_with_fuel(Seq::<_>::filter, 1);
    if s.len() > 0 {
        lemma_count_is_filter_len(s.drop_last(), target);
    }
}

/// No buffer holds more matches than bytes.
pub proof fn lemma_count_at_most_len(s: Seq<u8>, target: u8)
    ensures
        count_spec(s, target) <= s.len(),
    decreases s.len(),
{
    if s.len() > 0 {
        lemma_count_at_most_len(s.drop_last(), target);
    }
}

/// Counting is additive: the matches of two buffers put end to end are the
/// matches of the first plus those of the second.
pub proof fn lemma_count_concat(a: Seq<u8>, b: Seq<u8>, target: u8)
    ensures
        count_spec(a + b, target) == count_spec(a, target) + count_spec(b, target),
    decreases b.len(),
{
    if b.len() == 0 {
        assert(a + b =~= a);
    } else {
        lemma_count_concat(a, b.drop_last(), target);
        assert((a + b).drop_last() =~= a + b.drop_last());
        assert((a + b).last() == b.last());
    }
}

/// A block repeated `times` times holds `times` times the block's matches.
pub proof fn lemma_count_repeat(block: Seq<u8>, times: nat, target: u8)
    ensures
        count_spec(repeat_spec(block, times), target) == times * count_spec(block, target),
        repeat_spec(block, times).len() == times * block.len(),
    decreases times,
{
    let c = count_spec(block, target);
    let l = block.len();
    if times == 0 {
        assert(times * c == 0 && times * l == 0) by (nonlinear_arith)
            requires
                times == 0,
        ;
    } else {
        let prev = (times - 1) as nat;
        lemma_count_repeat(block, prev, target);
        lemma_count_concat(repeat_spec(block, prev), block, target);
        assert(repeat_spec(block, times) == repeat_spec(block, prev) + block);
        assert(prev * c + c == times * c) by (nonlinear_arith)
            requires
                prev + 1 == times,
        ;
        assert(prev * l + l == times * l) by (nonlinear_arith)
            requires
                prev + 1 == times,
        ;
    }
}

/// Builds the benchmark input: `block` written `times` times in a row.
pub fn repeat_block(block: &[u8], times: usize) -> (bytes: Vec<u8>)
    requires
        block.len() * times <= isize::MAX,
    ensures
        bytes@ == repeat_spec(block@, times as nat),
{
    let mut bytes: Vec<u8> = Vec::new();
    let mut k: usize = 0;
    while k < times
        invariant
            k <= times,
            bytes@ == repeat_spec(block@, k as nat),
        decreases times - k,
    {
        let ghost before = bytes@;
        let mut j: usize = 0;
        while j < block.len()
            invariant
                j <= block.len(),
                bytes@ == before + block@.take(j as int),
            decreases block.len() - j,
        {
            bytes.push(block[j]);
            assert(block@.take(j + 1) =~= block@.take(j as int).push(block@[j as int]));
            j = j + 1;
        }
        assert(block@.take(block.len() as int) =~= block@);
        k = k + 1;
    }
    bytes
}

/// The native side of the benchmark: counts `target` in `bytes` once per
/// cycle and sums the counts.
pub fn calc_native_total(bytes: &[u8], target: u8, cycle: usize) -> (total: usize)
    requires
        cycle * count_spec(bytes@, target) <= usize::MAX,
    ensures
        total == cycle * count_spec(bytes@, target),
{
    let ghost c = count_spec(bytes@, target);
    let mut total: usize = 0;
    let mut i: usize = 0;
    while i < cycle
        invariant
            i <= cycle,
            c == count_spec(bytes@, target),
            cycle * c <= usize::MAX,
            total == i * c,
        decreases cycle - i,
    {
        let n = count_matches(bytes, target);
        assert(i * c + c == (i + 1) * c && (i + 1) * c <= cycle * c) by (nonlinear_arith)
            requires
                i < cycle,
        ;
        total = total + n;
        i = i + 1;
    }
    total
}

/// The `count` export of the counting component: how many bytes of `data`
/// equal `target`.
pub fn count(data: Vec<u8>, target: u8) -> (n: u64)
    ensures
        n == count_spec(data@, target),
{
    let n = count_matches(data.as_slice(), target);
    n as u64
}

/// The counter resource of the counting component.
pub struct MyCounter;

impl MyCounter {
    /// The resource's constructor.
    pub fn new() -> (counter: MyCounter) {
        MyCounter
    }

    /// How many bytes of `data` equal `target`.
    pub fn count(&self, data: Vec<u8>, target: u8) -> (n: u64)
        ensures
            n == count_spec(data@, target),
    {
        count(data, target)
    }
}

/// The counting rule written in the component whose target is optional:
/// without a target it is an error with a fixed message, with one it is the
/// number of bytes equal to it. That component aborts on purpose right after
/// greeting its host, before it ever applies this rule.
pub fn count_optional(bytes: Vec<u8>, target: Option<u8>) -> (r: Result<u64, String>)
    ensures
        match target {
            None => r is Err && r->Err_0@ == "No Target is provided"@,
            Some(t) => r == Ok::<u64, String>(count_spec(bytes@, t) as u64)
                && count_spec(bytes@, t) <= u64::MAX,
        },
{
    match target {
        None => Err("No Target is provided".to_owned()),
        Some(t) => Ok(count(bytes, t)),
    }
}

} // verus!
