use vstd::prelude::*;
use crate::task::JoinError;

verus! {

/// `x * k` modulo 2^64.
pub open spec fn mul_wrap(x: u64, k: u64) -> u64 {
    ((x as nat * k as nat) % 0x1_0000_0000_0000_0000nat) as u64
}

/// One xorshift step (shifts 13, 7, 17).
pub open spec fn xorshift(x: u64) -> u64 {
    let a = x ^ (x << 13u64);
    let b = a ^ (a >> 7u64);
    b ^ (b << 17u64)
}

/// The avalanche mix used for checksums.
pub open spec fn spec_mix64(x: u64) -> u64 {
    let v1 = x ^ (x >> 33u64);
    let v2 = mul_wrap(v1, 0xFF51_AFD7_ED55_8CCD);
    let v3 = v2 ^ (v2 >> 33u64);
    let v4 = mul_wrap(v3, 0xC4CE_B9FE_1A85_EC53);
    v4 ^ (v4 >> 33u64)
}

pub fn mix64(x: u64) -> (r: u64)
    ensures
        r == spec_mix64(x),
{
    let mut v = x;
    v = v ^ (v >> 33u64);
    v = v.wrapping_mul(0xFF51_AFD7_ED55_8CCD);
    v = v ^ (v >> 33u64);
    v = v.wrapping_mul(0xC4CE_B9FE_1A85_EC53);
    v = v ^ (v >> 33u64);
    v
}

/// A small deterministic pseudo-random generator that shapes test workloads.
#[derive(Clone, Copy)]
pub struct XorShift64 {
    s: u64,
}

impl XorShift64 {
    pub closed spec fn state(&self) -> u64 {
        self.s
    }

    /// A zero seed, which would stay zero forever, is taken as 1.
    pub fn new(seed: u64) -> (g: XorShift64)
        ensures
            g.state() == if seed == 0 { 1 } else { seed },
    {
        XorShift64 { s: if seed == 0 { 1 } else { seed } }
    }

    pub fn next_u64(&mut self) -> (r: u64)
        ensures
            r == xorshift(old(self).state()),
            final(self).state() == r,
    {
        let mut x = self.s;
        x = x ^ (x << 13u64);
        x = x ^ (x >> 7u64);
        x = x ^ (x << 17u64);
        self.s = x;
        x
    }

    /// The high half of the next 64-bit output.
    pub fn next_u32(&mut self) -> (r: u32)
        ensures
            r == (xorshift(old(self).state()) >> 32u64) as u32,
            final(self).state() == xorshift(old(self).state()),
    {
        let x = self.next_u64();
        (x >> 32u64) as u32
    }
}

/// One round of busy work on a state word.
pub open spec fn burn_round(s: u64) -> u64 {
    mul_wrap(xorshift(s), 0xD6E8_FEB8_6659_FD93)
}

/// `n` rounds of busy work.
pub open spec fn burn_rounds(s: u64, n: nat) -> u64
    decreases n,
{
    if n == 0 {
        s
    } else {
        burn_round(burn_rounds(s, (n - 1) as nat))
    }
}

/// The work a burning task does in one poll.
pub fn burn(state: u64, iters: u32) -> (r: u64)
    ensures
        r == burn_rounds(state, iters as nat),
{
    let mut s = state;
    let mut i: u32 = 0;
    while i < iters
        invariant
            i <= iters,
            s == burn_rounds(state, i as nat),
        decreases iters - i,
    {
        s = s ^ (s << 13u64);
        s = s ^ (s >> 7u64);
        s = s ^ (s << 17u64);
        s = s.wrapping_mul(0xD6E8_FEB8_6659_FD93);
        i = i + 1;
    }
    s
}

/// What a finished burning task folds into the shared checksum.
pub fn burn_checksum(state: u64, id: u32) -> (r: u64)
    ensures
        r == spec_mix64(state ^ mul_wrap(id as u64, 0x9E37_79B9_7F4A_7C15)),
{
    mix64(state ^ (id as u64).wrapping_mul(0x9E37_79B9_7F4A_7C15))
}

/// One step of a reduction fold: a value is mixed in, a failure mixes in `mark`.
pub fn fold_step(acc: u64, item: Option<u64>, mark: u64) -> (r: u64)
    ensures
        r == spec_mix64(acc ^ match item { Some(v) => v, None => mark }),
{
    match item {
        Some(v) => mix64(acc ^ v),
        None => mix64(acc ^ mark),
    }
}

/// One poll of a counting task: done once the counter reached `target`, otherwise
/// the counter goes up by one (wrapping).
pub fn count_step(x: u32, target: u32) -> (r: (bool, u32))
    ensures
        r.0 == (x >= target),
        r.1 == if x >= target { x } else { (x + 1) as u32 },
{
    if x >= target {
        (true, x)
    } else {
        (false, x + 1)
    }
}

/// Sizes of the groups that one level of a reduction tree makes of `n` handles:
/// full groups of `batch`, then the rest.
pub open spec fn level_sizes(n: nat, batch: nat) -> Seq<usize>
    recommends
        batch > 0,
    decreases n,
{
    if n == 0 || batch == 0 {
        Seq::empty()
    } else if n <= batch {
        seq![n as usize]
    } else {
        seq![batch as usize] + level_sizes((n - batch) as nat, batch)
    }
}

pub fn group_sizes(n: usize, batch: usize) -> (sizes: Vec<usize>)
    requires
        batch > 0,
    ensures
        sizes@ == level_sizes(n as nat, batch as nat),
{
    let mut sizes: Vec<usize> = Vec::new();
    let mut left = n;
    while left > 0
        invariant
            batch > 0,
            left <= n,
            sizes@ + level_sizes(left as nat, batch as nat) == level_sizes(n as nat, batch as nat),
        decreases left,
    {
        if left <= batch {
            proof {
                assert(level_sizes(left as nat, batch as nat) == seq![left]);
                assert(level_sizes(0, batch as nat) == Seq::<usize>::empty());
                assert((sizes@.push(left) + Seq::<usize>::empty()) =~= sizes@ + seq![left]);
            }
            sizes.push(left);
            left = 0;
        } else {
            proof {
                assert(level_sizes(left as nat, batch as nat) == seq![batch] + level_sizes((left - batch) as nat, batch as nat));
                assert(sizes@.push(batch) + level_sizes((left - batch) as nat, batch as nat)
                    =~= sizes@ + (seq![batch] + level_sizes((left - batch) as nat, batch as nat)));
            }
            sizes.push(batch);
            left = left - batch;
        }
    }
    proof {
        assert(level_sizes(0, batch as nat) == Seq::<usize>::empty());
        assert(sizes@ + Seq::<usize>::empty() =~= sizes@);
    }
    sizes
}

/// A level of a reduction tree covers every handle, in groups of at most
/// `batch`, and with `batch` at least 2 it leaves fewer groups than there were
/// handles (so repeated levels end with one).
pub proof fn lemma_level_sizes(n: nat, batch: nat)
    requires
        batch > 0,
        n <= usize::MAX,
        batch <= usize::MAX,
    ensures
        forall|i: int| 0 <= i < level_sizes(n, batch).len() ==> 0 < #[trigger] level_sizes(n, batch)[i] <= batch,
        n > 0 ==> level_sizes(n, batch).len() == (n - 1) / (batch as int) + 1,
        batch >= 2 && n > 1 ==> level_sizes(n, batch).len() < n,
    decreases n,
{
    if n > batch {
        lemma_level_sizes((n - batch) as nat, batch);
        let rest = level_sizes((n - batch) as nat, batch);
        assert forall|i: int| 0 <= i < level_sizes(n, batch).len() implies 0 < #[trigger] level_sizes(n, batch)[i] <= batch by {
            if i > 0 {
                assert(level_sizes(n, batch)[i] == rest[i - 1]);
            } else {
                assert(level_sizes(n, batch)[0] == batch as usize);
            }
        }
        assert((n - 1) / (batch as int) == ((n - batch - 1) / (batch as int)) + 1) by (nonlinear_arith)
            requires n > batch, batch > 0;
        if batch >= 2 && n > 1 {
            assert((n - 1) / (batch as int) + 1 < n) by (nonlinear_arith)
                requires n > 1, batch >= 2;
        }
    } else if n > 0 {
        assert(level_sizes(n, batch) == seq![n as usize]);
        assert((n - 1) / (batch as int) == 0) by (nonlinear_arith)
            requires n <= batch, n > 0, batch > 0;
    }
}

/// Why folding joined results into a checksum failed.
#[derive(Debug, Clone, Copy, PartialEq, Eq, Structural)]
pub enum FoldFailure {
    /// The join itself failed.
    JoinFailed(JoinError),
    /// One of the joined tasks failed.
    ChildFailed(JoinError),
    /// A failure that the workload injects on purpose.
    Injected,
}

/// Folds joined results into `acc`, in order: a failed task ends the fold; a
/// value is mixed in, and a failed value mixes in `mark` instead.
pub open spec fn spec_fold_items<E>(acc: u64, items: Seq<Result<Result<u64, E>, JoinError>>, mark: u64) -> Result<u64, FoldFailure>
    decreases items.len(),
{
    if items.len() == 0 {
        Ok(acc)
    } else {
        match items[0] {
            Err(e) => Err(FoldFailure::ChildFailed(e)),
            Ok(app) => spec_fold_items(
                spec_mix64(acc ^ match app { Ok(v) => v, Err(_) => mark }),
                items.drop_first(),
                mark,
            ),
        }
    }
}

/// Folds the outcome of a join into one checksum, starting from `mix64(seed)`.
pub open spec fn spec_fold_joined<E>(seed: u64, mark: u64, res: Result<Seq<Result<Result<u64, E>, JoinError>>, JoinError>) -> Result<u64, FoldFailure> {
    match res {
        Err(e) => Err(FoldFailure::JoinFailed(e)),
        Ok(items) => spec_fold_items(spec_mix64(seed), items, mark),
    }
}

pub open spec fn joined_view<E>(res: Result<Vec<Result<Result<u64, E>, JoinError>>, JoinError>) -> Result<Seq<Result<Result<u64, E>, JoinError>>, JoinError> {
    match res {
        Ok(v) => Ok(v@),
        Err(e) => Err(e),
    }
}

pub fn fold_joined<E>(seed: u64, mark: u64, res: Result<Vec<Result<Result<u64, E>, JoinError>>, JoinError>) -> (r: Result<u64, FoldFailure>)
    ensures
        r == spec_fold_joined(seed, mark, joined_view(res)),
{
    let v = match res {
        Ok(v) => v,
        Err(e) => { return Err(FoldFailure::JoinFailed(e)); },
    };
    let ghost items = v@;
    let ghost target = spec_fold_items(spec_mix64(seed), items, mark);
    assert(target == spec_fold_joined(seed, mark, joined_view(res)));
    let mut acc = mix64(seed);
    let mut i: usize = 0;
    proof {
        assert(items.subrange(0, items.len() as int) =~= items);
    }
    while i < v.len()
        invariant
            i <= v@.len(),
            items == v@,
            target == spec_fold_items(spec_mix64(seed), items, mark),
            target == spec_fold_joined(seed, mark, joined_view(res)),
            spec_fold_items(acc, items.subrange(i as int, items.len() as int), mark) == target,
        decreases v@.len() - i,
    {
        let ghost rest = items.subrange(i as int, items.len() as int);
        proof {
            assert(rest[0] == items[i as int]);
            assert(rest.drop_first() =~= items.subrange(i as int + 1, items.len() as int));
        }
        match &v[i] {
            Err(e) => {
                proof {
                    assert(spec_fold_items(acc, rest, mark) == Err::<u64, FoldFailure>(FoldFailure::ChildFailed(*e)));
                }
                return Err(FoldFailure::ChildFailed(*e));
            },
            Ok(app) => {
                let item = match app {
                    Ok(x) => Some(*x),
                    Err(_) => None,
                };
                acc = fold_step(acc, item, mark);
            },
        }
        i = i + 1;
    }
    proof {
        assert(items.subrange(i as int, items.len() as int) =~= Seq::<Result<Result<u64, E>, JoinError>>::empty());
    }
    Ok(acc)
}

/// One level of the dependency chain folds its child and its timer from a seed
/// made of `d`, and fails on purpose at every level that is a multiple of 97.
pub open spec fn spec_chain_fold<E>(d: u32, res: Result<Seq<Result<Result<u64, E>, JoinError>>, JoinError>) -> Result<u64, FoldFailure> {
    match spec_fold_joined(d as u64 ^ 0xAAAA_BBBB_CCCC_DDDD, 0x1111_2222_3333_4444, res) {
        Err(f) => Err(f),
        Ok(acc) => if d % 97 == 0 { Err(FoldFailure::Injected) } else { Ok(acc) },
    }
}

pub fn chain_fold<E>(d: u32, res: Result<Vec<Result<Result<u64, E>, JoinError>>, JoinError>) -> (r: Result<u64, FoldFailure>)
    ensures
        r == spec_chain_fold(d, joined_view(res)),
{
    match fold_joined(d as u64 ^ 0xAAAA_BBBB_CCCC_DDDD, 0x1111_2222_3333_4444, res) {
        Err(f) => Err(f),
        Ok(acc) => if d % 97 == 0 { Err(FoldFailure::Injected) } else { Ok(acc) },
    }
}

/// What a leaf of the stress workload does.
#[derive(Debug, Clone, Copy, PartialEq, Eq, Structural)]
pub enum LeafPlan {
    /// Sleeps `ms` milliseconds.
    Sleep { ms: u64 },
    /// Burns `chunks` polls; a panic test would fire with `panic_at` chunks left.
    Burn { chunks: u32, panic_at: Option<u32> },
    /// Counts the shared counter up to `target`.
    Count { target: u32 },
}

/// The plan of leaf `i` from the random draws `r1` (the kind) and `r2` (its size).
pub open spec fn spec_leaf_plan(r1: u32, r2: u32, i: usize) -> LeafPlan {
    if r1 % 3 == 0 {
        LeafPlan::Sleep { ms: (r2 % 25 + 1) as u64 }
    } else if r1 % 3 == 1 {
        let chunks = (r2 % 40 + 25) as u32;
        LeafPlan::Burn { chunks, panic_at: if i % 997 == 0 { Some((chunks / 2) as u32) } else { None } }
    } else {
        LeafPlan::Count { target: (r2 % 80 + 10) as u32 }
    }
}

pub fn leaf_plan(r1: u32, r2: u32, i: usize) -> (p: LeafPlan)
    ensures
        p == spec_leaf_plan(r1, r2, i),
{
    if r1 % 3 == 0 {
        LeafPlan::Sleep { ms: (r2 % 25 + 1) as u64 }
    } else if r1 % 3 == 1 {
        let chunks = r2 % 40 + 25;
        LeafPlan::Burn { chunks, panic_at: if i % 997 == 0 { Some(chunks / 2) } else { None } }
    } else {
        LeafPlan::Count { target: r2 % 80 + 10 }
    }
}

/// The value of sleep leaf `i` after `ms` milliseconds; `None` for the leaves
/// that fail on purpose (every 251st).
pub fn sleep_leaf_value(i: usize, ms: u64) -> (r: Option<u64>)
    ensures
        r == if i % 251 == 0 { None } else { Some((i as u64) ^ (ms << 32u64)) },
{
    if i % 251 == 0 { None } else { Some((i as u64) ^ (ms << 32u64)) }
}

/// The value of burn leaf `i`; `None` for the leaves that fail on purpose (every
/// 149th).
pub fn burn_leaf_value(i: usize) -> (r: Option<u64>)
    ensures
        r == if i % 149 == 0 { None } else { Some(0xBADC0FFEu64 ^ (i as u64)) },
{
    if i % 149 == 0 { None } else { Some(0xBADC0FFEu64 ^ (i as u64)) }
}

/// The value of count leaf `i` with the shared counter at `x`; `None` where the
/// counter sits on a multiple of 127 at every 17th leaf.
pub fn count_leaf_value(x: u32, i: usize) -> (r: Option<u64>)
    ensures
        r == if x % 127 == 0 && i % 17 == 0 { None } else { Some((x as u64) ^ mul_wrap(i as u64, 31)) },
{
    if x % 127 == 0 && i % 17 == 0 {
        None
    } else {
        Some((x as u64) ^ (i as u64).wrapping_mul(31))
    }
}

} // verus!
