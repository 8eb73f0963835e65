//! A deterministic xoshiro256++ pseudo-random number generator with stable output.
//!
//! Its state is initialized and fork keys are mixed with SplitMix64. Cloning
//! preserves the exact current state. Forks are derived from the original seed,
//! so their output is unaffected by values consumed by the parent generator.

use vstd::prelude::*;

verus! {

/// Increment of the SplitMix64 sequence.
pub const GOLDEN_GAMMA: u64 = 0x9e37_79b9_7f4a_7c15;

/// First multiplier of the SplitMix64 finalizer.
pub const MIX_FIRST: u64 = 0xbf58_476d_1ce4_e5b9;

/// Second multiplier of the SplitMix64 finalizer.
pub const MIX_SECOND: u64 = 0x94d0_49bb_1331_11eb;

/// Sum of two words modulo 2^64.
pub open spec fn wrapped_sum(x: u64, y: u64) -> u64 {
    vstd::wrapping::u64_specs::wrapping_add(x, y)
}

/// Product of two words modulo 2^64.
pub open spec fn wrapped_product(x: u64, y: u64) -> u64 {
    vstd::wrapping::u64_specs::wrapping_mul(x, y)
}

/// The SplitMix64 finalizer applied to an already advanced mixer state.
pub open spec fn mix64(z: u64) -> u64 {
    let a = wrapped_product(z ^ (z >> 30u64), MIX_FIRST);
    let b = wrapped_product(a ^ (a >> 27u64), MIX_SECOND);
    b ^ (b >> 31u64)
}

/// The value SplitMix64 returns from a mixer holding `state`.
pub open spec fn split_mix_output(state: u64) -> u64 {
    mix64(wrapped_sum(state, GOLDEN_GAMMA))
}

/// The mixer holding `state` after `n` SplitMix64 steps.
pub open spec fn split_mix_state(state: u64, n: nat) -> u64
    decreases n,
{
    if n == 0 {
        state
    } else {
        wrapped_sum(split_mix_state(state, (n - 1) as nat), GOLDEN_GAMMA)
    }
}

/// Rotates `x` left by 23 bits.
pub open spec fn rotate_23(x: u64) -> u64 {
    (x << 23u64) | (x >> 41u64)
}

/// Rotates `x` left by 45 bits.
pub open spec fn rotate_45(x: u64) -> u64 {
    (x << 45u64) | (x >> 19u64)
}

/// The four-word state of a xoshiro256++ generator.
#[derive(Clone, Copy, Debug, PartialEq, Eq)]
pub struct Xoshiro {
    pub s0: u64,
    pub s1: u64,
    pub s2: u64,
    pub s3: u64,
}

impl Xoshiro {
    /// The word produced by one xoshiro256++ step from this state.
    pub open spec fn output(self) -> u64 {
        wrapped_sum(rotate_23(wrapped_sum(self.s0, self.s3)), self.s0)
    }

    /// The state after one xoshiro256++ step.
    pub open spec fn step(self) -> Xoshiro {
        let t = self.s1 << 17u64;
        let s2 = self.s2 ^ self.s0;
        let s3 = self.s3 ^ self.s1;
        let s1 = self.s1 ^ s2;
        let s0 = self.s0 ^ s3;
        Xoshiro { s0, s1, s2: s2 ^ t, s3: rotate_45(s3) }
    }

    /// The state after `n` steps.
    pub open spec fn advanced(self, n: nat) -> Xoshiro
        decreases n,
    {
        if n == 0 {
            self
        } else {
            self.advanced((n - 1) as nat).step()
        }
    }

    /// The word produced by the step taken after `n` earlier steps.
    pub open spec fn nth_output(self, n: nat) -> u64 {
        self.advanced(n).output()
    }

    /// The state that SplitMix64 seeding derives from `seed`.
    pub open spec fn seeded(seed: u64) -> Xoshiro {
        Xoshiro {
            s0: mix64(split_mix_state(seed, 1)),
            s1: mix64(split_mix_state(seed, 2)),
            s2: mix64(split_mix_state(seed, 3)),
            s3: mix64(split_mix_state(seed, 4)),
        }
    }
}

/// Advances a SplitMix64 mixer and returns its next value.
pub fn split_mix64(state: &mut u64) -> (value: u64)
    ensures
        *final(state) == wrapped_sum(*old(state), GOLDEN_GAMMA),
        value == mix64(*final(state)),
{
    *state = state.wrapping_add(GOLDEN_GAMMA);
    let mut value = *state;
    value = (value ^ (value >> 30)).wrapping_mul(MIX_FIRST);
    value = (value ^ (value >> 27)).wrapping_mul(MIX_SECOND);
    value ^ (value >> 31)
}

/// Largest number of draws one bounded sample makes.
///
/// A draw is rejected only when it falls below `2^64 mod bound`, which happens
/// with probability below one half, so this budget is never exhausted in
/// practice; should it be, the last draw is used as it is.
pub const DRAW_BUDGET: u64 = 0xffff_ffff_ffff_ffff;

/// Draws below this value are rejected so that `draw % bound` is uniform.
pub open spec fn rejection_threshold(bound: u64) -> u64 {
    (vstd::wrapping::u64_specs::wrapping_sub(0, bound) % bound) as u64
}

/// A sample below `bound` by rejection, from state `s`, with `fuel` draws left
/// after the current one; returns the sample and the state after its last draw.
pub open spec fn bounded_with_budget(s: Xoshiro, bound: u64, fuel: nat) -> (u64, Xoshiro)
    decreases fuel,
{
    let value = s.output();
    if value >= rejection_threshold(bound) || fuel == 0 {
        ((value % bound) as u64, s.step())
    } else {
        bounded_with_budget(s.step(), bound, (fuel - 1) as nat)
    }
}

/// A uniform sample below `bound` drawn from state `s`, and the state after it.
pub open spec fn bounded_sample(s: Xoshiro, bound: u64) -> (u64, Xoshiro) {
    bounded_with_budget(s, bound, DRAW_BUDGET as nat)
}

/// The seed of the generator forked with `key` from one created with `seed`.
pub open spec fn fork_seed(seed: u64, key: u64) -> u64 {
    split_mix_output(seed ^ split_mix_output(key))
}

/// The signed value whose two's-complement encoding modulo `modulus` is `value`.
pub open spec fn two_complement(value: int, modulus: int) -> int {
    if value < modulus / 2 {
        value
    } else {
        value - modulus
    }
}

/// `s` with the items at `i` and `j` exchanged.
pub open spec fn swapped<T>(s: Seq<T>, i: int, j: int) -> Seq<T> {
    s.update(i, s[j]).update(j, s[i])
}

/// Exchanging two items of a sequence keeps the same items.
pub proof fn lemma_swap_keeps_items<T>(s: Seq<T>, i: int, j: int)
    requires
        0 <= i < s.len(),
        0 <= j < s.len(),
    ensures
        swapped(s, i, j).to_multiset() == s.to_multiset(),
        swapped(s, i, j).len() == s.len(),
{
    broadcast use vstd::seq_lib::to_multiset_update;
    broadcast use vstd::multiset::group_multiset_axioms;
    broadcast use vstd::multiset::group_multiset_properties;

    let m = s.to_multiset();
    let first = s.update(i, s[j]);
    assert(first[j] == s[i] || first[j] == s[j]);
    assert(first[j] == s[j]) by {
        if i == j {
        }
    }
    assert(s.to_multiset().count(s[i]) > 0) by {
        vstd::seq_lib::to_multiset_contains(s, s[i]);
    }
    let m1 = m.insert(s[j]).remove(s[i]);
    assert(first.to_multiset() == m1);
    assert(m1.count(s[j]) > 0);
    let m2 = m1.insert(s[i]).remove(s[j]);
    assert(swapped(s, i, j).to_multiset() == m2);
    assert(m2 =~= m);
}

/// The Fisher-Yates passes of `shuffle` for positions `end` down to 1, from
/// state `s`; returns the arranged items and the state after the last draw.
pub open spec fn shuffle_passes<T>(s: Xoshiro, items: Seq<T>, end: nat) -> (Seq<T>, Xoshiro)
    decreases end,
{
    if end == 0 {
        (items, s)
    } else {
        let (selected, next) = bounded_sample(s, (end + 1) as u64);
        shuffle_passes(next, swapped(items, end as int, selected as int), (end - 1) as nat)
    }
}

/// The arrangement `shuffle` gives `items` from state `s`, and the state after it.
pub open spec fn shuffled<T>(s: Xoshiro, items: Seq<T>) -> (Seq<T>, Xoshiro) {
    if items.len() == 0 {
        (items, s)
    } else {
        shuffle_passes(s, items, (items.len() - 1) as nat)
    }
}

proof fn lemma_passes_touch_only_prefix<T>(s: Xoshiro, items: Seq<T>, end: nat, k: nat)
    requires
        end < k <= items.len(),
        items.len() <= u64::MAX,
    ensures
        shuffle_passes(s, items, end).0 == shuffle_passes(s, items.take(k as int), end).0 + items.skip(
            k as int,
        ),
        shuffle_passes(s, items, end).1 == shuffle_passes(s, items.take(k as int), end).1,
    decreases end,
{
    if end == 0 {
        assert(items =~= items.take(k as int) + items.skip(k as int));
    } else {
        let (selected, next) = bounded_sample(s, (end + 1) as u64);
        lemma_bounded_below(s, (end + 1) as u64);
        let moved = swapped(items, end as int, selected as int);
        assert(moved.take(k as int) =~= swapped(items.take(k as int), end as int, selected as int));
        assert(moved.skip(k as int) =~= items.skip(k as int));
        lemma_passes_touch_only_prefix(next, moved, (end - 1) as nat, k);
    }
}

/// Shuffling is the Fisher-Yates shuffle: an empty or one-item slice is left
/// as it is with no draw made; otherwise one draw below the length picks the
/// item that goes last, exchanged with the last item, and the items before
/// the last are then shuffled in the same way from the state after that draw.
pub proof fn lemma_shuffle_is_fisher_yates<T>(s: Xoshiro, items: Seq<T>)
    requires
        items.len() <= u64::MAX,
    ensures
        items.len() <= 1 ==> shuffled(s, items) == (items, s),
        items.len() >= 2 ==> {
            let n = items.len() as int;
            let picked = bounded_sample(s, n as u64).0 as int;
            let after = bounded_sample(s, n as u64).1;
            let exchanged = items.update(n - 1, items[picked]).update(picked, items[n - 1]);
            let rest = shuffled(after, exchanged.take(n - 1));
            &&& 0 <= picked < n
            &&& shuffled(s, items).0.len() == n
            &&& shuffled(s, items).0[n - 1] == items[picked]
            &&& shuffled(s, items).0 == rest.0.push(items[picked])
            &&& shuffled(s, items).1 == rest.1
        },
{
    if items.len() >= 2 {
        let n = items.len() as int;
        let (picked, after) = bounded_sample(s, n as u64);
        lemma_bounded_below(s, n as u64);
        let exchanged = swapped(items, n - 1, picked as int);
        assert(exchanged[n - 1] == items[picked as int]);
        lemma_passes_touch_only_prefix(after, exchanged, (n - 2) as nat, (n - 1) as nat);
        lemma_shuffle_passes_keep_items(after, exchanged.take(n - 1), (n - 2) as nat);
        assert(exchanged.skip(n - 1) =~= seq![items[picked as int]]);
        assert(shuffle_passes(after, exchanged.take(n - 1), (n - 2) as nat).0 + seq![items[picked as int]]
            =~= shuffle_passes(after, exchanged.take(n - 1), (n - 2) as nat).0.push(items[picked as int]));
    }
}

/// The positions `0..len`.
pub open spec fn identity_positions(len: nat) -> Seq<usize> {
    Seq::new(len, |i: int| i as usize)
}

/// The partial Fisher-Yates passes of `choose_multiple` over `positions`,
/// for passes `next` up to `amount`, from state `s`.
pub open spec fn selection_passes(s: Xoshiro, positions: Seq<usize>, next: nat, amount: nat) -> (
    Seq<usize>,
    Xoshiro,
)
    decreases amount - next,
{
    if next >= amount || next >= positions.len() {
        (positions, s)
    } else {
        let (offset, after) = bounded_sample(s, (positions.len() - next) as u64);
        selection_passes(
            after,
            swapped(positions, next as int, next + offset),
            next + 1,
            amount,
        )
    }
}

/// The positions `choose_multiple` picks among `len` values, in order, from
/// state `s`, and the state after the draws.
pub open spec fn selected_positions(s: Xoshiro, len: nat, amount: nat) -> (Seq<usize>, Xoshiro) {
    let count = if amount < len { amount } else { len };
    let (positions, after) = selection_passes(s, identity_positions(len), 0, count);
    (positions.take(count as int), after)
}

/// The positions, in order, of the values `choose_multiple` picks among
/// `len` values from state `s`.
pub open spec fn picked_positions(s: Xoshiro, len: nat, amount: nat) -> Seq<usize> {
    selected_positions(s, len, amount).0
}

/// Every position below `len` occurs exactly once in `positions`.
pub open spec fn is_arrangement(positions: Seq<usize>, len: nat) -> bool {
    &&& positions.len() == len
    &&& forall|i: int| 0 <= i < len ==> positions[i] < len
    &&& forall|i: int, j: int| 0 <= i < j < len ==> positions[i] != positions[j]
}

/// The selection passes keep the positions an arrangement of `0..len`.
pub proof fn lemma_selection_keeps_arrangement(
    s: Xoshiro,
    positions: Seq<usize>,
    next: nat,
    amount: nat,
)
    requires
        is_arrangement(positions, positions.len()),
        positions.len() <= u64::MAX,
    ensures
        is_arrangement(selection_passes(s, positions, next, amount).0, positions.len()),
    decreases amount - next,
{
    if next >= amount || next >= positions.len() {
    } else {
        let (offset, after) = bounded_sample(s, (positions.len() - next) as u64);
        lemma_bounded_below(s, (positions.len() - next) as u64);
        let moved = swapped(positions, next as int, next + offset);
        assert(is_arrangement(moved, positions.len())) by {
            assert forall|i: int, j: int| 0 <= i < j < positions.len() implies moved[i]
                != moved[j] by {
                let k = next + offset;
                let pi = if i == k {
                    next as int
                } else if i == next {
                    k
                } else {
                    i
                };
                let pj = if j == k {
                    next as int
                } else if j == next {
                    k
                } else {
                    j
                };
                assert(moved[i] == positions[pi]);
                assert(moved[j] == positions[pj]);
                assert(pi != pj);
                if pi < pj {
                } else {
                }
            }
        }
        lemma_selection_keeps_arrangement(after, moved, next + 1, amount);
    }
}

/// A bounded sample lies below its bound.
pub proof fn lemma_bounded_below(s: Xoshiro, bound: u64)
    requires
        bound > 0,
    ensures
        bounded_sample(s, bound).0 < bound,
{
    lemma_budget_below(s, bound, DRAW_BUDGET as nat);
}

/// A sample with any budget lies below its bound.
pub proof fn lemma_budget_below(s: Xoshiro, bound: u64, fuel: nat)
    requires
        bound > 0,
    ensures
        bounded_with_budget(s, bound, fuel).0 < bound,
    decreases fuel,
{
    if s.output() >= rejection_threshold(bound) || fuel == 0 {
    } else {
        lemma_budget_below(s.step(), bound, (fuel - 1) as nat);
    }
}

/// The Fisher-Yates passes keep the same items.
pub proof fn lemma_shuffle_passes_keep_items<T>(s: Xoshiro, items: Seq<T>, end: nat)
    requires
        end < items.len(),
        items.len() <= u64::MAX,
    ensures
        shuffle_passes(s, items, end).0.to_multiset() == items.to_multiset(),
        shuffle_passes(s, items, end).0.len() == items.len(),
    decreases end,
{
    if end > 0 {
        let (selected, next) = bounded_sample(s, (end + 1) as u64);
        lemma_bounded_below(s, (end + 1) as u64);
        lemma_swap_keeps_items(items, end as int, selected as int);
        lemma_shuffle_passes_keep_items(
            next,
            swapped(items, end as int, selected as int),
            (end - 1) as nat,
        );
    }
}

/// Specifies `<[T]>::swap` of std: it exchanges the items at `a` and `b`,
/// leaving the slice unchanged when they are equal, and panics when either is
/// out of bounds, which `requires` excludes.
pub assume_specification<Elem>[ <[Elem]>::swap ](slice: &mut [Elem], a: usize, b: usize)
    requires
        a < old(slice)@.len(),
        b < old(slice)@.len(),
    ensures
        final(slice)@ == swapped(old(slice)@, a as int, b as int),
;

/// What a generator is: the seed it was created from and its current state.
pub struct RandomView {
    pub seed: u64,
    pub state: Xoshiro,
}

/// A deterministic xoshiro256++ pseudo-random number generator with stable output.
#[derive(Debug)]
pub struct Random {
    seed: u64,
    state: Xoshiro,
}

impl View for Random {
    type V = RandomView;

    closed spec fn view(&self) -> RandomView {
        RandomView { seed: self.seed, state: self.state }
    }
}

/// A generator created from `seed`, before any draw.
pub open spec fn seeded_generator(seed: u64) -> RandomView {
    RandomView { seed, state: Xoshiro::seeded(seed) }
}

/// The generator forked with `key` from a generator created with `seed`.
pub open spec fn forked(seed: u64, key: u64) -> RandomView {
    seeded_generator(fork_seed(seed, key))
}

/// The generator `g` after `draws` words have been drawn from it.
pub open spec fn after_draws(g: RandomView, draws: nat) -> RandomView {
    RandomView { seed: g.seed, state: g.state.advanced(draws) }
}

/// Forks are derived from the original seed alone: after any number of draws,
/// a generator forks exactly as it did before them.
pub proof fn lemma_forks_ignore_consumed_state(parent: RandomView, draws: nat, key: u64)
    ensures
        forked(after_draws(parent, draws).seed, key) == forked(parent.seed, key),
{
}

/// Generators created from equal seeds produce the same words in the same
/// order: after the same number of draws they are in the same state.
pub proof fn lemma_equal_seeds_equal_streams(first: u64, second: u64, draws: nat)
    requires
        first == second,
    ensures
        after_draws(seeded_generator(first), draws) == after_draws(seeded_generator(second), draws),
        after_draws(seeded_generator(first), draws).state.output() == seeded_generator(
            second,
        ).state.nth_output(draws),
{
}

/// A call on a generator, by what it draws: one word (`u64`, `bool`, the
/// 8- to 64-bit and pointer-sized integers, the unit numerators), two words
/// (`u128`, `i128`), one sample below a bound (the `range_*` methods, and
/// `choose_one` and `choose_mut` on a non-empty slice), a selection of
/// `amount` among `len` values (`choose_multiple`) or a shuffle of `len`
/// items (`shuffle`).
#[derive(Clone, Copy, Debug, PartialEq, Eq, Structural)]
pub enum GeneratorCall {
    Word,
    DoubleWord,
    Bounded(u64),
    Select(usize, usize),
    Shuffle(usize),
}

/// What `call` draws from state `s`: the words, samples or positions that
/// decide its result, and the state after it.
pub open spec fn call_outcome(s: Xoshiro, call: GeneratorCall) -> (Seq<int>, Xoshiro) {
    match call {
        GeneratorCall::Word => (seq![s.output() as int], s.step()),
        GeneratorCall::DoubleWord => (
            seq![s.output() as int, s.step().output() as int],
            s.step().step(),
        ),
        GeneratorCall::Bounded(bound) => (
            seq![bounded_sample(s, bound).0 as int],
            bounded_sample(s, bound).1,
        ),
        GeneratorCall::Select(len, amount) => {
            let (positions, after) = selected_positions(s, len as nat, amount as nat);
            (positions.map_values(|position: usize| position as int), after)
        },
        GeneratorCall::Shuffle(len) => {
            let (positions, after) = shuffled(s, identity_positions(len as nat));
            (positions.map_values(|position: usize| position as int), after)
        },
    }
}

/// The words, samples or positions `call` draws from generator `g`; each
/// method's result is a function of them and of its arguments.
pub open spec fn drawn(g: RandomView, call: GeneratorCall) -> Seq<int> {
    call_outcome(g.state, call).0
}

/// The generator `g` after `call`.
pub open spec fn next_view(g: RandomView, call: GeneratorCall) -> RandomView {
    RandomView { seed: g.seed, state: call_outcome(g.state, call).1 }
}

/// The draws of each of `calls`, made in order on generator `g`, each with
/// the generator after it.
pub open spec fn run_calls(g: RandomView, calls: Seq<GeneratorCall>) -> Seq<(Seq<int>, RandomView)>
    decreases calls.len(),
{
    if calls.len() == 0 {
        Seq::empty()
    } else {
        let after = next_view(g, calls[0]);
        seq![(call_outcome(g.state, calls[0]).0, after)] + run_calls(after, calls.drop_first())
    }
}

/// Generators created from equal seeds, given the same sequence of calls of
/// any kinds, draw the same values at every call and are in the same state
/// after every call; each method's result is a function of its call's draws
/// and its arguments.
pub proof fn lemma_equal_seeds_equal_calls(first: u64, second: u64, calls: Seq<GeneratorCall>)
    requires
        first == second,
    ensures
        run_calls(seeded_generator(first), calls).len() == calls.len(),
        forall|k: int|
            0 <= k < calls.len() ==> #[trigger] run_calls(seeded_generator(first), calls)[k]
                == run_calls(seeded_generator(second), calls)[k],
{
    lemma_run_calls_length(seeded_generator(first), calls);
}

/// One entry per call.
proof fn lemma_run_calls_length(g: RandomView, calls: Seq<GeneratorCall>)
    ensures
        run_calls(g, calls).len() == calls.len(),
    decreases calls.len(),
{
    if calls.len() > 0 {
        lemma_run_calls_length(next_view(g, calls[0]), calls.drop_first());
    }
}

/// Shuffling items moves them as it moves their positions: when each item is
/// the `base` item at its position, it still is after the passes.
proof fn lemma_shuffle_follows_positions<T>(
    s: Xoshiro,
    items: Seq<T>,
    positions: Seq<usize>,
    base: Seq<T>,
    end: nat,
)
    requires
        items.len() == positions.len(),
        end < items.len(),
        items.len() <= u64::MAX,
        forall|i: int|
            0 <= i < items.len() ==> (#[trigger] positions[i]) < base.len() && items[i]
                == base[positions[i] as int],
    ensures
        shuffle_passes(s, items, end).0.len() == items.len(),
        shuffle_passes(s, positions, end).0.len() == items.len(),
        forall|i: int|
            0 <= i < items.len() ==> (#[trigger] shuffle_passes(s, positions, end).0[i]) < base.len()
                && shuffle_passes(s, items, end).0[i] == base[shuffle_passes(s, positions, end).0[i] as int],
    decreases end,
{
    if end > 0 {
        let (selected, next) = bounded_sample(s, (end + 1) as u64);
        lemma_bounded_below(s, (end + 1) as u64);
        let moved_items = swapped(items, end as int, selected as int);
        let moved_positions = swapped(positions, end as int, selected as int);
        assert forall|i: int| 0 <= i < items.len() implies (#[trigger] moved_positions[i]) < base.len()
            && moved_items[i] == base[moved_positions[i] as int] by {
            if i == selected as int {
                assert(moved_positions[i] == positions[end as int]);
            } else if i == end as int {
                assert(moved_positions[i] == positions[selected as int]);
            } else {
                assert(moved_positions[i] == positions[i]);
            }
        }
        lemma_shuffle_follows_positions(next, moved_items, moved_positions, base, (end - 1) as nat);
    }
}

/// The state after the Fisher-Yates passes depends only on how many passes
/// there are, not on the items.
proof fn lemma_shuffle_state_ignores_items<T, U>(s: Xoshiro, items: Seq<T>, others: Seq<U>, end: nat)
    ensures
        shuffle_passes(s, items, end).1 == shuffle_passes(s, others, end).1,
    decreases end,
{
    if end > 0 {
        let (selected, next) = bounded_sample(s, (end + 1) as u64);
        lemma_shuffle_state_ignores_items(
            next,
            swapped(items, end as int, selected as int),
            swapped(others, end as int, selected as int),
            (end - 1) as nat,
        );
    }
}

impl Clone for Random {
    /// Copies the generator with its exact current state.
    fn clone(&self) -> (copy: Self)
        ensures
            copy@ == self@,
    {
        Random { seed: self.seed, state: self.state }
    }
}

impl Random {
    /// Creates a generator from `seed`.
    pub fn new(seed: u64) -> (random: Self)
        ensures
            random@ == seeded_generator(seed),
    {
        let mut mixer = seed;
        let s0 = split_mix64(&mut mixer);
        let s1 = split_mix64(&mut mixer);
        let s2 = split_mix64(&mut mixer);
        let s3 = split_mix64(&mut mixer);
        proof {
            reveal_with_fuel(split_mix_state, 5);
        }
        Random { seed, state: Xoshiro { s0, s1, s2, s3 } }
    }

    /// Generates an unsigned 64-bit integer.
    pub fn u64(&mut self) -> (value: u64)
        ensures
            value as int == drawn(old(self)@, GeneratorCall::Word)[0],
            value == old(self)@.state.output(),
            final(self)@ == next_view(old(self)@, GeneratorCall::Word),
    {
        let result = self.state.s0.wrapping_add(self.state.s3);
        let result = ((result << 23) | (result >> 41)).wrapping_add(self.state.s0);
        let temporary = self.state.s1 << 17;

        self.state.s2 = self.state.s2 ^ self.state.s0;
        self.state.s3 = self.state.s3 ^ self.state.s1;
        self.state.s1 = self.state.s1 ^ self.state.s2;
        self.state.s0 = self.state.s0 ^ self.state.s3;
        self.state.s2 = self.state.s2 ^ temporary;
        self.state.s3 = (self.state.s3 << 45) | (self.state.s3 >> 19);
        result
    }

    /// Creates a deterministic child generator from the original seed and `key`.
    pub fn fork(&self, key: u64) -> (child: Self)
        ensures
            child@ == forked(self@.seed, key),
    {
        let mut key_mixer = key;
        let mixed_key = split_mix64(&mut key_mixer);
        let mut seed_mixer = self.seed ^ mixed_key;
        Self::new(split_mix64(&mut seed_mixer))
    }

    /// Generates a boolean with equal probability for either value.
    pub fn bool(&mut self) -> (value: bool)
        ensures
            value == (drawn(old(self)@, GeneratorCall::Word)[0] % 2 == 1),
            value == (old(self)@.state.output() % 2 == 1),
            final(self)@ == next_view(old(self)@, GeneratorCall::Word),
    {
        let word = self.u64();
        assert((word & 1 != 0) == (word % 2 == 1)) by (bit_vector);
        word & 1 != 0
    }

    /// Generates an unsigned 8-bit integer.
    pub fn u8(&mut self) -> (value: u8)
        ensures
            value as int == drawn(old(self)@, GeneratorCall::Word)[0] % 0x100,
            value == old(self)@.state.output() % 0x100,
            final(self)@ == next_view(old(self)@, GeneratorCall::Word),
    {
        let word = self.u64();
        assert(word as u8 == word % 0x100) by (bit_vector);
        word as u8
    }

    /// Generates an unsigned 16-bit integer.
    pub fn u16(&mut self) -> (value: u16)
        ensures
            value as int == drawn(old(self)@, GeneratorCall::Word)[0] % 0x1_0000,
            value == old(self)@.state.output() % 0x1_0000,
            final(self)@ == next_view(old(self)@, GeneratorCall::Word),
    {
        let word = self.u64();
        assert(word as u16 == word % 0x1_0000) by (bit_vector);
        word as u16
    }

    /// Generates an unsigned 32-bit integer.
    pub fn u32(&mut self) -> (value: u32)
        ensures
            value as int == drawn(old(self)@, GeneratorCall::Word)[0] % 0x1_0000_0000,
            value == old(self)@.state.output() % 0x1_0000_0000,
            final(self)@ == next_view(old(self)@, GeneratorCall::Word),
    {
        let word = self.u64();
        assert(word as u32 == word % 0x1_0000_0000) by (bit_vector);
        word as u32
    }

    /// Generates an unsigned 128-bit integer from two consecutive words, the
    /// first one in the high half.
    pub fn u128(&mut self) -> (value: u128)
        ensures
            value as int == drawn(old(self)@, GeneratorCall::DoubleWord)[0] * 0x1_0000_0000_0000_0000int + drawn(old(self)@, GeneratorCall::DoubleWord)[1],
            value == old(self)@.state.output() * 0x1_0000_0000_0000_0000int
                + old(self)@.state.step().output(),
            final(self)@ == next_view(old(self)@, GeneratorCall::DoubleWord),
    {
        let high = self.u64();
        let low = self.u64();
        assert(((high as u128) << 64u128) | (low as u128) == (high as u128)
            * 0x1_0000_0000_0000_0000u128 + (low as u128)) by (bit_vector);
        ((high as u128) << 64) | (low as u128)
    }

    /// Generates an unsigned pointer-sized integer.
    pub fn usize(&mut self) -> (value: usize)
        ensures
            value == #[verifier::truncate] (drawn(old(self)@, GeneratorCall::Word)[0] as usize),
            value == #[verifier::truncate] (old(self)@.state.output() as usize),
            final(self)@ == next_view(old(self)@, GeneratorCall::Word),
    {
        let word = self.u64();
        #[verifier::truncate]
        (word as usize)
    }

    /// Generates a signed 8-bit integer.
    pub fn i8(&mut self) -> (value: i8)
        ensures
            value as int == two_complement(drawn(old(self)@, GeneratorCall::Word)[0] % 0x100, 0x100),
            value == two_complement((old(self)@.state.output() as int) % 0x100, 0x100),
            final(self)@ == next_view(old(self)@, GeneratorCall::Word),
    {
        let byte = self.u8();
        assert(byte as i8 == two_complement(byte as int, 0x100)) by (bit_vector);
        byte as i8
    }

    /// Generates a signed 16-bit integer.
    pub fn i16(&mut self) -> (value: i16)
        ensures
            value as int == two_complement(drawn(old(self)@, GeneratorCall::Word)[0] % 0x1_0000, 0x1_0000),
            value == two_complement((old(self)@.state.output() as int) % 0x1_0000, 0x1_0000),
            final(self)@ == next_view(old(self)@, GeneratorCall::Word),
    {
        let half = self.u16();
        assert(half as i16 == two_complement(half as int, 0x1_0000)) by (bit_vector);
        half as i16
    }

    /// Generates a signed 32-bit integer.
    pub fn i32(&mut self) -> (value: i32)
        ensures
            value as int == two_complement(drawn(old(self)@, GeneratorCall::Word)[0] % 0x1_0000_0000, 0x1_0000_0000),
            value == two_complement((old(self)@.state.output() as int) % 0x1_0000_0000, 0x1_0000_0000),
            final(self)@ == next_view(old(self)@, GeneratorCall::Word),
    {
        let word = self.u32();
        assert(word as i32 == two_complement(word as int, 0x1_0000_0000)) by (bit_vector);
        word as i32
    }

    /// Generates a signed 64-bit integer.
    pub fn i64(&mut self) -> (value: i64)
        ensures
            value as int == two_complement(drawn(old(self)@, GeneratorCall::Word)[0], 0x1_0000_0000_0000_0000int),
            value == two_complement(old(self)@.state.output() as int, 0x1_0000_0000_0000_0000int),
            final(self)@ == next_view(old(self)@, GeneratorCall::Word),
    {
        let word = self.u64();
        assert(word as i64 == two_complement(word as int, 0x1_0000_0000_0000_0000int)) by (bit_vector);
        word as i64
    }

    /// Generates a signed 128-bit integer.
    pub fn i128(&mut self) -> (value: i128)
        ensures
            value as int == two_complement(drawn(old(self)@, GeneratorCall::DoubleWord)[0] * 0x1_0000_0000_0000_0000int + drawn(old(self)@, GeneratorCall::DoubleWord)[1], 0x1_0000_0000_0000_0000_0000_0000_0000_0000int),
            value == two_complement(
                old(self)@.state.output() * 0x1_0000_0000_0000_0000int
                    + old(self)@.state.step().output(),
                0x1_0000_0000_0000_0000_0000_0000_0000_0000int,
            ),
            final(self)@ == next_view(old(self)@, GeneratorCall::DoubleWord),
    {
        let wide = self.u128();
        assert(wide as i128 == two_complement(wide as int, 0x1_0000_0000_0000_0000_0000_0000_0000_0000int))
            by (bit_vector);
        wide as i128
    }

    /// Generates a signed pointer-sized integer.
    pub fn isize(&mut self) -> (value: isize)
        ensures
            value == #[verifier::truncate] (#[verifier::truncate] (drawn(old(self)@, GeneratorCall::Word)[0] as usize) as isize),
            value == #[verifier::truncate] (#[verifier::truncate] (old(self)@.state.output() as usize) as isize),
            final(self)@ == next_view(old(self)@, GeneratorCall::Word),
    {
        let word = self.usize();
        #[verifier::truncate]
        (word as isize)
    }

    /// Draws words until one is at least `2^64 mod bound` and returns it
    /// reduced modulo `bound`, which makes every result equally likely.
    fn bounded_u64(&mut self, bound: u64) -> (value: u64)
        requires
            bound > 0,
        ensures
            value < bound,
            value == bounded_sample(old(self)@.state, bound).0,
            final(self)@ == (RandomView {
                seed: old(self)@.seed,
                state: bounded_sample(old(self)@.state, bound).1,
            }),
    {
        let threshold = 0u64.wrapping_sub(bound) % bound;
        let mut budget: u64 = DRAW_BUDGET;
        let ghost start = self@;
        loop
            invariant
                bound > 0,
                start == old(self)@,
                threshold == rejection_threshold(bound),
                self@.seed == start.seed,
                bounded_with_budget(self@.state, bound, budget as nat) == bounded_sample(
                    start.state,
                    bound,
                ),
            decreases budget,
        {
            let ghost before = self@.state;
            let value = self.u64();
            assert(bounded_with_budget(before, bound, budget as nat) == if value >= threshold
                || budget == 0 {
                ((value % bound) as u64, before.step())
            } else {
                bounded_with_budget(before.step(), bound, (budget - 1) as nat)
            });
            if value >= threshold || budget == 0 {
                return value % bound;
            }
            budget = budget - 1;
        }
    }

    /// Generates a uniformly distributed value in `range`.
    pub fn range_u32(&mut self, range: std::ops::Range<u32>) -> (value: u32)
        requires
            range.start < range.end,
        ensures
            value as int == range.start + drawn(
                old(self)@,
                GeneratorCall::Bounded((range.end - range.start) as u64),
            )[0],
            range.start <= value < range.end,
            value == range.start + bounded_sample(
                old(self)@.state,
                (range.end - range.start) as u64,
            ).0,
            final(self)@ == next_view(
                old(self)@,
                GeneratorCall::Bounded((range.end - range.start) as u64),
            ),
    {
        range.start + self.bounded_u64((range.end - range.start) as u64) as u32
    }

    /// Generates a uniformly distributed value in `range`.
    pub fn range_u64(&mut self, range: std::ops::Range<u64>) -> (value: u64)
        requires
            range.start < range.end,
        ensures
            value as int == range.start + drawn(
                old(self)@,
                GeneratorCall::Bounded((range.end - range.start) as u64),
            )[0],
            range.start <= value < range.end,
            value == range.start + bounded_sample(old(self)@.state, (range.end - range.start) as u64).0,
            final(self)@ == next_view(
                old(self)@,
                GeneratorCall::Bounded((range.end - range.start) as u64),
            ),
    {
        range.start + self.bounded_u64(range.end - range.start)
    }

    /// Generates a uniformly distributed value in `range`.
    pub fn range_usize(&mut self, range: std::ops::Range<usize>) -> (value: usize)
        requires
            range.start < range.end,
        ensures
            value as int == range.start + drawn(
                old(self)@,
                GeneratorCall::Bounded((range.end - range.start) as u64),
            )[0],
            range.start <= value < range.end,
            value == range.start + bounded_sample(
                old(self)@.state,
                (range.end - range.start) as u64,
            ).0,
            final(self)@ == next_view(
                old(self)@,
                GeneratorCall::Bounded((range.end - range.start) as u64),
            ),
    {
        range.start + self.bounded_u64((range.end - range.start) as u64) as usize
    }

    /// Generates a uniformly distributed value in `range`.
    pub fn range_i32(&mut self, range: std::ops::Range<i32>) -> (value: i32)
        requires
            range.start < range.end,
        ensures
            value as int == range.start + drawn(
                old(self)@,
                GeneratorCall::Bounded((range.end - range.start) as u64),
            )[0],
            range.start <= value < range.end,
            value == range.start + bounded_sample(
                old(self)@.state,
                (range.end - range.start) as u64,
            ).0,
            final(self)@ == next_view(
                old(self)@,
                GeneratorCall::Bounded((range.end - range.start) as u64),
            ),
    {
        let width = (range.end as i64 - range.start as i64) as u64;
        (range.start as i64 + self.bounded_u64(width) as i64) as i32
    }

    /// Generates a uniformly distributed value in `range`.
    pub fn range_i64(&mut self, range: std::ops::Range<i64>) -> (value: i64)
        requires
            range.start < range.end,
        ensures
            value as int == range.start + drawn(
                old(self)@,
                GeneratorCall::Bounded((range.end - range.start) as u64),
            )[0],
            range.start <= value < range.end,
            value == range.start + bounded_sample(
                old(self)@.state,
                (range.end - range.start) as u64,
            ).0,
            final(self)@ == next_view(
                old(self)@,
                GeneratorCall::Bounded((range.end - range.start) as u64),
            ),
    {
        let width = (range.end as i128 - range.start as i128) as u64;
        (range.start as i128 + self.bounded_u64(width) as i128) as i64
    }

    /// Generates the numerator of a value in `0.0..1.0` with denominator
    /// `2^24`: the top 24 bits of the next word.
    pub fn unit_numerator_24(&mut self) -> (numerator: u32)
        ensures
            numerator as int == drawn(old(self)@, GeneratorCall::Word)[0] / 0x100_0000_0000,
            numerator == old(self)@.state.output() >> 40u64,
            numerator < 0x100_0000,
            final(self)@ == next_view(old(self)@, GeneratorCall::Word),
    {
        let word = self.u64();
        assert(word >> 40u64 < 0x100_0000) by (bit_vector);
        assert(word >> 40u64 == word / 0x100_0000_0000) by (bit_vector);
        (word >> 40) as u32
    }

    /// Generates the numerator of a value in `0.0..1.0` with denominator
    /// `2^53`: the top 53 bits of the next word.
    pub fn unit_numerator_53(&mut self) -> (numerator: u64)
        ensures
            numerator as int == drawn(old(self)@, GeneratorCall::Word)[0] / 0x800,
            numerator == old(self)@.state.output() >> 11u64,
            numerator < 0x20_0000_0000_0000,
            final(self)@ == next_view(old(self)@, GeneratorCall::Word),
    {
        let word = self.u64();
        assert(word >> 11u64 < 0x20_0000_0000_0000) by (bit_vector);
        assert(word >> 11u64 == word / 0x800) by (bit_vector);
        word >> 11
    }

    /// Chooses one value, or returns `None` when the slice is empty.
    pub fn choose_one<'a, T>(&mut self, values: &'a [T]) -> (chosen: Option<&'a T>)
        ensures
            values@.len() == 0 ==> chosen is None && final(self)@ == old(self)@,
            values@.len() > 0 ==> {
                let (index, after) = bounded_sample(old(self)@.state, values@.len() as u64);
                &&& chosen matches Some(item) && *item == values@[index as int]
                &&& *chosen->0 == values@[drawn(
                    old(self)@,
                    GeneratorCall::Bounded(values@.len() as u64),
                )[0]]
                &&& final(self)@ == (RandomView { seed: old(self)@.seed, state: after })
                &&& final(self)@ == next_view(old(self)@, GeneratorCall::Bounded(values@.len() as u64))
            },
    {
        if values.len() == 0 {
            None
        } else {
            let index = self.range_usize(0..values.len());
            Some(&values[index])
        }
    }

    /// Chooses one mutable value, or returns `None` when the slice is empty.
    pub fn choose_mut<'a, T>(&mut self, values: &'a mut [T]) -> (chosen: Option<&'a mut T>)
        ensures
            old(values)@.len() == 0 ==> chosen is None && final(self)@ == old(self)@
                && final(values)@ == old(values)@,
            old(values)@.len() > 0 ==> {
                let (index, after) = bounded_sample(old(self)@.state, old(values)@.len() as u64);
                &&& chosen is Some
                &&& *chosen->0 == old(values)@[index as int]
                &&& *chosen->0 == old(values)@[drawn(
                    old(self)@,
                    GeneratorCall::Bounded(old(values)@.len() as u64),
                )[0]]
                &&& final(values)@ == old(values)@.update(index as int, *final(chosen->0))
                &&& final(self)@ == (RandomView { seed: old(self)@.seed, state: after })
                &&& final(self)@ == next_view(
                    old(self)@,
                    GeneratorCall::Bounded(old(values)@.len() as u64),
                )
            },
    {
        if values.len() == 0 {
            None
        } else {
            let index = self.range_usize(0..values.len());
            Some(&mut values[index])
        }
    }

    /// Chooses up to `amount` distinct values without changing their slice.
    pub fn choose_multiple<'a, T>(&mut self, values: &'a [T], amount: usize) -> (chosen: Vec<&'a T>)
        ensures
            chosen@.len() == picked_positions(old(self)@.state, values@.len(), amount as nat).len(),
            chosen@.len() == if amount < values@.len() {
                amount as nat
            } else {
                values@.len()
            },
            forall|k: int|
                0 <= k < chosen@.len() ==> picked_positions(old(self)@.state, values@.len(), amount as nat)[k]
                    < values@.len() && *#[trigger] chosen@[k] == values@[picked_positions(
                    old(self)@.state,
                    values@.len(),
                    amount as nat,
                )[k] as int],
            forall|k: int, l: int|
                #![trigger picked_positions(old(self)@.state, values@.len(), amount as nat)[k], picked_positions(old(self)@.state, values@.len(), amount as nat)[l]]
                0 <= k < l < chosen@.len() ==> picked_positions(old(self)@.state, values@.len(), amount as nat)[k]
                    != picked_positions(old(self)@.state, values@.len(), amount as nat)[l],
            final(self)@ == (RandomView {
                seed: old(self)@.seed,
                state: selected_positions(old(self)@.state, values@.len(), amount as nat).1,
            }),
            final(self)@ == next_view(old(self)@, GeneratorCall::Select(values@.len() as usize, amount)),
            forall|k: int|
                0 <= k < chosen@.len() ==> *#[trigger] chosen@[k] == values@[drawn(
                    old(self)@,
                    GeneratorCall::Select(values@.len() as usize, amount),
                )[k]],
    {
        let count = if amount < values.len() {
            amount
        } else {
            values.len()
        };
        let len = values.len();
        let mut positions: Vec<usize> = Vec::new();
        let mut position: usize = 0;
        while position < len
            invariant
                position <= len,
                len == values@.len(),
                positions@ == identity_positions(len as nat).take(position as int),
            decreases len - position,
        {
            positions.push(position);
            position = position + 1;
            assert(positions@ =~= identity_positions(len as nat).take(position as int));
        }
        assert(positions@ =~= identity_positions(len as nat));
        assert(is_arrangement(positions@, len as nat));
        let ghost start = self@;
        let mut index: usize = 0;
        while index < count
            invariant
                start == old(self)@,
                count <= len,
                len == values@.len(),
                index <= count,
                self@.seed == start.seed,
                is_arrangement(positions@, len as nat),
                selection_passes(self@.state, positions@, index as nat, count as nat)
                    == selection_passes(start.state, identity_positions(len as nat), 0, count as nat),
            decreases count - index,
        {
            let ghost before = self@.state;
            let ghost arranged = positions@;
            let selected = self.range_usize(index..len);
            let moved = positions[selected];
            let kept = positions[index];
            positions.set(index, moved);
            positions.set(selected, kept);
            proof {
                assert(positions@ == swapped(arranged, index as int, selected as int));
                lemma_selection_keeps_arrangement(before, arranged, index as nat, (index + 1) as nat);
            }
            index = index + 1;
        }
        proof {
            lemma_selection_keeps_arrangement(
                start.state,
                identity_positions(len as nat),
                0,
                count as nat,
            );
        }
        let mut chosen: Vec<&'a T> = Vec::new();
        let mut k: usize = 0;
        while k < count
            invariant
                k <= count,
                count <= len,
                len == values@.len(),
                is_arrangement(positions@, len as nat),
                chosen@.len() == k,
                forall|m: int| 0 <= m < k ==> *chosen@[m] == values@[positions@[m] as int],
            decreases count - k,
        {
            chosen.push(&values[positions[k]]);
            k = k + 1;
        }
        chosen
    }

    /// Randomly permutes a slice in place.
    pub fn shuffle<T>(&mut self, values: &mut [T])
        ensures
            (final(values)@, final(self)@.state) == shuffled(old(self)@.state, old(values)@),
            final(values)@.to_multiset() == old(values)@.to_multiset(),
            final(self)@.seed == old(self)@.seed,
            final(self)@ == next_view(old(self)@, GeneratorCall::Shuffle(old(values)@.len() as usize)),
            forall|i: int|
                0 <= i < old(values)@.len() ==> #[trigger] final(values)@[i] == old(values)@[drawn(
                    old(self)@,
                    GeneratorCall::Shuffle(old(values)@.len() as usize),
                )[i]],
    {
        let len = values.len();
        proof {
            if len > 0 {
                lemma_shuffle_state_ignores_items(
                    old(self)@.state,
                    old(values)@,
                    identity_positions(len as nat),
                    (len - 1) as nat,
                );
                lemma_shuffle_follows_positions(
                    old(self)@.state,
                    old(values)@,
                    identity_positions(len as nat),
                    old(values)@,
                    (len - 1) as nat,
                );
            }
        }
        if len == 0 {
            return;
        }
        proof {
            lemma_shuffle_passes_keep_items(old(self)@.state, old(values)@, (len - 1) as nat);
        }
        let ghost start = self@;
        let ghost items = values@;
        let mut end: usize = len - 1;
        while end > 0
            invariant
                start == old(self)@,
                items == old(values)@,
                len == values@.len(),
                end < len,
                self@.seed == start.seed,
                shuffle_passes(self@.state, values@, end as nat) == shuffle_passes(
                    start.state,
                    items,
                    (len - 1) as nat,
                ),
            decreases end,
        {
            let selected = self.range_usize(0..end + 1);
            values.swap(end, selected);
            end = end - 1;
        }
    }
}

/// Creates a deterministic generator with seed zero.
pub fn random() -> (generator: Random)
    ensures
        generator@ == seeded_generator(0),
{
    Random::new(0)
}

} // verus!
