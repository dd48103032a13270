use vstd::prelude::*;

verus! {

/// One step of the 64-bit xorshift generator (shifts 13, 7 and 17).
pub open spec fn xorshift_step(state: u64) -> u64 {
    let a = state ^ (state << 13u64);
    let b = a ^ (a >> 7u64);
    b ^ (b << 17u64)
}

/// A non-zero state stays non-zero after a step, so the generator never
/// falls into the all-zero fixed point.
pub proof fn lemma_xorshift_step_nonzero(state: u64)
    requires
        state != 0,
    ensures
        xorshift_step(state) != 0,
{
    let a = state ^ (state << 13u64);
    let b = a ^ (a >> 7u64);
    assert(state != 0 ==> (state ^ (state << 13u64)) != 0) by (bit_vector);
    assert(a != 0 ==> (a ^ (a >> 7u64)) != 0) by (bit_vector);
    assert(b != 0 ==> (b ^ (b << 17u64)) != 0) by (bit_vector);
}

/// `x ^ (x << 13)` is undone by xoring in the further shifts by 13.
proof fn lemma_undo_shift_left_13(x: u64)
    by (bit_vector)
    ensures
        ({
            let y = x ^ (x << 13u64);
            y ^ (y << 13u64) ^ (y << 26u64) ^ (y << 39u64) ^ (y << 52u64) == x
        }),
{
}

/// `x ^ (x >> 7)` is undone by xoring in the further shifts by 7.
proof fn lemma_undo_shift_right_7(x: u64)
    by (bit_vector)
    ensures
        ({
            let y = x ^ (x >> 7u64);
            y ^ (y >> 7u64) ^ (y >> 14u64) ^ (y >> 21u64) ^ (y >> 28u64) ^ (y >> 35u64) ^ (y
                >> 42u64) ^ (y >> 49u64) ^ (y >> 56u64) ^ (y >> 63u64) == x
        }),
{
}

/// `x ^ (x << 17)` is undone by xoring in the further shifts by 17.
proof fn lemma_undo_shift_left_17(x: u64)
    by (bit_vector)
    ensures
        ({
            let y = x ^ (x << 17u64);
            y ^ (y << 17u64) ^ (y << 34u64) ^ (y << 51u64) == x
        }),
{
}

/// The xorshift step is a permutation of the 64-bit states: distinct states
/// always step to distinct states, so no two seeds merge into one stream.
pub proof fn lemma_xorshift_step_injective(x: u64, y: u64)
    requires
        xorshift_step(x) == xorshift_step(y),
    ensures
        x == y,
{
    let ax = x ^ (x << 13u64);
    let bx = ax ^ (ax >> 7u64);
    let ay = y ^ (y << 13u64);
    let by_ = ay ^ (ay >> 7u64);
    lemma_undo_shift_left_17(bx);
    lemma_undo_shift_left_17(by_);
    assert(bx == by_);
    lemma_undo_shift_right_7(ax);
    lemma_undo_shift_right_7(ay);
    assert(ax == ay);
    lemma_undo_shift_left_13(x);
    lemma_undo_shift_left_13(y);
}

/// The generator seeded with 4 starts its stream with the samples
/// 34111748, 805327110 and 2854015012.
pub proof fn lemma_seed_four_samples()
    ensures
        xorshift_step(4) as u32 == 34111748u32,
        xorshift_step(xorshift_step(4)) as u32 == 805327110u32,
        xorshift_step(xorshift_step(xorshift_step(4))) as u32 == 2854015012u32,
{
    assert(xorshift_step(4) == 4329079044u64) by (bit_vector);
    assert(xorshift_step(4329079044u64) == 4611971995335151878u64) by (bit_vector);
    assert(xorshift_step(4611971995335151878u64) == 7816862149684023332u64) by (bit_vector);
    assert(4329079044u64 as u32 == 34111748u32) by (bit_vector);
    assert(4611971995335151878u64 as u32 == 805327110u32) by (bit_vector);
    assert(7816862149684023332u64 as u32 == 2854015012u32) by (bit_vector);
}

/// A small deterministic pseudo-random generator; equal seeds give equal
/// streams of samples.
#[derive(Debug)]
pub struct XorShift64 {
    state: u64,
}

impl Clone for XorShift64 {
    fn clone(&self) -> (copy: Self)
        ensures
            copy@ == self@,
    {
        proof {
            use_type_invariant(self);
        }
        XorShift64 { state: self.state }
    }
}

impl View for XorShift64 {
    type V = u64;

    closed spec fn view(&self) -> u64 {
        self.state
    }
}

impl XorShift64 {
    #[verifier::type_invariant]
    spec fn state_is_nonzero(self) -> bool {
        self.state != 0
    }

    /// A generator seeded with `seed`; a zero seed is replaced by one.
    pub fn new(seed: u64) -> (generator: Self)
        ensures
            generator@ == if seed == 0 { 1 } else { seed },
    {
        XorShift64 { state: if seed > 1 { seed } else { 1 } }
    }

    /// Advances the generator and returns the low 32 bits of the new state.
    pub fn next_u32(&mut self) -> (sample: u32)
        ensures
            final(self)@ == xorshift_step(old(self)@),
            sample == xorshift_step(old(self)@) as u32,
            final(self)@ != 0,
    {
        proof {
            use_type_invariant(&*self);
            lemma_xorshift_step_nonzero(self.state);
        }
        let mut state = self.state;
        state = state ^ (state << 13u64);
        state = state ^ (state >> 7u64);
        state = state ^ (state << 17u64);
        self.state = state;
        state as u32
    }
}

/// Number of visible boids among the first `n` flags.
pub open spec fn visible_before(flags: Seq<bool>, n: int) -> int
    decreases n,
{
    if n <= 0 {
        0
    } else {
        visible_before(flags, n - 1) + if flags[n - 1] { 1int } else { 0int }
    }
}

/// Number of hidden boids among the first `n` flags.
pub open spec fn hidden_before(flags: Seq<bool>, n: int) -> int {
    n - visible_before(flags, n)
}

/// Number of boids whose target is to be visible.
pub open spec fn visible_count(flags: Seq<bool>) -> int {
    visible_before(flags, flags.len() as int)
}

/// The first `need` hidden boids, in order, become visible again.
pub open spec fn reactivated(flags: Seq<bool>, need: int) -> Seq<bool> {
    Seq::new(flags.len(), |i: int| flags[i] || hidden_before(flags, i) < need)
}

/// Only the first `target` visible boids stay visible; later ones start
/// fading out.
pub open spec fn kept_visible(flags: Seq<bool>, target: int) -> Seq<bool> {
    Seq::new(flags.len(), |i: int| flags[i] && visible_before(flags, i + 1) <= target)
}

/// Target-visibility flags after the population is reconciled with
/// `target`: hidden boids are reused before new ones are made, and surplus
/// boids are hidden from the back of the flock.
pub open spec fn reconciled(flags: Seq<bool>, target: int) -> Seq<bool> {
    let active = visible_count(flags);
    if active < target {
        reactivated(flags, target - active)
    } else if active > target {
        kept_visible(flags, target)
    } else {
        flags
    }
}

/// Number of new boids needed after reusing every hidden one.
pub open spec fn spawn_count(flags: Seq<bool>, target: int) -> int {
    if flags.len() < target {
        target - flags.len()
    } else {
        0
    }
}

/// Counts move by at most one per flag and never exceed the prefix length.
pub proof fn lemma_visible_before_bounds(flags: Seq<bool>, m: int, n: int)
    requires
        0 <= m <= n <= flags.len(),
    ensures
        0 <= visible_before(flags, m) <= visible_before(flags, n),
        visible_before(flags, n) - visible_before(flags, m) <= n - m,
    decreases n,
{
    if n > m {
        lemma_visible_before_bounds(flags, m, n - 1);
    } else if m > 0 {
        lemma_visible_before_bounds(flags, m - 1, m - 1);
    }
}

proof fn lemma_reactivated_prefix(flags: Seq<bool>, need: int, n: int)
    requires
        0 <= n <= flags.len(),
        need >= 0,
    ensures
        visible_before(reactivated(flags, need), n) == visible_before(flags, n) + if hidden_before(
            flags,
            n,
        ) < need {
            hidden_before(flags, n)
        } else {
            need
        },
    decreases n,
{
    if n > 0 {
        lemma_reactivated_prefix(flags, need, n - 1);
        lemma_visible_before_bounds(flags, n - 1, n - 1);
        assert(reactivated(flags, need)[n - 1] == (flags[n - 1] || hidden_before(flags, n - 1)
            < need));
    }
}

proof fn lemma_kept_visible_prefix(flags: Seq<bool>, target: int, n: int)
    requires
        0 <= n <= flags.len(),
        target >= 0,
    ensures
        visible_before(kept_visible(flags, target), n) == if visible_before(flags, n) < target {
            visible_before(flags, n)
        } else {
            target
        },
    decreases n,
{
    if n > 0 {
        lemma_kept_visible_prefix(flags, target, n - 1);
        assert(kept_visible(flags, target)[n - 1] == (flags[n - 1] && visible_before(flags, n)
            <= target));
    }
}

/// After reconciliation, the visible boids and the new ones together make
/// exactly the target population.
pub proof fn lemma_reconciled_reaches_target(flags: Seq<bool>, target: int)
    requires
        target >= 0,
    ensures
        reconciled(flags, target).len() == flags.len(),
        visible_count(reconciled(flags, target)) + spawn_count(flags, target) == target,
{
    let active = visible_count(flags);
    lemma_visible_before_bounds(flags, 0, flags.len() as int);
    if active < target {
        lemma_reactivated_prefix(flags, target - active, flags.len() as int);
    } else if active > target {
        lemma_kept_visible_prefix(flags, target, flags.len() as int);
    }
}

/// Counts the boids whose target is to be visible.
pub fn count_visible(flags: &[bool]) -> (count: usize)
    ensures
        count == visible_count(flags@),
{
    let length = flags.len();
    let mut count: usize = 0;
    let mut index: usize = 0;
    while index < length
        invariant
            length == flags@.len(),
            index <= length,
            count == visible_before(flags@, index as int),
            count <= index,
        decreases length - index,
    {
        if flags[index] {
            count += 1;
        }
        index += 1;
    }
    count
}

/// Marks boids visible or hidden so that `target` of them aim to be
/// visible, and returns how many new boids must be added to get there.
/// Existing boids are never removed or reordered here, so a boid that is
/// hidden and later shown again keeps its colour and position.
pub fn reconcile_population(flags: &mut Vec<bool>, target: usize) -> (spawned: usize)
    ensures
        final(flags)@ == reconciled(old(flags)@, target as int),
        spawned == spawn_count(old(flags)@, target as int),
        visible_count(final(flags)@) + spawned == target,
{
    let ghost initial = flags@;
    let length = flags.len();
    let mut active = count_visible(flags.as_slice());
    proof {
        lemma_reconciled_reaches_target(initial, target as int);
        lemma_visible_before_bounds(initial, 0, length as int);
    }
    if active < target {
        let ghost need = target - active;
        let mut index: usize = 0;
        while index < length && active < target
            invariant
                length == initial.len(),
                flags@.len() == length,
                index <= length,
                need == target - visible_count(initial),
                active - visible_count(initial) == hidden_before(initial, index as int),
                active <= target,
                forall|k: int|
                    #![trigger flags@[k]]
                    0 <= k < index ==> flags@[k] == (initial[k] || hidden_before(initial, k)
                        < need),
                forall|k: int| index <= k < length ==> flags@[k] == initial[k],
            decreases length - index,
        {
            assert(hidden_before(initial, index as int) < need);
            if !flags[index] {
                flags[index] = true;
                active += 1;
            }
            assert(flags@[index as int] == (initial[index as int] || hidden_before(
                initial,
                index as int,
            ) < need));
            index += 1;
        }
        proof {
            assert forall|k: int| index <= k < length implies !(hidden_before(initial, k)
                < need) by {
                lemma_visible_before_bounds(initial, index as int, k);
            }
            assert(flags@ =~= reconciled(initial, target as int));
            if index == length {
                lemma_visible_before_bounds(initial, 0, length as int);
            } else {
                lemma_visible_before_bounds(initial, index as int, length as int);
            }
        }
        target - active
    } else {
        if active > target {
            let mut kept: usize = 0;
            let mut index: usize = 0;
            while index < length
                invariant
                    length == initial.len(),
                    flags@.len() == length,
                    index <= length,
                    kept == if visible_before(initial, index as int) < target {
                        visible_before(initial, index as int)
                    } else {
                        target as int
                    },
                    forall|k: int|
                        0 <= k < index ==> flags@[k] == (initial[k] && visible_before(
                            initial,
                            k + 1,
                        ) <= target),
                    forall|k: int| index <= k < length ==> flags@[k] == initial[k],
                decreases length - index,
            {
                if flags[index] {
                    if kept < target {
                        kept += 1;
                    } else {
                        flags[index] = false;
                    }
                }
                index += 1;
            }
            assert(flags@ =~= reconciled(initial, target as int));
        }
        0
    }
}

/// The flags of the flock once `spawned` new, visible boids are appended.
pub open spec fn with_new_boids(flags: Seq<bool>, spawned: int) -> Seq<bool> {
    flags + Seq::new(spawned as nat, |i: int| true)
}

proof fn lemma_visible_before_append(a: Seq<bool>, b: Seq<bool>, n: int)
    requires
        0 <= n <= b.len(),
    ensures
        visible_before(a + b, a.len() + n) == visible_count(a) + visible_before(b, n),
    decreases n,
{
    if n > 0 {
        lemma_visible_before_append(a, b, n - 1);
        assert((a + b)[a.len() + n - 1] == b[n - 1]);
    } else {
        lemma_visible_before_prefix(a, b, a.len() as int);
    }
}

proof fn lemma_visible_before_prefix(a: Seq<bool>, b: Seq<bool>, m: int)
    requires
        0 <= m <= a.len(),
    ensures
        visible_before(a + b, m) == visible_before(a, m),
    decreases m,
{
    if m > 0 {
        lemma_visible_before_prefix(a, b, m - 1);
        assert((a + b)[m - 1] == a[m - 1]);
    }
}

proof fn lemma_all_visible(n: int)
    requires
        n >= 0,
    ensures
        visible_count(Seq::new(n as nat, |i: int| true)) == n,
    decreases n,
{
    let all = Seq::new(n as nat, |i: int| true);
    assert forall|m: int| 0 <= m <= n implies visible_before(all, m) == m by {
        lemma_all_visible_prefix(n, m);
    }
}

proof fn lemma_all_visible_prefix(n: int, m: int)
    requires
        0 <= m <= n,
    ensures
        visible_before(Seq::new(n as nat, |i: int| true), m) == m,
    decreases m,
{
    if m > 0 {
        lemma_all_visible_prefix(n, m - 1);
    }
}

/// Once the new boids are added, reconciling again with the same target
/// changes nothing and asks for no more boids: reconciliation settles in
/// one call.
pub proof fn lemma_reconcile_settles(flags: Seq<bool>, target: int)
    requires
        target >= 0,
    ensures
        ({
            let settled = with_new_boids(
                reconciled(flags, target),
                spawn_count(flags, target),
            );
            &&& reconciled(settled, target) == settled
            &&& spawn_count(settled, target) == 0
        }),
{
    let recon = reconciled(flags, target);
    let spawned = spawn_count(flags, target);
    let fresh = Seq::new(spawned as nat, |i: int| true);
    lemma_reconciled_reaches_target(flags, target);
    lemma_visible_before_append(recon, fresh, spawned);
    lemma_all_visible(spawned);
}

/// Largest number of boids the current simulation keeps.
pub const MAX_BOIDS: usize = 1_000;

/// Largest number of beat ripples alive at once (a main ring and two
/// trailing rings for each of the latest beats).
pub const MAX_ACTIVE_RIPPLES: usize = 18;

/// Largest number of fixed simulation steps run for one rendered frame.
pub const MAX_FIXED_STEPS_PER_FRAME: usize = 4;

/// `index` holds the visible boid with `rank` visible boids before it.
pub open spec fn is_ranked_visible(flags: Seq<bool>, index: int, rank: int) -> bool {
    &&& 0 <= index < flags.len()
    &&& flags[index]
    &&& visible_before(flags, index) == rank
}

/// The rank a random draw selects, kept below the number of visible boids.
pub open spec fn clamped_rank(draw: int, visible: int) -> int {
    if draw < visible - 1 {
        draw
    } else {
        visible - 1
    }
}

/// A draw below the number of visible boids selects its own rank; any larger
/// draw selects the last visible boid.
pub proof fn lemma_clamped_rank(draw: int, visible: int)
    requires
        0 <= draw,
        0 < visible,
    ensures
        draw < visible ==> clamped_rank(draw, visible) == draw,
        draw >= visible ==> clamped_rank(draw, visible) == visible - 1,
        0 <= clamped_rank(draw, visible) < visible,
{
}

/// At most one boid holds a given rank among the visible boids.
pub proof fn lemma_ranked_visible_unique(flags: Seq<bool>, first: int, second: int, rank: int)
    requires
        is_ranked_visible(flags, first, rank),
        is_ranked_visible(flags, second, rank),
    ensures
        first == second,
{
    if first < second {
        lemma_visible_before_bounds(flags, first + 1, second);
    } else if second < first {
        lemma_visible_before_bounds(flags, second + 1, first);
    }
}

/// Picks the boid a new beat ripple starts from: the visible boid whose rank
/// among visible boids is `draw`, or the last visible boid when `draw` is too
/// large. There is no origin when no boid is visible.
pub fn ripple_origin(flags: &[bool], draw: usize) -> (origin: Option<usize>)
    ensures
        origin is None <==> visible_count(flags@) == 0,
        origin matches Some(index) ==> is_ranked_visible(
            flags@,
            index as int,
            clamped_rank(draw as int, visible_count(flags@)),
        ),
        origin matches Some(index) ==> index < flags@.len() && flags@[index as int],
        origin matches Some(index) ==> (draw < visible_count(flags@) ==> visible_before(
            flags@,
            index as int,
        ) == draw),
        origin matches Some(index) ==> (draw >= visible_count(flags@) ==> visible_before(
            flags@,
            index as int,
        ) == visible_count(flags@) - 1),
{
    let visible = count_visible(flags);
    if visible == 0 {
        return None;
    }
    let rank = if draw < visible - 1 {
        draw
    } else {
        visible - 1
    };
    let length = flags.len();
    let mut seen: usize = 0;
    let mut index: usize = 0;
    while index < length
        invariant
            length == flags@.len(),
            index <= length,
            visible == visible_count(flags@),
            rank < visible,
            rank == clamped_rank(draw as int, visible as int),
            seen == visible_before(flags@, index as int),
            seen <= rank,
        decreases length - index,
    {
        if flags[index] {
            if seen == rank {
                return Some(index);
            }
            seen += 1;
        }
        index += 1;
    }
    None
}

/// Adds a ripple, first dropping the oldest one when `capacity` ripples are
/// already alive.
pub fn push_ripple<T>(ripples: &mut Vec<T>, ripple: T, capacity: usize)
    requires
        capacity > 0,
    ensures
        old(ripples)@.len() == capacity ==> final(ripples)@ == old(ripples)@.drop_first().push(
            ripple,
        ),
        old(ripples)@.len() != capacity ==> final(ripples)@ == old(ripples)@.push(ripple),
        old(ripples)@.len() <= capacity ==> final(ripples)@.len() <= capacity,
{
    if ripples.len() == capacity {
        ripples.remove(0);
    }
    ripples.push(ripple);
}

/// `value + offset` wrapped around a ring of `count` positions.
pub open spec fn wrapped(value: int, offset: int, count: int) -> int {
    (value + offset) % count
}

/// The `k`-th of the nine cells around `cell` (itself included) on a grid
/// that wraps at its edges, in row-major order of the offsets -1, 0 and 1.
pub open spec fn neighbour_candidate(columns: int, rows: int, cell: int, k: int) -> int {
    wrapped(cell / columns, k / 3 - 1, rows) * columns + wrapped(cell % columns, k % 3 - 1, columns)
}

/// All nine candidate neighbours of `cell`, duplicates included.
pub open spec fn neighbour_candidates(columns: int, rows: int, cell: int) -> Seq<int> {
    Seq::new(9, |k: int| neighbour_candidate(columns, rows, cell, k))
}

/// `s` with every repeated value dropped after its first occurrence.
pub open spec fn first_occurrences(s: Seq<int>) -> Seq<int>
    decreases s.len(),
{
    if s.len() == 0 {
        s
    } else {
        let earlier = first_occurrences(s.drop_last());
        if earlier.contains(s.last()) {
            earlier
        } else {
            earlier.push(s.last())
        }
    }
}

/// The cells searched for neighbours of a boid in `cell`: each of the nine
/// surrounding cells once, even on grids too narrow for nine distinct cells.
pub open spec fn neighbour_cells(columns: int, rows: int, cell: int) -> Seq<int> {
    first_occurrences(neighbour_candidates(columns, rows, cell))
}

/// A sequence of cell indices read as integers.
pub open spec fn as_ints(s: Seq<usize>) -> Seq<int> {
    s.map_values(|x: usize| x as int)
}

/// Indices of the boids among the first `n` that are filed under `cell`, in
/// increasing order.
pub open spec fn bucket_before(boid_cells: Seq<Option<usize>>, cell: int, n: int) -> Seq<usize>
    decreases n,
{
    if n <= 0 {
        Seq::empty()
    } else {
        let earlier = bucket_before(boid_cells, cell, n - 1);
        if boid_cells[n - 1] == Some(cell as usize) {
            earlier.push((n - 1) as usize)
        } else {
            earlier
        }
    }
}

/// Indices of all boids filed under `cell`, in increasing order.
pub open spec fn bucket(boid_cells: Seq<Option<usize>>, cell: int) -> Seq<usize> {
    bucket_before(boid_cells, cell, boid_cells.len() as int)
}

proof fn lemma_cell_coordinates(columns: int, rows: int, cell: int)
    requires
        columns > 0,
        rows > 0,
        0 <= cell < columns * rows,
    ensures
        0 <= cell / columns < rows,
        0 <= cell % columns < columns,
        cell == (cell / columns) * columns + cell % columns,
{
    assert(0 <= cell / columns < rows && 0 <= cell % columns < columns && cell == (cell / columns)
        * columns + cell % columns) by (nonlinear_arith)
        requires
            columns > 0,
            rows > 0,
            0 <= cell < columns * rows,
    ;
}

/// Moves `value` by `step - 1` around a ring of `count` positions.
fn step_wrapped(value: usize, step: usize, count: usize) -> (moved: usize)
    requires
        value < count,
        step < 3,
    ensures
        moved == wrapped(value as int, step - 1, count as int),
        moved < count,
{
    proof {
        if step == 0 {
            if value == 0 {
                vstd::arithmetic::div_mod::lemma_fundamental_div_mod_converse(
                    -1,
                    count as int,
                    -1,
                    count - 1,
                );
            } else {
                vstd::arithmetic::div_mod::lemma_fundamental_div_mod_converse(
                    value - 1,
                    count as int,
                    0,
                    value - 1,
                );
            }
        } else if step == 1 {
            vstd::arithmetic::div_mod::lemma_fundamental_div_mod_converse(
                value as int,
                count as int,
                0,
                value as int,
            );
        } else if value + 1 == count {
            vstd::arithmetic::div_mod::lemma_fundamental_div_mod_converse(
                count as int,
                count as int,
                1,
                0,
            );
        } else {
            vstd::arithmetic::div_mod::lemma_fundamental_div_mod_converse(
                value + 1,
                count as int,
                0,
                value + 1,
            );
        }
    }
    if step == 0 {
        if value == 0 {
            count - 1
        } else {
            value - 1
        }
    } else if step == 1 {
        value
    } else if value + 1 == count {
        0
    } else {
        value + 1
    }
}

fn contains_cell(cells: &Vec<usize>, cell: usize) -> (found: bool)
    ensures
        found == as_ints(cells@).contains(cell as int),
{
    let mut index: usize = 0;
    while index < cells.len()
        invariant
            index <= cells@.len(),
            forall|j: int| 0 <= j < index ==> cells@[j] != cell,
        decreases cells@.len() - index,
    {
        if cells[index] == cell {
            assert(as_ints(cells@)[index as int] == cell as int);
            return true;
        }
        index += 1;
    }
    proof {
        if as_ints(cells@).contains(cell as int) {
            let j = choose|j: int| 0 <= j < as_ints(cells@).len() && as_ints(cells@)[j] == cell;
            assert(cells@[j] == cell);
        }
    }
    false
}

/// The cells around `cell`, each listed once, in row-major offset order.
fn neighbours_of(columns: usize, rows: usize, cell: usize) -> (neighbours: Vec<usize>)
    requires
        columns > 0,
        rows > 0,
        cell < columns * rows,
        columns * rows <= usize::MAX,
    ensures
        as_ints(neighbours@) == neighbour_cells(columns as int, rows as int, cell as int),
{
    let ghost candidates = neighbour_candidates(columns as int, rows as int, cell as int);
    proof {
        lemma_cell_coordinates(columns as int, rows as int, cell as int);
    }
    let row = cell / columns;
    let column = cell % columns;
    let mut neighbours: Vec<usize> = Vec::new();
    let mut k: usize = 0;
    while k < 9
        invariant
            columns > 0,
            rows > 0,
            columns * rows <= usize::MAX,
            row < rows,
            column < columns,
            row == cell / columns,
            column == cell % columns,
            candidates == neighbour_candidates(columns as int, rows as int, cell as int),
            k <= 9,
            as_ints(neighbours@) == first_occurrences(candidates.take(k as int)),
        decreases 9 - k,
    {
        let neighbour_row = step_wrapped(row, k / 3, rows);
        let neighbour_column = step_wrapped(column, k % 3, columns);
        assert(neighbour_row * columns + neighbour_column < columns * rows) by (nonlinear_arith)
            requires
                neighbour_row < rows,
                neighbour_column < columns,
        ;
        let candidate = neighbour_row * columns + neighbour_column;
        assert(candidate == candidates[k as int]);
        assert(candidates.take(k as int + 1).drop_last() =~= candidates.take(k as int));
        if !contains_cell(&neighbours, candidate) {
            neighbours.push(candidate);
            assert(as_ints(neighbours@) =~= first_occurrences(candidates.take(k as int)).push(
                candidate as int,
            ));
        }
        k += 1;
    }
    assert(candidates.take(9) =~= candidates);
    neighbours
}

/// The cell at `column` and `row`, each clamped to the last one on the grid.
pub open spec fn clamped_cell(columns: int, rows: int, column: int, row: int) -> int {
    let column = if column < columns - 1 {
        column
    } else {
        columns - 1
    };
    let row = if row < rows - 1 {
        row
    } else {
        rows - 1
    };
    row * columns + column
}

/// The integer part of the flocking grid: the boid indices filed under each
/// cell and, for each cell, the cells searched for neighbours. Cells are
/// numbered row by row.
pub struct CellGrid {
    columns: usize,
    rows: usize,
    cells: Vec<Vec<usize>>,
    neighbouring_cells: Vec<Vec<usize>>,
}

impl CellGrid {
    #[verifier::type_invariant]
    spec fn well_formed(self) -> bool {
        &&& self.columns > 0
        &&& self.rows > 0
        &&& self.columns * self.rows <= usize::MAX
        &&& self.cells@.len() == self.columns * self.rows
        &&& self.neighbouring_cells@.len() == self.columns * self.rows
        &&& forall|cell: int|
            0 <= cell < self.columns * self.rows ==> as_ints(
                #[trigger] self.neighbouring_cells@[cell]@,
            ) == neighbour_cells(self.columns as int, self.rows as int, cell)
    }

    /// Number of columns.
    pub closed spec fn column_count(&self) -> int {
        self.columns as int
    }

    /// Number of rows.
    pub closed spec fn row_count(&self) -> int {
        self.rows as int
    }

    /// Number of cells.
    pub open spec fn cell_count(&self) -> int {
        self.column_count() * self.row_count()
    }

    /// The boid indices filed under each cell.
    pub closed spec fn buckets(&self) -> Seq<Seq<usize>> {
        self.cells@.map_values(|bucket: Vec<usize>| bucket@)
    }

    /// A grid of `columns` by `rows` empty cells.
    pub fn new(columns: usize, rows: usize) -> (grid: Self)
        requires
            columns > 0,
            rows > 0,
            columns * rows <= usize::MAX,
        ensures
            grid.column_count() == columns,
            grid.row_count() == rows,
            grid.buckets() == Seq::new((columns * rows) as nat, |cell: int| Seq::<usize>::empty()),
    {
        let cell_count = columns * rows;
        let mut cells: Vec<Vec<usize>> = Vec::new();
        let mut neighbouring_cells: Vec<Vec<usize>> = Vec::new();
        let mut cell: usize = 0;
        while cell < cell_count
            invariant
                columns > 0,
                rows > 0,
                cell_count == columns * rows,
                cell_count <= usize::MAX,
                cell <= cell_count,
                cells@.len() == cell,
                neighbouring_cells@.len() == cell,
                forall|c: int| 0 <= c < cell ==> (#[trigger] cells@[c])@ == Seq::<usize>::empty(),
                forall|c: int|
                    0 <= c < cell ==> as_ints(#[trigger] neighbouring_cells@[c]@) == neighbour_cells(
                        columns as int,
                        rows as int,
                        c,
                    ),
            decreases cell_count - cell,
        {
            cells.push(Vec::new());
            neighbouring_cells.push(neighbours_of(columns, rows, cell));
            cell += 1;
        }
        let grid = CellGrid { columns, rows, cells, neighbouring_cells };
        assert(grid.buckets() =~= Seq::new(
            (columns * rows) as nat,
            |cell: int| Seq::<usize>::empty(),
        ));
        grid
    }

    /// The cells searched for neighbours of a boid in `cell`.
    pub fn neighbouring_cells(&self, cell: usize) -> (neighbours: &[usize])
        requires
            cell < self.cell_count(),
        ensures
            as_ints(neighbours@) == neighbour_cells(
                self.column_count(),
                self.row_count(),
                cell as int,
            ),
    {
        proof {
            use_type_invariant(self);
        }
        self.neighbouring_cells[cell].as_slice()
    }

    /// The boid indices filed under `cell`.
    pub fn cell(&self, cell: usize) -> (boids: &[usize])
        requires
            cell < self.cell_count(),
        ensures
            boids@ == self.buckets()[cell as int],
    {
        proof {
            use_type_invariant(self);
        }
        self.cells[cell].as_slice()
    }

    /// The cell at `column` and `row`, clamped to the grid.
    pub fn cell_index(&self, column: usize, row: usize) -> (cell: usize)
        ensures
            cell == clamped_cell(self.column_count(), self.row_count(), column as int, row as int),
            cell < self.cell_count(),
    {
        proof {
            use_type_invariant(self);
        }
        let column = if column < self.columns - 1 {
            column
        } else {
            self.columns - 1
        };
        let row = if row < self.rows - 1 {
            row
        } else {
            self.rows - 1
        };
        assert(row * self.columns + column < self.columns * self.rows) by (nonlinear_arith)
            requires
                row < self.rows,
                column < self.columns,
        ;
        row * self.columns + column
    }

    /// Files every boid that has a cell under that cell; boids without one
    /// (invisible boids) are left out.
    pub fn rebuild(&mut self, boid_cells: &[Option<usize>])
        requires
            forall|i: int|
                0 <= i < boid_cells@.len() ==> (#[trigger] boid_cells@[i] matches Some(cell)
                    ==> cell < old(self).cell_count()),
        ensures
            final(self).column_count() == old(self).column_count(),
            final(self).row_count() == old(self).row_count(),
            final(self).buckets() == Seq::new(
                old(self).cell_count() as nat,
                |cell: int| bucket(boid_cells@, cell),
            ),
    {
        proof {
            use_type_invariant(&*self);
        }
        let cell_count = self.cells.len();
        let mut cell: usize = 0;
        while cell < cell_count
            invariant
                cell_count == self.cells@.len(),
                cell_count == self.columns * self.rows,
                self.columns == old(self).columns,
                self.rows == old(self).rows,
                self.neighbouring_cells == old(self).neighbouring_cells,
                self.columns > 0,
                self.rows > 0,
                self.columns * self.rows <= usize::MAX,
                self.neighbouring_cells@.len() == self.columns * self.rows,
                forall|c: int|
                    0 <= c < self.columns * self.rows ==> as_ints(
                        #[trigger] self.neighbouring_cells@[c]@,
                    ) == neighbour_cells(self.columns as int, self.rows as int, c),
                cell <= cell_count,
                forall|c: int| 0 <= c < cell ==> (#[trigger] self.cells@[c])@ == Seq::<usize>::empty(),
            decreases cell_count - cell,
        {
            self.cells[cell].clear();
            cell += 1;
        }
        let mut index: usize = 0;
        while index < boid_cells.len()
            invariant
                cell_count == self.cells@.len(),
                cell_count == self.columns * self.rows,
                self.columns == old(self).columns,
                self.rows == old(self).rows,
                self.neighbouring_cells == old(self).neighbouring_cells,
                self.columns > 0,
                self.rows > 0,
                self.columns * self.rows <= usize::MAX,
                self.neighbouring_cells@.len() == self.columns * self.rows,
                forall|c: int|
                    0 <= c < self.columns * self.rows ==> as_ints(
                        #[trigger] self.neighbouring_cells@[c]@,
                    ) == neighbour_cells(self.columns as int, self.rows as int, c),
                index <= boid_cells@.len(),
                forall|i: int|
                    0 <= i < boid_cells@.len() ==> (#[trigger] boid_cells@[i] matches Some(c) ==> c
                        < cell_count),
                forall|c: int|
                    0 <= c < cell_count ==> (#[trigger] self.cells@[c])@ == bucket_before(
                        boid_cells@,
                        c,
                        index as int,
                    ),
            decreases boid_cells@.len() - index,
        {
            if let Some(cell) = boid_cells[index] {
                self.cells[cell].push(index);
            }
            index += 1;
        }
        assert(self.buckets() =~= Seq::new(
            cell_count as nat,
            |cell: int| bucket(boid_cells@, cell),
        ));
    }
}

/// Whether no value occurs twice in `s`.
pub open spec fn all_distinct(s: Seq<int>) -> bool {
    forall|i: int, j: int| 0 <= i < j < s.len() ==> s[i] != s[j]
}

proof fn lemma_wrapped_value(value: int, offset: int, count: int)
    requires
        0 <= value < count,
        -1 <= offset <= 1,
    ensures
        wrapped(value, offset, count) == if value + offset < 0 {
            count - 1
        } else if value + offset >= count {
            0
        } else {
            value + offset
        },
{
    if value + offset < 0 {
        vstd::arithmetic::div_mod::lemma_fundamental_div_mod_converse(
            value + offset,
            count,
            -1,
            count - 1,
        );
    } else if value + offset >= count {
        vstd::arithmetic::div_mod::lemma_fundamental_div_mod_converse(value + offset, count, 1, 0);
    } else {
        vstd::arithmetic::div_mod::lemma_fundamental_div_mod_converse(
            value + offset,
            count,
            0,
            value + offset,
        );
    }
}

proof fn lemma_first_occurrences(s: Seq<int>)
    ensures
        all_distinct(first_occurrences(s)),
        forall|x: int| first_occurrences(s).contains(x) <==> s.contains(x),
        all_distinct(s) ==> first_occurrences(s) == s,
    decreases s.len(),
{
    if s.len() > 0 {
        let init = s.drop_last();
        lemma_first_occurrences(init);
        assert(s =~= init.push(s.last()));
        assert forall|x: int| s.contains(x) <==> (init.contains(x) || x == s.last()) by {
            if s.contains(x) {
                let i = choose|i: int| 0 <= i < s.len() && s[i] == x;
                if i < s.len() - 1 {
                    assert(init[i] == x);
                }
            }
            if init.contains(x) {
                let i = choose|i: int| 0 <= i < init.len() && init[i] == x;
                assert(s[i] == x);
            }
        }
        let earlier = first_occurrences(init);
        if !earlier.contains(s.last()) {
            assert forall|x: int| earlier.push(s.last()).contains(x) <==> (earlier.contains(x) || x
                == s.last()) by {
                if earlier.push(s.last()).contains(x) {
                    let i = choose|i: int|
                        0 <= i < earlier.push(s.last()).len() && earlier.push(s.last())[i] == x;
                    if i < earlier.len() {
                        assert(earlier[i] == x);
                    }
                }
                if earlier.contains(x) {
                    let i = choose|i: int| 0 <= i < earlier.len() && earlier[i] == x;
                    assert(earlier.push(s.last())[i] == x);
                }
                assert(earlier.push(s.last())[earlier.len() as int] == s.last());
            }
        }
        if all_distinct(s) {
            assert(all_distinct(init));
            assert(!init.contains(s.last())) by {
                if init.contains(s.last()) {
                    let i = choose|i: int| 0 <= i < init.len() && init[i] == s.last();
                    assert(s[i] == s[s.len() - 1]);
                }
            }
        }
    }
}

proof fn lemma_candidate_in_grid(columns: int, rows: int, cell: int, k: int)
    requires
        columns > 0,
        rows > 0,
        0 <= cell < columns * rows,
        0 <= k < 9,
    ensures
        0 <= neighbour_candidate(columns, rows, cell, k) < columns * rows,
        neighbour_candidate(columns, rows, cell, k) / columns == wrapped(
            cell / columns,
            k / 3 - 1,
            rows,
        ),
        neighbour_candidate(columns, rows, cell, k) % columns == wrapped(
            cell % columns,
            k % 3 - 1,
            columns,
        ),
{
    lemma_cell_coordinates(columns, rows, cell);
    let row = wrapped(cell / columns, k / 3 - 1, rows);
    let column = wrapped(cell % columns, k % 3 - 1, columns);
    lemma_wrapped_value(cell / columns, k / 3 - 1, rows);
    lemma_wrapped_value(cell % columns, k % 3 - 1, columns);
    assert(0 <= row * columns + column < columns * rows) by (nonlinear_arith)
        requires
            0 <= row < rows,
            0 <= column < columns,
    ;
    vstd::arithmetic::div_mod::lemma_fundamental_div_mod_converse(
        row * columns + column,
        columns,
        row,
        column,
    );
}

/// The neighbour list of a cell lies inside the grid, lists no cell twice,
/// holds exactly the nine surrounding cells of the wrapping grid (the cell
/// itself among them), and has all nine when the grid is at least three
/// cells wide and three cells tall.
pub proof fn lemma_neighbour_cells(columns: int, rows: int, cell: int)
    requires
        columns > 0,
        rows > 0,
        0 <= cell < columns * rows,
    ensures
        all_distinct(neighbour_cells(columns, rows, cell)),
        forall|x: int|
            neighbour_cells(columns, rows, cell).contains(x) <==> neighbour_candidates(
                columns,
                rows,
                cell,
            ).contains(x),
        forall|i: int|
            0 <= i < neighbour_cells(columns, rows, cell).len() ==> 0 <= #[trigger] neighbour_cells(
                columns,
                rows,
                cell,
            )[i] < columns * rows,
        neighbour_cells(columns, rows, cell).contains(cell),
        columns >= 3 && rows >= 3 ==> neighbour_cells(columns, rows, cell).len() == 9,
{
    let candidates = neighbour_candidates(columns, rows, cell);
    lemma_first_occurrences(candidates);
    lemma_cell_coordinates(columns, rows, cell);
    lemma_wrapped_value(cell / columns, 0, rows);
    lemma_wrapped_value(cell % columns, 0, columns);
    assert(candidates[4] == cell);
    assert(candidates.contains(cell));
    assert(first_occurrences(candidates).contains(cell));
    assert forall|i: int|
        0 <= i < neighbour_cells(columns, rows, cell).len() implies 0 <= #[trigger] neighbour_cells(
        columns,
        rows,
        cell,
    )[i] < columns * rows by {
        let x = neighbour_cells(columns, rows, cell)[i];
        assert(neighbour_cells(columns, rows, cell)[i] == x);
        assert(first_occurrences(candidates).contains(x));
        assert(candidates.contains(x));
        let k = choose|k: int| 0 <= k < candidates.len() && candidates[k] == x;
        lemma_candidate_in_grid(columns, rows, cell, k);
    }
    if columns >= 3 && rows >= 3 {
        assert forall|i: int, j: int| 0 <= i < j < candidates.len() implies candidates[i]
            != candidates[j] by {
            lemma_candidate_in_grid(columns, rows, cell, i);
            lemma_candidate_in_grid(columns, rows, cell, j);
            lemma_wrapped_value(cell / columns, i / 3 - 1, rows);
            lemma_wrapped_value(cell / columns, j / 3 - 1, rows);
            lemma_wrapped_value(cell % columns, i % 3 - 1, columns);
            lemma_wrapped_value(cell % columns, j % 3 - 1, columns);
        }
    }
}

proof fn lemma_candidate_reversed(columns: int, rows: int, cell: int, k: int)
    requires
        columns > 0,
        rows > 0,
        0 <= cell < columns * rows,
        0 <= k < 9,
    ensures
        neighbour_candidate(
            columns,
            rows,
            neighbour_candidate(columns, rows, cell, k),
            8 - k,
        ) == cell,
{
    let other = neighbour_candidate(columns, rows, cell, k);
    lemma_cell_coordinates(columns, rows, cell);
    lemma_candidate_in_grid(columns, rows, cell, k);
    lemma_cell_coordinates(columns, rows, other);
    lemma_wrapped_value(cell / columns, k / 3 - 1, rows);
    lemma_wrapped_value(cell % columns, k % 3 - 1, columns);
    assert((8 - k) / 3 - 1 == -(k / 3 - 1));
    assert((8 - k) % 3 - 1 == -(k % 3 - 1));
    lemma_wrapped_value(other / columns, (8 - k) / 3 - 1, rows);
    lemma_wrapped_value(other % columns, (8 - k) % 3 - 1, columns);
}

/// Being neighbours is symmetric: `other` is searched from `cell` exactly
/// when `cell` is searched from `other`.
pub proof fn lemma_neighbour_cells_symmetric(columns: int, rows: int, cell: int, other: int)
    requires
        columns > 0,
        rows > 0,
        0 <= cell < columns * rows,
        0 <= other < columns * rows,
    ensures
        neighbour_cells(columns, rows, cell).contains(other) <==> neighbour_cells(
            columns,
            rows,
            other,
        ).contains(cell),
{
    lemma_neighbour_cells(columns, rows, cell);
    lemma_neighbour_cells(columns, rows, other);
    let from_cell = neighbour_candidates(columns, rows, cell);
    let from_other = neighbour_candidates(columns, rows, other);
    if from_cell.contains(other) {
        let k = choose|k: int| 0 <= k < from_cell.len() && from_cell[k] == other;
        lemma_candidate_reversed(columns, rows, cell, k);
        assert(from_other[8 - k] == cell);
        assert(from_other.contains(cell));
    }
    if from_other.contains(cell) {
        let k = choose|k: int| 0 <= k < from_other.len() && from_other[k] == cell;
        lemma_candidate_reversed(columns, rows, other, k);
        assert(from_cell[8 - k] == other);
        assert(from_cell.contains(other));
    }
}

proof fn lemma_bucket_before(boid_cells: Seq<Option<usize>>, cell: int, n: int)
    requires
        0 <= n <= boid_cells.len(),
        boid_cells.len() <= usize::MAX,
    ensures
        forall|j: int|
            0 <= j < bucket_before(boid_cells, cell, n).len() ==> #[trigger] bucket_before(
                boid_cells,
                cell,
                n,
            )[j] < n,
        forall|i: int, j: int|
            0 <= i < j < bucket_before(boid_cells, cell, n).len() ==> bucket_before(
                boid_cells,
                cell,
                n,
            )[i] < bucket_before(boid_cells, cell, n)[j],
        forall|boid: int|
            0 <= boid < n ==> (bucket_before(boid_cells, cell, n).contains(boid as usize) <==> (
            #[trigger] boid_cells[boid]) == Some(cell as usize)),
    decreases n,
{
    if n > 0 {
        lemma_bucket_before(boid_cells, cell, n - 1);
        let earlier = bucket_before(boid_cells, cell, n - 1);
        let now = bucket_before(boid_cells, cell, n);
        assert forall|boid: int| 0 <= boid < n implies (now.contains(boid as usize) <==> (
        #[trigger] boid_cells[boid]) == Some(cell as usize)) by {
            if boid_cells[n - 1] == Some(cell as usize) {
                assert(now[now.len() - 1] == (n - 1) as usize);
                if now.contains(boid as usize) && boid < n - 1 {
                    let j = choose|j: int| 0 <= j < now.len() && now[j] == boid as usize;
                    assert(j < now.len() - 1);
                    assert(earlier[j] == boid as usize);
                }
                if earlier.contains(boid as usize) {
                    let j = choose|j: int| 0 <= j < earlier.len() && earlier[j] == boid as usize;
                    assert(now[j] == boid as usize);
                }
            } else if boid == n - 1 {
                if now.contains(boid as usize) {
                    let j = choose|j: int| 0 <= j < now.len() && now[j] == boid as usize;
                    assert(earlier[j] < n - 1);
                }
            }
        }
    }
}

/// After a rebuild, a cell's bucket holds exactly the boids filed under that
/// cell, each once, in increasing order.
pub proof fn lemma_bucket(boid_cells: Seq<Option<usize>>, cell: int)
    requires
        boid_cells.len() <= usize::MAX,
    ensures
        forall|i: int, j: int|
            0 <= i < j < bucket(boid_cells, cell).len() ==> bucket(boid_cells, cell)[i] < bucket(
                boid_cells,
                cell,
            )[j],
        forall|boid: int|
            0 <= boid < boid_cells.len() ==> (bucket(boid_cells, cell).contains(boid as usize) <==> (
            #[trigger] boid_cells[boid]) == Some(cell as usize)),
        forall|j: int|
            0 <= j < bucket(boid_cells, cell).len() ==> #[trigger] bucket(boid_cells, cell)[j]
                < boid_cells.len(),
{
    lemma_bucket_before(boid_cells, cell, boid_cells.len() as int);
}

} // verus!
