//! The random choices that one tick consumes, as plain values.
//!
//! The engine draws no random numbers itself. Whoever drives it draws them
//! from a uniform source and hands them over: for each row the picks of a
//! Fisher-Yates shuffle of the columns, and for each cell the side it
//! prefers and whether it may roll. A draw that is absent or out of range
//! falls back to the fixed choice, so that the empty set of draws gives the
//! deterministic policy: columns from left to right, the left diagonal
//! first, no rolling.

use vstd::prelude::*;
use crate::grid::{HEIGHT, WIDTH};

verus! {

/// One of the two horizontal directions.
#[derive(Copy, Clone, PartialEq, Eq, Structural, Debug)]
pub enum Side {
    Left,
    Right,
}

impl Side {
    /// The opposite direction.
    pub open spec fn spec_other(self) -> Side {
        match self {
            Side::Left => Side::Right,
            Side::Right => Side::Left,
        }
    }

    /// The opposite direction.
    #[verifier::when_used_as_spec(spec_other)]
    pub fn other(self) -> (s: Side)
        ensures
            s == self.spec_other(),
    {
        match self {
            Side::Left => Side::Right,
            Side::Right => Side::Left,
        }
    }

    /// The column next to `x` on this side; it may lie outside the grid.
    pub open spec fn beside(self, x: int) -> int {
        match self {
            Side::Left => x - 1,
            Side::Right => x + 1,
        }
    }

    /// The column next to `x` on this side, if the grid has one.
    pub fn neighbor(self, x: usize) -> (n: Option<usize>)
        ensures
            n is Some <==> 0 <= self.beside(x as int) < WIDTH,
            n is Some ==> n->0 == self.beside(x as int),
    {
        match self {
            Side::Left => if 0 < x && x <= WIDTH {
                Some(x - 1)
            } else {
                None
            },
            Side::Right => if x < WIDTH - 1 {
                Some(x + 1)
            } else {
                None
            },
        }
    }
}

/// The choices made for one grain that cannot fall straight down.
#[derive(Copy, Clone, PartialEq, Eq, Structural, Debug)]
pub struct Choice {
    /// The diagonal that is tried first.
    pub diagonal: Side,
    /// Whether a grain that is blocked below and on both diagonals tries to
    /// roll sideways, and if so, to which side first.
    pub roll: Option<Side>,
}

/// The choice of the deterministic policy: left diagonal first, no rolling.
pub open spec fn fixed_choice() -> Choice {
    Choice { diagonal: Side::Left, roll: None }
}

/// The draws for the sweep of one row.
pub struct RowDraws {
    /// The picks of the shuffle, in the order in which it makes them: pick
    /// `k` is for position `WIDTH - 1 - k` and is used if it is no larger
    /// than that position. For a uniform shuffle, pick `k` is drawn
    /// uniformly from `0 ..= WIDTH - 1 - k`.
    pub picks: Vec<usize>,
    /// The choice for the grain found in column `x`, at index `x`.
    pub choices: Vec<Choice>,
}

/// The model of `RowDraws`.
pub struct RowPlan {
    pub picks: Seq<usize>,
    pub choices: Seq<Choice>,
}

impl View for RowDraws {
    type V = RowPlan;

    open spec fn view(&self) -> RowPlan {
        RowPlan { picks: self.picks@, choices: self.choices@ }
    }
}

/// The draws for one tick: those for row `y` at index `y`.
pub struct Draws {
    pub rows: Vec<RowDraws>,
}

/// The model of `Draws`.
pub type Plan = Seq<RowPlan>;

impl View for Draws {
    type V = Plan;

    open spec fn view(&self) -> Plan {
        Seq::new(self.rows@.len(), |y: int| self.rows@[y]@)
    }
}

/// The draws of row `y`; none where the plan has no entry for it.
pub open spec fn row_plan(plan: Plan, y: int) -> RowPlan {
    if 0 <= y < plan.len() {
        plan[y]
    } else {
        RowPlan { picks: Seq::empty(), choices: Seq::empty() }
    }
}

/// The position with which the shuffle swaps position `i` at its pick `k`:
/// the pick if there is one and it is at most `i`, else `i` itself.
pub open spec fn swap_target(picks: Seq<usize>, k: int, i: int) -> int {
    if 0 <= k < picks.len() && picks[k] <= i {
        picks[k] as int
    } else {
        i
    }
}

/// The choice for column `x`; the fixed choice where none was drawn.
pub open spec fn choice_at(choices: Seq<Choice>, x: int) -> Choice {
    if 0 <= x < choices.len() {
        choices[x]
    } else {
        fixed_choice()
    }
}

/// The columns from left to right.
pub open spec fn identity_order() -> Seq<usize> {
    Seq::new(WIDTH as nat, |x: int| x as usize)
}

/// `order` with the entries at `i` and `j` exchanged.
pub open spec fn swapped(order: Seq<usize>, i: int, j: int) -> Seq<usize> {
    order.update(i, order[j]).update(j, order[i])
}

/// `order` after the first `n` swaps of a Fisher-Yates shuffle that walks
/// from the last position down to position 1.
pub open spec fn shuffled_upto(order: Seq<usize>, picks: Seq<usize>, n: nat) -> Seq<usize>
    decreases n,
{
    if n == 0 {
        order
    } else {
        let i = WIDTH - n;
        swapped(shuffled_upto(order, picks, (n - 1) as nat), i, swap_target(picks, n - 1, i))
    }
}

/// `order` after a whole shuffle with the given picks.
pub open spec fn shuffled(order: Seq<usize>, picks: Seq<usize>) -> Seq<usize> {
    shuffled_upto(order, picks, (WIDTH - 1) as nat)
}

/// The order in which the columns of row `y` are visited. The floor is
/// never swept. The row above it is visited in the shuffled identity, and
/// every higher row in the shuffled order of the row below it.
pub open spec fn order_for(plan: Plan, y: int) -> Seq<usize>
    decreases HEIGHT - y,
{
    if y < 0 || y >= HEIGHT - 1 {
        identity_order()
    } else {
        shuffled(order_for(plan, y + 1), row_plan(plan, y).picks)
    }
}

/// Column `x` occurs in `order`.
pub open spec fn visits(order: Seq<usize>, x: int) -> bool {
    exists|k: int| 0 <= k < order.len() && #[trigger] order[k] == x
}

/// Every column of the grid occurs exactly once in `order`.
pub open spec fn is_permutation(order: Seq<usize>) -> bool {
    &&& order.len() == WIDTH
    &&& forall|k: int| 0 <= k < WIDTH ==> (#[trigger] order[k]) < WIDTH
    &&& forall|k: int, l: int| 0 <= k < l < WIDTH ==> order[k] != order[l]
    &&& forall|x: int| 0 <= x < WIDTH ==> #[trigger] visits(order, x)
}

/// Exchanging two entries of a permutation leaves a permutation.
pub proof fn lemma_swapped_is_permutation(order: Seq<usize>, i: int, j: int)
    requires
        is_permutation(order),
        0 <= i < WIDTH,
        0 <= j < WIDTH,
    ensures
        is_permutation(swapped(order, i, j)),
{
    let s = swapped(order, i, j);
    assert forall|x: int| 0 <= x < WIDTH implies #[trigger] visits(s, x) by {
        assert(visits(order, x));
        let k = choose|k: int| 0 <= k < order.len() && #[trigger] order[k] == x;
        if k == i {
            assert(s[j] == x);
        } else if k == j {
            assert(s[i] == x);
        } else {
            assert(s[k] == x);
        }
    }
}

/// A shuffle of a permutation is a permutation, whatever the picks.
pub proof fn lemma_shuffled_upto_is_permutation(order: Seq<usize>, picks: Seq<usize>, n: nat)
    requires
        is_permutation(order),
        n < WIDTH,
    ensures
        is_permutation(shuffled_upto(order, picks, n)),
    decreases n,
{
    if n > 0 {
        lemma_shuffled_upto_is_permutation(order, picks, (n - 1) as nat);
        let i = WIDTH - n;
        lemma_swapped_is_permutation(
            shuffled_upto(order, picks, (n - 1) as nat),
            i,
            swap_target(picks, n - 1, i),
        );
    }
}

/// Every row is swept in an order that visits each column exactly once,
/// whatever was drawn.
pub proof fn lemma_order_is_permutation(plan: Plan, y: int)
    ensures
        is_permutation(order_for(plan, y)),
    decreases HEIGHT - y,
{
    if y < 0 || y >= HEIGHT - 1 {
        assert(is_permutation(identity_order())) by {
            assert forall|x: int| 0 <= x < WIDTH implies #[trigger] visits(
                identity_order(),
                x,
            ) by {
                assert(identity_order()[x] == x);
            }
        }
    } else {
        lemma_order_is_permutation(plan, y + 1);
        lemma_shuffled_upto_is_permutation(
            order_for(plan, y + 1),
            row_plan(plan, y).picks,
            (WIDTH - 1) as nat,
        );
    }
}

/// Without picks the shuffle changes nothing.
pub proof fn lemma_shuffled_upto_without_picks(order: Seq<usize>, n: nat)
    requires
        order.len() == WIDTH,
        n < WIDTH,
    ensures
        shuffled_upto(order, Seq::empty(), n) == order,
    decreases n,
{
    if n > 0 {
        lemma_shuffled_upto_without_picks(order, (n - 1) as nat);
        assert(swapped(order, WIDTH - n, WIDTH - n) =~= order);
    }
}

/// Under the deterministic policy every row is swept from left to right.
pub proof fn lemma_order_without_draws(y: int)
    ensures
        order_for(Seq::empty(), y) == identity_order(),
    decreases HEIGHT - y,
{
    if 0 <= y < HEIGHT - 1 {
        lemma_order_without_draws(y + 1);
        lemma_shuffled_upto_without_picks(identity_order(), (WIDTH - 1) as nat);
    }
}

impl RowDraws {
    /// The choice for column `x`; the fixed choice where none was drawn.
    pub fn choice(&self, x: usize) -> (c: Choice)
        ensures
            c == choice_at(self@.choices, x as int),
    {
        if x < self.choices.len() {
            self.choices[x]
        } else {
            Choice { diagonal: Side::Left, roll: None }
        }
    }
}

impl Draws {
    /// The draws of row `y`, if any were made for it.
    pub fn row(&self, y: usize) -> (r: Option<&RowDraws>)
        ensures
            r is Some <==> y < self@.len(),
            r is Some ==> r->0@ == self@[y as int],
    {
        if y < self.rows.len() {
            Some(&self.rows[y])
        } else {
            None
        }
    }

    /// No draws at all: the deterministic policy.
    pub fn fixed() -> (d: Draws)
        ensures
            d@ == Seq::<RowPlan>::empty(),
    {
        let d = Draws { rows: Vec::new() };
        assert(d@ =~= Seq::<RowPlan>::empty());
        d
    }
}

/// Shuffles `order` in place by the Fisher-Yates walk from the last position
/// down to position 1, swapping each position with its pick.
pub fn shuffle(order: &mut [usize; WIDTH], picks: &Vec<usize>)
    ensures
        final(order)@ == shuffled(old(order)@, picks@),
        is_permutation(old(order)@) ==> is_permutation(final(order)@),
{
    proof {
        if is_permutation(order@) {
            lemma_shuffled_upto_is_permutation(order@, picks@, (WIDTH - 1) as nat);
        }
    }
    let mut k: usize = 0;
    while k < WIDTH - 1
        invariant
            k <= WIDTH - 1,
            order@ == shuffled_upto(old(order)@, picks@, k as nat),
        decreases WIDTH - 1 - k,
    {
        let i: usize = WIDTH - 1 - k;
        let j: usize = if k < picks.len() && picks[k] <= i {
            picks[k]
        } else {
            i
        };
        let a: usize = order[i];
        let b: usize = order[j];
        order[i] = b;
        order[j] = a;
        k = k + 1;
        assert(order@ =~= shuffled_upto(old(order)@, picks@, k as nat));
    }
}

} // verus!
