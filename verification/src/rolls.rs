//! Roll entities and their evaluation: action, progress, oracle and custom
//! rolls, together with the outcome classifier.

use vstd::prelude::*;
use vstd::seq_lib::group_to_multiset_ensures;

use crate::{InputType, OutputType};

verus! {

/// The largest number of dice a spec may ask to roll at once.
pub const MAX_DICE: usize = 65535;

/// The largest number of flat bonuses a spec may carry.
pub const MAX_BONUSES: usize = 65535;

/// The outcome of an action or progress roll.
#[derive(Debug, Clone, Copy, PartialEq, Eq, Structural)]
pub enum Outcome {
    Miss,
    WeakHit,
    StrongHit,
}

/// How many of the two challenge values a score strictly exceeds, mapped to
/// an outcome tier: none is a miss, one a weak hit, both a strong hit.
/// A challenge value equal to the score is not exceeded.
pub open spec fn classify(score: int, c1: int, c2: int) -> Outcome {
    let exceeded = (if score > c1 {
        1int
    } else {
        0int
    }) + (if score > c2 {
        1int
    } else {
        0int
    });
    if exceeded == 0 {
        Outcome::Miss
    } else if exceeded == 1 {
        Outcome::WeakHit
    } else {
        Outcome::StrongHit
    }
}

/// Classification depends only on the score and the two challenge values,
/// and is invariant under swapping the challenge values.
pub proof fn lemma_classify_symmetric(score: int, c1: int, c2: int)
    ensures
        classify(score, c1, c2) == classify(score, c2, c1),
{
}

/// A challenge value equal to the score never raises the outcome tier:
/// only strictly exceeded challenge values count.
pub proof fn lemma_classify_boundary(score: int, c2: int)
    ensures
        classify(score, score, c2) == (if score > c2 {
            Outcome::WeakHit
        } else {
            Outcome::Miss
        }),
{
}

/// The result of an action roll.
#[derive(Debug, Clone, Copy, PartialEq, Eq)]
pub struct ActionRoll {
    pub action_die: OutputType,
    pub bonus: Option<InputType>,
    pub challenge_dice: [OutputType; 2],
}

impl ActionRoll {
    /// The value ranges every evaluator-produced action roll satisfies:
    /// a six-sided action die and two ten-sided challenge dice.
    pub open spec fn wf(self) -> bool {
        &&& 1 <= self.action_die <= 6
        &&& 1 <= self.challenge_dice[0] <= 10
        &&& 1 <= self.challenge_dice[1] <= 10
    }

    /// The score owed to a known bonus: the action die plus the bonus,
    /// clamped at 10.
    pub open spec fn spec_score_val(self, b: InputType) -> int {
        let s = self.action_die as int + b as int;
        if s > 10 {
            10
        } else {
            s
        }
    }

    pub open spec fn spec_score(self) -> Option<OutputType> {
        match self.bonus {
            Some(b) => Some(self.spec_score_val(b) as OutputType),
            None => None,
        }
    }

    pub open spec fn spec_outcome(self) -> Option<Outcome> {
        match self.bonus {
            Some(b) => Some(
                classify(
                    self.spec_score_val(b),
                    self.challenge_dice[0] as int,
                    self.challenge_dice[1] as int,
                ),
            ),
            None => None,
        }
    }

    pub open spec fn spec_is_match(self) -> bool {
        self.challenge_dice[0] == self.challenge_dice[1]
    }

    /// Generate a random action roll: one action die in [1, 6] and two
    /// challenge dice in [1, 10], with the bonus carried over unchanged.
    pub fn random(bonus: Option<InputType>) -> (r: ActionRoll)
        ensures
            r.bonus == bonus,
            r.wf(),
    {
        let action_die = crate::rng::draw_in_range(1, 6);
        let challenge_dice = [crate::rng::draw_in_range(1, 10), crate::rng::draw_in_range(1, 10)];
        ActionRoll { action_die, bonus, challenge_dice }
    }

    /// What is the total score of this roll?
    /// Only known if the bonus is known: the action die plus the bonus,
    /// clamped at a maximum of 10.
    pub fn score(&self) -> (r: Option<OutputType>)
        requires
            self.wf(),
        ensures
            r == self.spec_score(),
    {
        match self.bonus {
            Some(b) => {
                let s = self.action_die + b as u32;
                Some(if s > 10 {
                    10
                } else {
                    s
                })
            },
            None => None,
        }
    }

    /// What is the outcome of this roll?
    /// Only known if the bonus is known: the score classified against the
    /// two challenge dice.
    pub fn outcome(&self) -> (r: Option<Outcome>)
        requires
            self.wf(),
        ensures
            r == self.spec_outcome(),
    {
        match self.score() {
            Some(score) => {
                let mut higher_than: u32 = 0;
                if score > self.challenge_dice[0] {
                    higher_than = higher_than + 1;
                }
                if score > self.challenge_dice[1] {
                    higher_than = higher_than + 1;
                }
                Some(
                    if higher_than == 0 {
                        Outcome::Miss
                    } else if higher_than == 1 {
                        Outcome::WeakHit
                    } else {
                        Outcome::StrongHit
                    },
                )
            },
            None => None,
        }
    }

    /// Do the challenge dice match?
    pub fn is_match(&self) -> (r: bool)
        ensures
            r == self.spec_is_match(),
    {
        self.challenge_dice[0] == self.challenge_dice[1]
    }
}

/// The result of a progress roll.
#[derive(Debug, Clone, Copy, PartialEq, Eq)]
pub struct ProgressRoll {
    pub bonus: Option<InputType>,
    pub challenge_dice: [OutputType; 2],
}

impl ProgressRoll {
    /// The value ranges every evaluator-produced progress roll satisfies:
    /// two ten-sided challenge dice.
    pub open spec fn wf(self) -> bool {
        &&& 1 <= self.challenge_dice[0] <= 10
        &&& 1 <= self.challenge_dice[1] <= 10
    }

    /// The score owed to a known progress value: the value itself, clamped
    /// at 10.
    pub open spec fn spec_score_val(self, b: InputType) -> int {
        if b > 10 {
            10
        } else {
            b as int
        }
    }

    pub open spec fn spec_score(self) -> Option<OutputType> {
        match self.bonus {
            Some(b) => Some(self.spec_score_val(b) as OutputType),
            None => None,
        }
    }

    pub open spec fn spec_outcome(self) -> Option<Outcome> {
        match self.bonus {
            Some(b) => Some(
                classify(
                    self.spec_score_val(b),
                    self.challenge_dice[0] as int,
                    self.challenge_dice[1] as int,
                ),
            ),
            None => None,
        }
    }

    pub open spec fn spec_is_match(self) -> bool {
        self.challenge_dice[0] == self.challenge_dice[1]
    }

    /// Generate a random progress roll: two challenge dice in [1, 10], with
    /// the progress value carried over unchanged.
    pub fn random(bonus: Option<InputType>) -> (r: ProgressRoll)
        ensures
            r.bonus == bonus,
            r.wf(),
    {
        let challenge_dice = [crate::rng::draw_in_range(1, 10), crate::rng::draw_in_range(1, 10)];
        ProgressRoll { bonus, challenge_dice }
    }

    /// What is the total score of this roll?
    /// Only known if the progress value is known: that value, clamped at a
    /// maximum of 10.
    pub fn score(&self) -> (r: Option<OutputType>)
        ensures
            r == self.spec_score(),
    {
        match self.bonus {
            Some(b) => Some(
                if b > 10 {
                    10
                } else {
                    b as u32
                },
            ),
            None => None,
        }
    }

    /// What is the outcome of this roll?
    /// Only known if the progress value is known: the score classified
    /// against the two challenge dice.
    pub fn outcome(&self) -> (r: Option<Outcome>)
        ensures
            r == self.spec_outcome(),
    {
        match self.score() {
            Some(score) => {
                let mut higher_than: u32 = 0;
                if score > self.challenge_dice[0] {
                    higher_than = higher_than + 1;
                }
                if score > self.challenge_dice[1] {
                    higher_than = higher_than + 1;
                }
                Some(
                    if higher_than == 0 {
                        Outcome::Miss
                    } else if higher_than == 1 {
                        Outcome::WeakHit
                    } else {
                        Outcome::StrongHit
                    },
                )
            },
            None => None,
        }
    }

    /// Do the challenge dice match?
    pub fn is_match(&self) -> (r: bool)
        ensures
            r == self.spec_is_match(),
    {
        self.challenge_dice[0] == self.challenge_dice[1]
    }
}

/// The result of an oracle roll.
#[derive(Debug, Clone, PartialEq, Eq)]
pub struct OracleRoll {
    pub outcomes: Vec<OutputType>,
}

impl OracleRoll {
    /// Generate a random oracle roll: `num` independent draws in [1, 100],
    /// in draw order.
    pub fn random(num: usize) -> (r: OracleRoll)
        requires
            1 <= num <= 255,
        ensures
            r.outcomes@.len() == num,
            forall|i: int| 0 <= i < r.outcomes@.len() ==> 1 <= #[trigger] r.outcomes@[i] <= 100,
    {
        let mut outcomes: Vec<u32> = Vec::new();
        let mut k: usize = 0;
        while k < num
            invariant
                k <= num,
                outcomes@.len() == k,
                forall|i: int| 0 <= i < k ==> 1 <= #[trigger] outcomes@[i] <= 100,
            decreases num - k,
        {
            outcomes.push(crate::rng::draw_in_range(1, 100));
            k = k + 1;
        }
        OracleRoll { outcomes }
    }
}

/// The specification for a custom roll.
#[derive(Debug, Clone, PartialEq, Eq)]
pub struct RollSpec {
    pub dice: Vec<InputType>,
    pub bonuses: Vec<InputType>,
}

/// The sum of a list of flat bonuses.
pub open spec fn sum_bonuses(s: Seq<InputType>) -> int
    decreases s.len(),
{
    if s.len() == 0 {
        0
    } else {
        sum_bonuses(s.drop_last()) + s.last() as int
    }
}

impl RollSpec {
    /// A spec fit to roll: at least one die, every die with at least one
    /// face, and lists small enough that evaluation stays bounded.
    pub open spec fn spec_rollable(self) -> bool {
        &&& 1 <= self.dice@.len() <= MAX_DICE
        &&& self.bonuses@.len() <= MAX_BONUSES
        &&& forall|i: int| 0 <= i < self.dice@.len() ==> #[trigger] self.dice@[i] >= 1
    }

    /// Rejects a degenerate spec (no dice, a zero-faced die, or lists too
    /// large to evaluate) at the boundary between parsing and evaluation.
    pub fn validate(&self) -> (ok: bool)
        ensures
            ok == self.spec_rollable(),
    {
        if self.dice.len() == 0 || self.dice.len() > MAX_DICE || self.bonuses.len() > MAX_BONUSES {
            return false;
        }
        let mut i: usize = 0;
        while i < self.dice.len()
            invariant
                i <= self.dice@.len(),
                1 <= self.dice@.len() <= MAX_DICE,
                self.bonuses@.len() <= MAX_BONUSES,
                forall|k: int| 0 <= k < i ==> #[trigger] self.dice@[k] >= 1,
            decreases self.dice@.len() - i,
        {
            if self.dice[i] == 0 {
                assert(!self.spec_rollable());
                return false;
            }
            i = i + 1;
        }
        true
    }
}

impl core::str::FromStr for RollSpec {
    type Err = ();

    /// Parse a `RollSpec` from a string like `3d6+5`.
    fn from_str(s: &str) -> Result<Self, Self::Err> {
        crate::parse_roll_spec::parse(s)
    }
}

/// A die with a result.
#[derive(Debug, Clone, Copy, PartialEq, Eq, Structural)]
pub struct RolledDie {
    pub size: OutputType,
    pub roll: OutputType,
}

/// Face sizes are in descending order; ties are allowed.
pub open spec fn sorted_desc(s: Seq<RolledDie>) -> bool {
    forall|i: int, j: int| 0 <= i < j < s.len() ==> #[trigger] s[i].size >= #[trigger] s[j].size
}

/// The face sizes of a sequence of rolled dice, in order.
pub open spec fn sizes_of(s: Seq<RolledDie>) -> Seq<OutputType> {
    s.map_values(|d: RolledDie| d.size)
}

/// A list of die-face sizes widened to the output range.
pub open spec fn widen(s: Seq<InputType>) -> Seq<OutputType> {
    s.map_values(|x: InputType| x as OutputType)
}

/// Consecutive equal face sizes grouped into `(count, size)` pairs, in
/// order of first appearance.
pub open spec fn rle(s: Seq<OutputType>) -> Seq<(int, OutputType)>
    decreases s.len(),
{
    if s.len() == 0 {
        Seq::empty()
    } else {
        let r = rle(s.drop_last());
        let x = s.last();
        if r.len() > 0 && r.last().1 == x {
            r.update(r.len() - 1, (r.last().0 + 1, x))
        } else {
            r.push((1int, x))
        }
    }
}

/// The total number of dice covered by a list of groups.
pub open spec fn count_sum(gs: Seq<(int, OutputType)>) -> int
    decreases gs.len(),
{
    if gs.len() == 0 {
        0
    } else {
        count_sum(gs.drop_last()) + gs.last().0
    }
}

/// Every group covers at least one die and no more than the whole list, the
/// groups together cover the list exactly, and a nonempty list's last group
/// carries its last size.
pub proof fn lemma_rle_basic(s: Seq<OutputType>)
    ensures
        count_sum(rle(s)) == s.len(),
        forall|i: int| 0 <= i < rle(s).len() ==> 1 <= #[trigger] rle(s)[i].0 <= s.len(),
        s.len() > 0 ==> rle(s).len() > 0 && rle(s).last().1 == s.last(),
    decreases s.len(),
{
    if s.len() > 0 {
        let p = s.drop_last();
        lemma_rle_basic(p);
        let r = rle(p);
        let x = s.last();
        if r.len() > 0 && r.last().1 == x {
            let g = r.update(r.len() - 1, (r.last().0 + 1, x));
            assert(g.drop_last() =~= r.drop_last());
            assert(count_sum(g) == count_sum(r.drop_last()) + r.last().0 + 1);
            assert(count_sum(r) == count_sum(r.drop_last()) + r.last().0);
        } else {
            let g = r.push((1int, x));
            assert(g.drop_last() =~= r);
            assert(count_sum(g) == count_sum(r) + 1);
        }
    }
}

/// Grouping a size-descending list of dice loses nothing: the group counts
/// sum to the number of dice, and the group sizes are strictly decreasing,
/// so consecutive equal sizes fall into a single group.
pub proof fn lemma_grouping_round_trip(s: Seq<OutputType>)
    requires
        forall|i: int, j: int| 0 <= i < j < s.len() ==> #[trigger] s[i] >= #[trigger] s[j],
    ensures
        count_sum(rle(s)) == s.len(),
        forall|i: int| 0 <= i < rle(s).len() - 1 ==> #[trigger] rle(s)[i].1 > rle(s)[i + 1].1,
    decreases s.len(),
{
    lemma_rle_basic(s);
    if s.len() > 0 {
        let p = s.drop_last();
        lemma_grouping_round_trip(p);
        lemma_rle_basic(p);
        let r = rle(p);
        let x = s.last();
        if r.len() > 0 && r.last().1 == x {
            let g = r.update(r.len() - 1, (r.last().0 + 1, x));
            assert(forall|i: int| 0 <= i < g.len() - 1 ==> #[trigger] g[i].1 > g[i + 1].1);
        } else {
            let g = r.push((1int, x));
            if r.len() > 0 {
                assert(r.last().1 == p.last());
                assert(p.last() == s[s.len() - 2]);
                assert(s[s.len() - 2] >= x);
            }
            assert(forall|i: int| 0 <= i < g.len() - 1 ==> #[trigger] g[i].1 > g[i + 1].1);
        }
    }
}

/// The result of a custom roll.
#[derive(Debug, Clone, PartialEq, Eq)]
pub struct CustomRoll {
    /// All rolled dice, in descending order of size.
    pub rolls: Vec<RolledDie>,
    /// The total bonus.
    pub bonus: OutputType,
}

/// Insert a rolled die into a size-descending list, before the first die of
/// strictly smaller size, so that the list stays sorted.
fn insert_sorted(rolls: &mut Vec<RolledDie>, d: RolledDie)
    requires
        sorted_desc(old(rolls)@),
    ensures
        sorted_desc(final(rolls)@),
        exists|idx: int|
            0 <= idx <= old(rolls)@.len() && final(rolls)@ == #[trigger] old(rolls)@.insert(
                idx,
                d,
            ),
{
    let mut idx: usize = 0;
    while idx < rolls.len() && rolls[idx].size >= d.size
        invariant
            idx <= rolls@.len(),
            sorted_desc(rolls@),
            forall|k: int| 0 <= k < idx ==> #[trigger] rolls@[k].size >= d.size,
            rolls@ == old(rolls)@,
        decreases rolls@.len() - idx,
    {
        idx = idx + 1;
    }
    rolls.insert(idx, d);
    proof {
        let s = old(rolls)@;
        let t = rolls@;
        assert(t == s.insert(idx as int, d));
        assert forall|i: int, j: int| 0 <= i < j < t.len() implies #[trigger] t[i].size
            >= #[trigger] t[j].size by {
            if i < idx && j < idx {
            } else if i < idx && j == idx {
            } else if i == idx && j > idx {
                assert(t[j] == s[j - 1]);
                assert(s[j - 1].size <= s[idx as int].size);
            } else if i < idx && j > idx {
                assert(t[j] == s[j - 1]);
            } else {
                assert(t[i] == s[i - 1]);
                assert(t[j] == s[j - 1]);
            }
        }
    }
}

impl CustomRoll {
    /// The value ranges and ordering every evaluator-produced custom roll
    /// satisfies: size-descending dice, every rolled value within its die's
    /// faces, and a bounded total bonus.
    pub open spec fn wf(self) -> bool {
        &&& sorted_desc(self.rolls@)
        &&& self.rolls@.len() <= MAX_DICE
        &&& forall|i: int|
            0 <= i < self.rolls@.len() ==> 1 <= #[trigger] self.rolls@[i].roll
                <= self.rolls@[i].size <= 255
        &&& self.bonus as int <= 255 * (MAX_BONUSES as int)
    }

    /// The rolled dice paired with their face sizes, in spec order: one
    /// entry per die, carrying the supplied draw.
    pub open spec fn paired(dice: Seq<InputType>, draws: Seq<OutputType>) -> Seq<RolledDie> {
        Seq::new(dice.len(), |i: int| RolledDie { size: dice[i] as OutputType, roll: draws[i] })
    }

    /// Assemble a custom roll from one pre-drawn value per die, supplied in
    /// spec order: the dice sorted by descending face size, and the bonuses
    /// summed into a single total. This is the deterministic core of
    /// evaluation; `random` feeds it uniform draws.
    pub fn from_draws(spec: &RollSpec, draws: &Vec<OutputType>) -> (r: CustomRoll)
        requires
            spec.spec_rollable(),
            draws@.len() == spec.dice@.len(),
            forall|i: int|
                0 <= i < draws@.len() ==> 1 <= #[trigger] draws@[i] <= spec.dice@[i] as OutputType,
        ensures
            r.rolls@.len() == spec.dice@.len(),
            forall|i: int|
                0 <= i < r.rolls@.len() ==> 1 <= #[trigger] r.rolls@[i].roll <= r.rolls@[i].size,
            r.rolls@.to_multiset() == Self::paired(spec.dice@, draws@).to_multiset(),
            sizes_of(r.rolls@).to_multiset() == widen(spec.dice@).to_multiset(),
            sorted_desc(r.rolls@),
            r.bonus as int == sum_bonuses(spec.bonuses@),
            r.wf(),
    {
        broadcast use group_to_multiset_ensures;

        let ghost pt = Self::paired(spec.dice@, draws@);
        let mut rolls: Vec<RolledDie> = Vec::new();
        let mut i: usize = 0;
        proof {
            assert(widen(spec.dice@.take(0)) =~= Seq::<OutputType>::empty());
            assert(pt.take(0) =~= Seq::<RolledDie>::empty());
            assert(sizes_of(rolls@) =~= Seq::<OutputType>::empty());
            assert(rolls@ =~= Seq::<RolledDie>::empty());
        }
        while i < spec.dice.len()
            invariant
                spec.spec_rollable(),
                draws@.len() == spec.dice@.len(),
                forall|k: int|
                    0 <= k < draws@.len() ==> 1 <= #[trigger] draws@[k] <= spec.dice@[k] as OutputType,
                pt == Self::paired(spec.dice@, draws@),
                i <= spec.dice@.len(),
                rolls@.len() == i,
                sorted_desc(rolls@),
                forall|k: int|
                    0 <= k < rolls@.len() ==> 1 <= #[trigger] rolls@[k].roll <= rolls@[k].size
                        <= 255,
                rolls@.to_multiset() == pt.take(i as int).to_multiset(),
                sizes_of(rolls@).to_multiset() == widen(spec.dice@.take(i as int)).to_multiset(),
            decreases spec.dice@.len() - i,
        {
            let die = spec.dice[i];
            let roll = draws[i];
            let ghost prev = rolls@;
            insert_sorted(&mut rolls, RolledDie { size: die as u32, roll });
            proof {
                let d = RolledDie { size: die as u32, roll };
                let idx = choose|idx: int|
                    0 <= idx <= prev.len() && rolls@ == #[trigger] prev.insert(idx, d);
                assert(rolls@ == prev.insert(idx, d));
                assert forall|k: int| 0 <= k < rolls@.len() implies 1 <= #[trigger] rolls@[k].roll
                    <= rolls@[k].size <= 255 by {
                    if k < idx {
                        assert(rolls@[k] == prev[k]);
                    } else if k == idx {
                        assert(rolls@[k] == d);
                    } else {
                        assert(rolls@[k] == prev[k - 1]);
                    }
                }
                vstd::seq_lib::to_multiset_insert(prev, idx, d);
                assert(pt.take(i + 1) =~= pt.take(i as int).push(d));
                vstd::seq_lib::to_multiset_build(pt.take(i as int), d);
                assert(sizes_of(rolls@) =~= sizes_of(prev).insert(idx, die as u32));
                vstd::seq_lib::to_multiset_insert(sizes_of(prev), idx, die as u32);
                assert(sizes_of(prev).insert(idx, die as u32).to_multiset() == sizes_of(
                    prev,
                ).to_multiset().insert(die as u32));
                assert(spec.dice@.take(i + 1).drop_last() =~= spec.dice@.take(i as int));
                assert(widen(spec.dice@.take(i + 1)) =~= widen(spec.dice@.take(i as int)).push(
                    die as u32,
                ));
                vstd::seq_lib::to_multiset_build(widen(spec.dice@.take(i as int)), die as u32);
                assert(widen(spec.dice@.take(i as int)).push(die as u32).to_multiset() == widen(
                    spec.dice@.take(i as int),
                ).to_multiset().insert(die as u32));
            }
            i = i + 1;
        }
        proof {
            assert(spec.dice@.take(spec.dice@.len() as int) =~= spec.dice@);
            assert(pt.take(pt.len() as int) =~= pt);
        }
        let mut bonus: u32 = 0;
        let mut j: usize = 0;
        proof {
            assert(spec.bonuses@.take(0) =~= Seq::<InputType>::empty());
        }
        while j < spec.bonuses.len()
            invariant
                j <= spec.bonuses@.len(),
                spec.bonuses@.len() <= MAX_BONUSES,
                bonus as int == sum_bonuses(spec.bonuses@.take(j as int)),
                bonus as int <= 255 * j,
            decreases spec.bonuses@.len() - j,
        {
            proof {
                assert(spec.bonuses@.take(j + 1).drop_last() =~= spec.bonuses@.take(j as int));
                assert(spec.bonuses@.take(j + 1).last() == spec.bonuses@[j as int]);
            }
            bonus = bonus + spec.bonuses[j] as u32;
            j = j + 1;
        }
        proof {
            assert(spec.bonuses@.take(spec.bonuses@.len() as int) =~= spec.bonuses@);
        }
        CustomRoll { rolls, bonus }
    }

    /// Perform a custom roll: one uniform draw in [1, face size] per die in
    /// the spec, the results sorted by descending face size, and the bonuses
    /// summed into a single total.
    pub fn random(spec: RollSpec) -> (r: CustomRoll)
        requires
            spec.spec_rollable(),
        ensures
            r.rolls@.len() == spec.dice@.len(),
            forall|i: int|
                0 <= i < r.rolls@.len() ==> 1 <= #[trigger] r.rolls@[i].roll <= r.rolls@[i].size,
            sizes_of(r.rolls@).to_multiset() == widen(spec.dice@).to_multiset(),
            sorted_desc(r.rolls@),
            r.bonus as int == sum_bonuses(spec.bonuses@),
            r.wf(),
    {
        let mut draws: Vec<OutputType> = Vec::new();
        let mut i: usize = 0;
        while i < spec.dice.len()
            invariant
                spec.spec_rollable(),
                i <= spec.dice@.len(),
                draws@.len() == i,
                forall|k: int|
                    0 <= k < draws@.len() ==> 1 <= #[trigger] draws@[k] <= spec.dice@[k] as OutputType,
            decreases spec.dice@.len() - i,
        {
            let die = spec.dice[i];
            draws.push(crate::rng::draw_in_range(1, die as u32));
            i = i + 1;
        }
        Self::from_draws(&spec, &draws)
    }

    /// Get the list of all dice in this roll, e.g. `[2d4, 1d6, 5d8]`.
    /// This is returned as a list of `(count, size)` pairs.
    /// We depend on the invariant that `self.rolls` is in descending size
    /// order, so dice of one size fall into one group.
    pub fn dice(&self) -> (groups: Vec<(OutputType, OutputType)>)
        requires
            self.wf(),
        ensures
            groups@.len() == rle(sizes_of(self.rolls@)).len(),
            forall|i: int|
                0 <= i < groups@.len() ==> #[trigger] groups@[i].0 as int == rle(
                    sizes_of(self.rolls@),
                )[i].0 && groups@[i].1 == rle(sizes_of(self.rolls@))[i].1,
    {
        let ghost szs = sizes_of(self.rolls@);
        let mut groups: Vec<(u32, u32)> = Vec::new();
        let mut i: usize = 0;
        proof {
            assert(szs.take(0) =~= Seq::<OutputType>::empty());
        }
        while i < self.rolls.len()
            invariant
                self.wf(),
                i <= self.rolls@.len(),
                szs == sizes_of(self.rolls@),
                groups@.len() == rle(szs.take(i as int)).len(),
                forall|k: int|
                    0 <= k < groups@.len() ==> #[trigger] groups@[k].0 as int == rle(
                        szs.take(i as int),
                    )[k].0 && groups@[k].1 == rle(szs.take(i as int))[k].1,
            decreases self.rolls@.len() - i,
        {
            let size = self.rolls[i].size;
            proof {
                assert(szs.take(i + 1).drop_last() =~= szs.take(i as int));
                assert(szs.take(i + 1).last() == szs[i as int]);
                assert(szs[i as int] == self.rolls@[i as int].size);
                lemma_rle_basic(szs.take(i as int));
            }
            let ghost gprev = groups@;
            let ghost r = rle(szs.take(i as int));
            let ghost g = rle(szs.take(i + 1));
            if groups.len() == 0 {
                groups.push((1, size));
                proof {
                    assert(g == r.push((1int, size)));
                    assert forall|k: int|
                        0 <= k < groups@.len() implies #[trigger] groups@[k].0 as int == g[k].0
                        && groups@[k].1 == g[k].1 by {
                        if k < gprev.len() {
                            assert(groups@[k] == gprev[k]);
                        }
                    }
                }
            } else {
                let last = groups.len() - 1;
                let (c, gsize) = groups[last];
                proof {
                    assert(gprev[last as int].1 == r.last().1);
                    assert(gprev[last as int].0 as int == r.last().0);
                    assert(r.last().0 <= szs.take(i as int).len());
                }
                if gsize == size {
                    groups.set(last, (c + 1, gsize));
                    proof {
                        assert(g == r.update(r.len() - 1, (r.last().0 + 1, size)));
                        assert(groups@ == gprev.update(last as int, ((c + 1) as u32, gsize)));
                        assert(groups@.len() == gprev.len() && gprev.len() == r.len() && r.len()
                            == g.len());
                        assert forall|k: int|
                            0 <= k < groups@.len() implies #[trigger] groups@[k].0 as int == g[k].0
                            && groups@[k].1 == g[k].1 by {
                            if k < last as int {
                                assert(groups@[k] == gprev[k]);
                                assert(g[k] == r[k]);
                            } else {
                                assert(k == last as int);
                                assert(groups@[k].0 == c + 1 && groups@[k].1 == gsize);
                                assert(g[k] == (r.last().0 + 1, size));
                            }
                        }
                    }
                } else {
                    groups.push((1, size));
                    proof {
                        assert(g == r.push((1int, size)));
                        assert forall|k: int|
                            0 <= k < groups@.len() implies #[trigger] groups@[k].0 as int == g[k].0
                            && groups@[k].1 == g[k].1 by {
                            if k < gprev.len() {
                                assert(groups@[k] == gprev[k]);
                            }
                        }
                    }
                }
            }
            i = i + 1;
        }
        proof {
            assert(szs.take(self.rolls@.len() as int) =~= szs);
        }
        groups
    }
}

} // verus!
