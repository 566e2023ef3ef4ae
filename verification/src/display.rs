//! Rendering of completed rolls into their canonical display strings.
//! Formatting never mutates a roll: every method is a pure projection,
//! specified character for character.

use vstd::prelude::*;
use vstd::string::StringExecFns;

use crate::rolls::{
    classify, rle, sizes_of, ActionRoll, CustomRoll, OracleRoll, Outcome, ProgressRoll, RolledDie,
};
use crate::OutputType;

verus! {

/// The character for one decimal digit.
pub open spec fn digit_char(d: int) -> char {
    if d == 0 {
        '0'
    } else if d == 1 {
        '1'
    } else if d == 2 {
        '2'
    } else if d == 3 {
        '3'
    } else if d == 4 {
        '4'
    } else if d == 5 {
        '5'
    } else if d == 6 {
        '6'
    } else if d == 7 {
        '7'
    } else if d == 8 {
        '8'
    } else {
        '9'
    }
}

/// The decimal rendering of a nonnegative number, most significant digit
/// first, with no leading zeroes.
pub open spec fn dec_str(n: int) -> Seq<char>
    decreases n,
{
    if n < 10 {
        seq![digit_char(n)]
    } else {
        dec_str(n / 10) + seq![digit_char(n % 10)]
    }
}

fn digit_literal(d: u32) -> (s: &'static str)
    requires
        d < 10,
    ensures
        s@ =~= seq![digit_char(d as int)],
{
    proof {
        reveal_strlit("0");
        reveal_strlit("1");
        reveal_strlit("2");
        reveal_strlit("3");
        reveal_strlit("4");
        reveal_strlit("5");
        reveal_strlit("6");
        reveal_strlit("7");
        reveal_strlit("8");
        reveal_strlit("9");
    }
    match d {
        0 => "0",
        1 => "1",
        2 => "2",
        3 => "3",
        4 => "4",
        5 => "5",
        6 => "6",
        7 => "7",
        8 => "8",
        _ => "9",
    }
}

/// Render a number in decimal.
pub fn u32_to_string(n: u32) -> (s: String)
    ensures
        s@ == dec_str(n as int),
    decreases n,
{
    if n < 10 {
        let mut s = String::new();
        s.append(digit_literal(n));
        proof {
            assert(Seq::<char>::empty() + seq![digit_char(n as int)] =~= seq![
                digit_char(n as int),
            ]);
        }
        s
    } else {
        let mut s = u32_to_string(n / 10);
        s.append(digit_literal(n % 10));
        s
    }
}

/// The display name of an outcome tier.
pub open spec fn outcome_text(o: Outcome) -> Seq<char> {
    match o {
        Outcome::Miss => "Miss"@,
        Outcome::WeakHit => "Weak Hit"@,
        Outcome::StrongHit => "Strong Hit"@,
    }
}

impl Outcome {
    /// The outcome's display name.
    pub fn display(&self) -> (s: String)
        ensures
            s@ == outcome_text(*self),
    {
        let lit = match *self {
            Outcome::Miss => "Miss",
            Outcome::WeakHit => "Weak Hit",
            Outcome::StrongHit => "Strong Hit",
        };
        let mut s = String::new();
        s.append(lit);
        proof {
            assert(Seq::<char>::empty() + lit@ =~= lit@);
        }
        s
    }
}

/// The segment naming a matched challenge pair in a scored roll.
pub open spec fn match_marker(matched: bool) -> Seq<char> {
    if matched {
        "Matched "@
    } else {
        Seq::empty()
    }
}

/// The canonical rendering of an action roll.
pub open spec fn action_display_text(r: ActionRoll) -> Seq<char> {
    let c1 = r.challenge_dice[0] as int;
    let c2 = r.challenge_dice[1] as int;
    match r.bonus {
        Some(b) => "Action Roll: ["@ + dec_str(r.action_die as int) + "]+"@ + dec_str(b as int)
            + " = "@ + dec_str(r.spec_score_val(b)) + " vs ["@ + dec_str(c1) + "] ["@ + dec_str(c2)
            + "] ("@ + match_marker(r.spec_is_match()) + outcome_text(
            classify(r.spec_score_val(b), c1, c2),
        ) + ")"@,
        None => "Action Roll: ["@ + dec_str(r.action_die as int) + "] vs ["@ + dec_str(c1)
            + "] ["@ + dec_str(c2) + "]"@ + (if r.spec_is_match() {
            " (Match)"@
        } else {
            Seq::empty()
        }),
    }
}

impl ActionRoll {
    /// Render the roll in its canonical display form.
    pub fn display(&self) -> (out: String)
        requires
            self.wf(),
        ensures
            out@ == action_display_text(*self),
    {
        let mut out = String::new();
        match self.bonus {
            Some(b) => {
                out.append("Action Roll: [");
                proof {
                    assert(Seq::<char>::empty() + "Action Roll: ["@ =~= "Action Roll: ["@);
                }
                out.append(u32_to_string(self.action_die).as_str());
                out.append("]+");
                out.append(u32_to_string(b as u32).as_str());
                out.append(" = ");
                let sc = self.score().unwrap();
                out.append(u32_to_string(sc).as_str());
                out.append(" vs [");
                out.append(u32_to_string(self.challenge_dice[0]).as_str());
                out.append("] [");
                out.append(u32_to_string(self.challenge_dice[1]).as_str());
                out.append("] (");
                let ghost mid = out@;
                if self.is_match() {
                    out.append("Matched ");
                } else {
                    proof {
                        assert(mid + Seq::<char>::empty() =~= mid);
                    }
                }
                let oc = self.outcome().unwrap();
                out.append(oc.display().as_str());
                out.append(")");
            },
            None => {
                out.append("Action Roll: [");
                proof {
                    assert(Seq::<char>::empty() + "Action Roll: ["@ =~= "Action Roll: ["@);
                }
                out.append(u32_to_string(self.action_die).as_str());
                out.append("] vs [");
                out.append(u32_to_string(self.challenge_dice[0]).as_str());
                out.append("] [");
                out.append(u32_to_string(self.challenge_dice[1]).as_str());
                out.append("]");
                let ghost mid = out@;
                if self.is_match() {
                    out.append(" (Match)");
                } else {
                    proof {
                        assert(mid + Seq::<char>::empty() =~= mid);
                    }
                }
            },
        }
        out
    }
}

/// The canonical rendering of a progress roll.
pub open spec fn progress_display_text(r: ProgressRoll) -> Seq<char> {
    let c1 = r.challenge_dice[0] as int;
    let c2 = r.challenge_dice[1] as int;
    match r.bonus {
        Some(b) => "Progress Roll: "@ + dec_str(r.spec_score_val(b)) + " vs ["@ + dec_str(c1)
            + "] ["@ + dec_str(c2) + "] ("@ + match_marker(r.spec_is_match()) + outcome_text(
            classify(r.spec_score_val(b), c1, c2),
        ) + ")"@,
        None => "Progress Roll: ["@ + dec_str(c1) + "] ["@ + dec_str(c2) + "]"@ + (
        if r.spec_is_match() {
            " (Match)"@
        } else {
            Seq::empty()
        }),
    }
}

impl ProgressRoll {
    /// Render the roll in its canonical display form.
    pub fn display(&self) -> (out: String)
        ensures
            out@ == progress_display_text(*self),
    {
        let mut out = String::new();
        match self.bonus {
            Some(_b) => {
                out.append("Progress Roll: ");
                proof {
                    assert(Seq::<char>::empty() + "Progress Roll: "@ =~= "Progress Roll: "@);
                }
                let sc = self.score().unwrap();
                out.append(u32_to_string(sc).as_str());
                out.append(" vs [");
                out.append(u32_to_string(self.challenge_dice[0]).as_str());
                out.append("] [");
                out.append(u32_to_string(self.challenge_dice[1]).as_str());
                out.append("] (");
                let ghost mid = out@;
                if self.is_match() {
                    out.append("Matched ");
                } else {
                    proof {
                        assert(mid + Seq::<char>::empty() =~= mid);
                    }
                }
                let oc = self.outcome().unwrap();
                out.append(oc.display().as_str());
                out.append(")");
            },
            None => {
                out.append("Progress Roll: [");
                proof {
                    assert(Seq::<char>::empty() + "Progress Roll: ["@ =~= "Progress Roll: ["@);
                }
                out.append(u32_to_string(self.challenge_dice[0]).as_str());
                out.append("] [");
                out.append(u32_to_string(self.challenge_dice[1]).as_str());
                out.append("]");
                let ghost mid = out@;
                if self.is_match() {
                    out.append(" (Match)");
                } else {
                    proof {
                        assert(mid + Seq::<char>::empty() =~= mid);
                    }
                }
            },
        }
        out
    }
}

/// The bracketed oracle draws, in draw order.
pub open spec fn oracle_items_text(vals: Seq<OutputType>) -> Seq<char>
    decreases vals.len(),
{
    if vals.len() == 0 {
        Seq::empty()
    } else {
        oracle_items_text(vals.drop_last()) + " ["@ + dec_str(vals.last() as int) + "]"@
    }
}

/// The canonical rendering of an oracle roll.
pub open spec fn oracle_display_text(r: OracleRoll) -> Seq<char> {
    "Oracle Roll:"@ + oracle_items_text(r.outcomes@)
}

impl OracleRoll {
    /// Render the roll in its canonical display form.
    pub fn display(&self) -> (out: String)
        ensures
            out@ == oracle_display_text(*self),
    {
        let mut out = String::new();
        out.append("Oracle Roll:");
        proof {
            assert(Seq::<char>::empty() + "Oracle Roll:"@ =~= "Oracle Roll:"@);
            assert(oracle_items_text(self.outcomes@.take(0)) == Seq::<char>::empty());
            assert("Oracle Roll:"@ + Seq::<char>::empty() =~= "Oracle Roll:"@);
        }
        let mut i: usize = 0;
        while i < self.outcomes.len()
            invariant
                i <= self.outcomes@.len(),
                out@ == "Oracle Roll:"@ + oracle_items_text(self.outcomes@.take(i as int)),
            decreases self.outcomes@.len() - i,
        {
            out.append(" [");
            out.append(u32_to_string(self.outcomes[i]).as_str());
            out.append("]");
            proof {
                assert(self.outcomes@.take(i + 1).drop_last() =~= self.outcomes@.take(i as int));
                assert(self.outcomes@.take(i + 1).last() == self.outcomes@[i as int]);
                assert(out@ =~= "Oracle Roll:"@ + oracle_items_text(self.outcomes@.take(i + 1)));
            }
            i = i + 1;
        }
        proof {
            assert(self.outcomes@.take(self.outcomes@.len() as int) =~= self.outcomes@);
        }
        out
    }
}

/// The grouped dice composition, each group as ` <count>d<size>`, with
/// ` +` between groups.
pub open spec fn groups_text(gs: Seq<(int, OutputType)>) -> Seq<char>
    decreases gs.len(),
{
    if gs.len() == 0 {
        Seq::empty()
    } else {
        groups_text(gs.drop_last()) + (if gs.len() > 1 {
            " +"@
        } else {
            Seq::empty()
        }) + " "@ + dec_str(gs.last().0) + "d"@ + dec_str(gs.last().1 as int)
    }
}

/// The bracketed rolled values, in dice order.
pub open spec fn rolls_text(rs: Seq<RolledDie>) -> Seq<char>
    decreases rs.len(),
{
    if rs.len() == 0 {
        Seq::empty()
    } else {
        rolls_text(rs.drop_last()) + " ["@ + dec_str(rs.last().roll as int) + "]"@
    }
}

/// The sum of the rolled values.
pub open spec fn sum_rolls(rs: Seq<RolledDie>) -> int
    decreases rs.len(),
{
    if rs.len() == 0 {
        0
    } else {
        sum_rolls(rs.drop_last()) + rs.last().roll as int
    }
}

/// The canonical rendering of a custom roll: the grouped dice composition,
/// the bonus term when it is nonzero, every rolled value, and a total
/// whenever more than one value contributes.
pub open spec fn custom_display_text(r: CustomRoll) -> Seq<char> {
    let gs = rle(sizes_of(r.rolls@));
    let total = sum_rolls(r.rolls@) + r.bonus as int;
    "Roll"@ + groups_text(gs) + (if r.bonus > 0 {
        " + "@ + dec_str(r.bonus as int)
    } else {
        Seq::empty()
    }) + ": "@ + rolls_text(r.rolls@) + (if r.bonus > 0 {
        " + "@ + dec_str(r.bonus as int)
    } else {
        Seq::empty()
    }) + (if r.rolls@.len() > 1 || r.bonus > 0 {
        "  (Total: "@ + dec_str(total) + ")"@
    } else {
        Seq::empty()
    })
}

impl CustomRoll {
    /// Render the roll in its canonical display form.
    pub fn display(&self) -> (out: String)
        requires
            self.wf(),
        ensures
            out@ == custom_display_text(*self),
    {
        let ghost gs = rle(sizes_of(self.rolls@));
        let groups = self.dice();
        let mut out = String::new();
        out.append("Roll");
        proof {
            assert(Seq::<char>::empty() + "Roll"@ =~= "Roll"@);
            assert(groups_text(gs.take(0)) == Seq::<char>::empty());
            assert("Roll"@ + Seq::<char>::empty() =~= "Roll"@);
        }
        let mut gi: usize = 0;
        while gi < groups.len()
            invariant
                gi <= groups@.len(),
                gs == rle(sizes_of(self.rolls@)),
                groups@.len() == gs.len(),
                forall|k: int|
                    0 <= k < groups@.len() ==> #[trigger] groups@[k].0 as int == gs[k].0
                        && groups@[k].1 == gs[k].1,
                out@ == "Roll"@ + groups_text(gs.take(gi as int)),
            decreases groups@.len() - gi,
        {
            let (c, sz) = groups[gi];
            let ghost pre = out@;
            if gi > 0 {
                out.append(" +");
            } else {
                proof {
                    assert(pre + Seq::<char>::empty() =~= pre);
                }
            }
            out.append(" ");
            out.append(u32_to_string(c).as_str());
            out.append("d");
            out.append(u32_to_string(sz).as_str());
            proof {
                assert(gs.take(gi + 1).drop_last() =~= gs.take(gi as int));
                assert(gs.take(gi + 1).last() == gs[gi as int]);
                assert(out@ =~= "Roll"@ + groups_text(gs.take(gi + 1)));
            }
            gi = gi + 1;
        }
        proof {
            assert(gs.take(gs.len() as int) =~= gs);
        }
        let ghost after_groups = out@;
        if self.bonus > 0 {
            out.append(" + ");
            out.append(u32_to_string(self.bonus).as_str());
        } else {
            proof {
                assert(after_groups + Seq::<char>::empty() =~= after_groups);
            }
        }
        out.append(": ");
        proof {
            assert(rolls_text(self.rolls@.take(0)) == Seq::<char>::empty());
            assert(out@ + Seq::<char>::empty() =~= out@);
        }
        let ghost after_colon = out@;
        let mut total: u32 = 0;
        let mut ri: usize = 0;
        while ri < self.rolls.len()
            invariant
                self.wf(),
                ri <= self.rolls@.len(),
                out@ == after_colon + rolls_text(self.rolls@.take(ri as int)),
                total as int == sum_rolls(self.rolls@.take(ri as int)),
                total as int <= 255 * ri,
            decreases self.rolls@.len() - ri,
        {
            let d = self.rolls[ri];
            out.append(" [");
            out.append(u32_to_string(d.roll).as_str());
            out.append("]");
            proof {
                assert(self.rolls@.take(ri + 1).drop_last() =~= self.rolls@.take(ri as int));
                assert(self.rolls@.take(ri + 1).last() == self.rolls@[ri as int]);
                assert(out@ =~= after_colon + rolls_text(self.rolls@.take(ri + 1)));
            }
            total = total + d.roll;
            ri = ri + 1;
        }
        proof {
            assert(self.rolls@.take(self.rolls@.len() as int) =~= self.rolls@);
        }
        let ghost after_rolls = out@;
        if self.bonus > 0 {
            out.append(" + ");
            out.append(u32_to_string(self.bonus).as_str());
            total = total + self.bonus;
        } else {
            proof {
                assert(after_rolls + Seq::<char>::empty() =~= after_rolls);
            }
        }
        let ghost after_bonus = out@;
        if self.rolls.len() > 1 || self.bonus > 0 {
            out.append("  (Total: ");
            out.append(u32_to_string(total).as_str());
            out.append(")");
        } else {
            proof {
                assert(after_bonus + Seq::<char>::empty() =~= after_bonus);
            }
        }
        proof {
            assert(out@ =~= custom_display_text(*self));
        }
        out
    }
}

} // verus!
