//! The notation lexer and parser: turns a string such as `2d6+1d4+3` into a
//! `RollSpec` holding one entry per die to roll plus the flat bonuses.

use vstd::prelude::*;
use vstd::string::StrSliceExecFns;

use crate::rolls::RollSpec;
use crate::InputType;

verus! {

/// Whitespace characters that separate tokens and are discarded.
pub open spec fn is_space_char(c: char) -> bool {
    c == ' ' || c == '\t' || c == '\n' || c == '\r' || c == '\u{000B}' || c == '\u{000C}'
}

/// ASCII decimal digits.
pub open spec fn is_digit_char(c: char) -> bool {
    48 <= c as int <= 57
}

/// The case-insensitive die separator.
pub open spec fn is_d_char(c: char) -> bool {
    c == 'd' || c == 'D'
}

/// The numeric value of one decimal digit.
pub open spec fn digit_val(c: char) -> int {
    c as int - 48
}

/// The first position at or after `i` that does not hold a digit.
pub open spec fn digit_run_end(s: Seq<char>, i: int) -> int
    decreases s.len() - i,
{
    if 0 <= i < s.len() && is_digit_char(s[i]) {
        digit_run_end(s, i + 1)
    } else {
        i
    }
}

pub proof fn lemma_digit_run_end(s: Seq<char>, i: int)
    requires
        0 <= i <= s.len(),
    ensures
        i <= digit_run_end(s, i) <= s.len(),
    decreases s.len() - i,
{
    if i < s.len() && is_digit_char(s[i]) {
        lemma_digit_run_end(s, i + 1);
    }
}

/// The decimal value of the digits at positions `[i, j)`, most significant
/// first.
pub open spec fn digits_val(s: Seq<char>, i: int, j: int) -> int
    decreases j - i,
{
    if i < j {
        digits_val(s, i, j - 1) * 10 + digit_val(s[j - 1])
    } else {
        0
    }
}

/// The digits' value, capped one above the 8-bit input range so that an
/// overflowing literal is still recognized as such.
pub open spec fn capped_val(s: Seq<char>, i: int, j: int) -> int {
    if digits_val(s, i, j) <= 255 {
        digits_val(s, i, j)
    } else {
        256
    }
}

/// A token that we use to parse.
#[derive(Debug, Clone, Copy, PartialEq, Eq, Structural)]
pub enum Token {
    /// An `XdY` roll specification, as `(count, size)`.
    XdY(InputType, InputType),
    /// A bonus specification.
    Bonus(InputType),
    /// The `+` character.
    Plus,
}

pub open spec fn prepend_token(t: Token, rest: Option<Seq<Token>>) -> Option<Seq<Token>> {
    match rest {
        Some(ts) => Some(seq![t] + ts),
        None => None,
    }
}

/// The tokens at and after position `i`: dice groups (optional digits, one
/// `d` or `D`, then digits), bare numbers, `+` separators, with whitespace
/// discarded and the longest match taken first. `None` on an unrecognized
/// character or a numeric literal outside the 8-bit input range.
pub open spec fn lex_from(s: Seq<char>, i: int) -> Option<Seq<Token>>
    decreases s.len() - i,
    when 0 <= i <= s.len()
    via lex_from_decreases
{
    if i >= s.len() {
        Some(Seq::empty())
    } else if is_space_char(s[i]) {
        lex_from(s, i + 1)
    } else if s[i] == '+' {
        prepend_token(Token::Plus, lex_from(s, i + 1))
    } else {
        let e1 = digit_run_end(s, i);
        let e2 = if e1 < s.len() && is_d_char(s[e1]) {
            digit_run_end(s, e1 + 1)
        } else {
            e1
        };
        if e1 < s.len() && is_d_char(s[e1]) && e2 > e1 + 1 {
            let count = if e1 == i {
                1int
            } else {
                digits_val(s, i, e1)
            };
            let size = digits_val(s, e1 + 1, e2);
            if count <= 255 && size <= 255 {
                prepend_token(Token::XdY(count as InputType, size as InputType), lex_from(s, e2))
            } else {
                None
            }
        } else if e1 > i {
            let v = digits_val(s, i, e1);
            if v <= 255 {
                prepend_token(Token::Bonus(v as InputType), lex_from(s, e1))
            } else {
                None
            }
        } else {
            None
        }
    }
}

#[via_fn]
proof fn lex_from_decreases(s: Seq<char>, i: int) {
    if 0 <= i <= s.len() {
        lemma_digit_run_end(s, i);
        let e1 = digit_run_end(s, i);
        if e1 < s.len() {
            lemma_digit_run_end(s, e1 + 1);
        }
    }
}

/// The lists a well-formed token stream denotes: `+`-separated terms, each
/// a dice group (`count` copies of the size) or a bare bonus, both lists in
/// input order. `None` on a stray separator, two adjacent terms, or a
/// trailing separator.
pub open spec fn parse_tokens(ts: Seq<Token>) -> Option<(Seq<InputType>, Seq<InputType>)>
    decreases ts.len(),
{
    if ts.len() == 0 {
        Some((Seq::empty(), Seq::empty()))
    } else {
        let rest = if ts.len() == 1 {
            Some((Seq::<InputType>::empty(), Seq::<InputType>::empty()))
        } else if ts[1] == Token::Plus && ts.len() >= 3 {
            parse_tokens(ts.skip(2))
        } else {
            None
        };
        match ts[0] {
            Token::Plus => None,
            Token::XdY(count, size) => match rest {
                Some(p) => Some((Seq::new(count as nat, |q: int| size) + p.0, p.1)),
                None => None,
            },
            Token::Bonus(v) => match rest {
                Some(p) => Some((p.0, seq![v] + p.1)),
                None => None,
            },
        }
    }
}

/// What `parse` accepts and produces: the lexed token stream must form a
/// `+`-separated list of terms holding at least one dice group.
pub open spec fn spec_parse(s: Seq<char>) -> Option<(Seq<InputType>, Seq<InputType>)> {
    match lex_from(s, 0) {
        None => None,
        Some(ts) => match parse_tokens(ts) {
            None => None,
            Some(p) => if p.0.len() > 0 {
                Some(p)
            } else {
                None
            },
        },
    }
}

/// Scan the digit run beginning at `start`, returning its end and its
/// value, capped one above the input range.
fn scan_digits(s: &str, start: usize, len: usize) -> (res: (usize, u32))
    requires
        s@.len() == len,
        start <= len,
    ensures
        res.0 == digit_run_end(s@, start as int),
        start <= res.0 <= len,
        res.1 == capped_val(s@, start as int, res.0 as int),
{
    let mut i = start;
    let mut val: u32 = 0;
    loop
        invariant
            start <= i <= len,
            s@.len() == len,
            digit_run_end(s@, start as int) == digit_run_end(s@, i as int),
            val as int == capped_val(s@, start as int, i as int),
            digits_val(s@, start as int, i as int) >= 0,
            val <= 256,
        ensures
            start <= i <= len,
            digit_run_end(s@, start as int) == digit_run_end(s@, i as int),
            val as int == capped_val(s@, start as int, i as int),
            i >= len || !is_digit_char(s@[i as int]),
        decreases len - i,
    {
        if i >= len {
            break ;
        }
        let c = s.get_char(i);
        let cu = c as u32;
        if !(48 <= cu && cu <= 57) {
            break ;
        }
        proof {
            assert(is_digit_char(s@[i as int]));
            assert(digit_run_end(s@, i as int) == digit_run_end(s@, i + 1));
            assert(digits_val(s@, start as int, i + 1) == digits_val(s@, start as int, i as int)
                * 10 + digit_val(s@[i as int]));
        }
        let d = cu - 48;
        let mut nv: u32 = if val > 255 {
            256
        } else {
            val * 10 + d
        };
        if nv > 255 {
            nv = 256;
        }
        val = nv;
        i = i + 1;
    }
    proof {
        assert(digit_run_end(s@, i as int) == i as int);
    }
    (i, val)
}

pub open spec fn with_prefix(pre: Seq<Token>, rest: Option<Seq<Token>>) -> Option<Seq<Token>> {
    match rest {
        Some(ts) => Some(pre + ts),
        None => None,
    }
}

/// Tokenize the whole input, or report the lexical error.
fn lex(s: &str, len: usize) -> (r: Option<Vec<Token>>)
    requires
        s@.len() == len,
    ensures
        match r {
            Some(toks) => lex_from(s@, 0) == Some(toks@),
            None => lex_from(s@, 0) is None,
        },
{
    let mut toks: Vec<Token> = Vec::new();
    let mut i: usize = 0;
    proof {
        if let Some(ts) = lex_from(s@, 0) {
            assert(Seq::<Token>::empty() + ts =~= ts);
        }
    }
    while i < len
        invariant
            i <= len,
            s@.len() == len,
            with_prefix(toks@, lex_from(s@, i as int)) == lex_from(s@, 0),
        decreases len - i,
    {
        let c = s.get_char(i);
        if c == ' ' || c == '\t' || c == '\n' || c == '\r' || c == '\u{000B}' || c == '\u{000C}' {
            proof {
                assert(lex_from(s@, i as int) == lex_from(s@, i + 1));
            }
            i = i + 1;
        } else if c == '+' {
            let ghost pre = toks@;
            toks.push(Token::Plus);
            proof {
                assert(lex_from(s@, i as int) == prepend_token(
                    Token::Plus,
                    lex_from(s@, i + 1),
                ));
                if let Some(ts) = lex_from(s@, i + 1) {
                    assert((pre + seq![Token::Plus]) + ts =~= pre + (seq![Token::Plus] + ts));
                }
            }
            i = i + 1;
        } else {
            let (e1, v1) = scan_digits(s, i, len);
            let mut xdy = false;
            let mut e2: usize = e1;
            let mut v2: u32 = 0;
            if e1 < len {
                let dc = s.get_char(e1);
                if dc == 'd' || dc == 'D' {
                    let (f, w) = scan_digits(s, e1 + 1, len);
                    if f > e1 + 1 {
                        xdy = true;
                        e2 = f;
                        v2 = w;
                    }
                }
            }
            if xdy {
                let count_ok = if e1 == i {
                    true
                } else {
                    v1 <= 255
                };
                if !count_ok || v2 > 255 {
                    proof {
                        assert(lex_from(s@, i as int) is None);
                    }
                    return None;
                }
                let count: InputType = if e1 == i {
                    1
                } else {
                    v1 as InputType
                };
                let size: InputType = v2 as InputType;
                let ghost pre = toks@;
                toks.push(Token::XdY(count, size));
                proof {
                    assert(lex_from(s@, i as int) == prepend_token(
                        Token::XdY(count, size),
                        lex_from(s@, e2 as int),
                    ));
                    if let Some(ts) = lex_from(s@, e2 as int) {
                        assert((pre + seq![Token::XdY(count, size)]) + ts =~= pre + (seq![
                            Token::XdY(count, size),
                        ] + ts));
                    }
                }
                i = e2;
            } else if e1 > i {
                if v1 > 255 {
                    proof {
                        assert(lex_from(s@, i as int) is None);
                    }
                    return None;
                }
                let b: InputType = v1 as InputType;
                let ghost pre = toks@;
                toks.push(Token::Bonus(b));
                proof {
                    assert(lex_from(s@, i as int) == prepend_token(
                        Token::Bonus(b),
                        lex_from(s@, e1 as int),
                    ));
                    if let Some(ts) = lex_from(s@, e1 as int) {
                        assert((pre + seq![Token::Bonus(b)]) + ts =~= pre + (seq![Token::Bonus(b)]
                            + ts));
                    }
                }
                i = e1;
            } else {
                proof {
                    assert(lex_from(s@, i as int) is None);
                }
                return None;
            }
        }
    }
    proof {
        assert(lex_from(s@, len as int) == Some(Seq::<Token>::empty()));
        assert(toks@ + Seq::<Token>::empty() =~= toks@);
    }
    Some(toks)
}

pub open spec fn with_parsed(
    d0: Seq<InputType>,
    b0: Seq<InputType>,
    rest: Option<(Seq<InputType>, Seq<InputType>)>,
) -> Option<(Seq<InputType>, Seq<InputType>)> {
    match rest {
        Some(p) => Some((d0 + p.0, b0 + p.1)),
        None => None,
    }
}

/// Assemble the dice and bonus lists from the token stream, or report the
/// grammar error.
fn parse_token_stream(toks: &Vec<Token>) -> (r: Option<(Vec<InputType>, Vec<InputType>)>)
    ensures
        match r {
            Some(p) => parse_tokens(toks@) == Some((p.0@, p.1@)),
            None => parse_tokens(toks@) is None,
        },
{
    let mut dice: Vec<InputType> = Vec::new();
    let mut bonuses: Vec<InputType> = Vec::new();
    let mut k: usize = 0;
    proof {
        if let Some(p) = parse_tokens(toks@) {
            assert(Seq::<InputType>::empty() + p.0 =~= p.0);
            assert(Seq::<InputType>::empty() + p.1 =~= p.1);
        }
        assert(toks@.skip(0) =~= toks@);
    }
    while k < toks.len()
        invariant
            k <= toks@.len(),
            with_parsed(dice@, bonuses@, parse_tokens(toks@.skip(k as int))) == parse_tokens(
                toks@,
            ),
        decreases toks@.len() - k,
    {
        let ghost rem = toks@.skip(k as int);
        proof {
            assert(rem.len() == toks@.len() - k);
            assert(rem[0] == toks@[k as int]);
            if rem.len() >= 2 {
                assert(rem[1] == toks@[k + 1]);
            }
        }
        let ghost dpre = dice@;
        let ghost bpre = bonuses@;
        let t = toks[k];
        let ghost term_dice: Seq<InputType> = match t {
            Token::XdY(count, size) => Seq::new(count as nat, |q: int| size),
            _ => Seq::empty(),
        };
        let ghost term_bonuses: Seq<InputType> = match t {
            Token::Bonus(v) => seq![v],
            _ => Seq::empty(),
        };
        match t {
            Token::Plus => {
                proof {
                    assert(parse_tokens(rem) is None);
                }
                return None;
            },
            Token::XdY(count, size) => {
                let mut c: InputType = 0;
                while c < count
                    invariant
                        c <= count,
                        dice@ == dpre + Seq::new(c as nat, |q: int| size),
                        bonuses@ == bpre,
                    decreases count as int - c as int,
                {
                    proof {
                        assert(dpre + Seq::new((c + 1) as nat, |q: int| size) =~= (dpre + Seq::new(
                            c as nat,
                            |q: int| size,
                        )).push(size));
                    }
                    dice.push(size);
                    c = c + 1;
                }
                proof {
                    assert(dice@ == dpre + term_dice);
                    assert(bonuses@ == bpre + term_bonuses) by {
                        assert(bpre + Seq::<InputType>::empty() =~= bpre);
                    }
                }
            },
            Token::Bonus(v) => {
                bonuses.push(v);
                proof {
                    assert(bonuses@ == bpre + term_bonuses) by {
                        assert(bpre + seq![v] =~= bpre.push(v));
                    }
                    assert(dice@ == dpre + term_dice) by {
                        assert(dpre + Seq::<InputType>::empty() =~= dpre);
                    }
                }
            },
        }
        if k + 1 == toks.len() {
            proof {
                let p = (term_dice + Seq::<InputType>::empty(), term_bonuses
                    + Seq::<InputType>::empty());
                assert(term_dice + Seq::<InputType>::empty() =~= term_dice);
                assert(term_bonuses + Seq::<InputType>::empty() =~= term_bonuses);
                assert(parse_tokens(rem) == Some((term_dice, term_bonuses)));
                assert(toks@.skip(k + 1) =~= Seq::<Token>::empty());
                assert(dpre + term_dice + Seq::<InputType>::empty() =~= dpre + term_dice);
                assert(bpre + term_bonuses + Seq::<InputType>::empty() =~= bpre + term_bonuses);
                assert(dpre + (term_dice + Seq::<InputType>::empty()) =~= dpre + term_dice);
                assert(bpre + (term_bonuses + Seq::<InputType>::empty()) =~= bpre + term_bonuses);
            }
            k = k + 1;
        } else {
            let nxt = toks[k + 1];
            if nxt != Token::Plus {
                proof {
                    assert(parse_tokens(rem) is None);
                }
                return None;
            }
            if k + 2 == toks.len() {
                proof {
                    assert(rem.len() == 2 && rem[1] == Token::Plus);
                    assert(parse_tokens(rem) is None);
                }
                return None;
            }
            proof {
                assert(rem.skip(2) =~= toks@.skip(k + 2));
                if let Some(p) = parse_tokens(toks@.skip(k + 2)) {
                    assert(parse_tokens(rem) == Some((term_dice + p.0, term_bonuses + p.1)));
                    assert(dpre + (term_dice + p.0) =~= (dpre + term_dice) + p.0);
                    assert(bpre + (term_bonuses + p.1) =~= (bpre + term_bonuses) + p.1);
                }
            }
            k = k + 2;
        }
    }
    proof {
        assert(toks@.skip(toks@.len() as int) =~= Seq::<Token>::empty());
        assert(dice@ + Seq::<InputType>::empty() =~= dice@);
        assert(bonuses@ + Seq::<InputType>::empty() =~= bonuses@);
    }
    Some((dice, bonuses))
}

/// A parsed notation string is always evaluable once validation has ruled
/// out the degenerate cases: parsing guarantees at least one die, so any
/// parse result whose dice all have at least one face and whose lists are
/// within the evaluation bounds satisfies the evaluator's precondition,
/// under which every rolled value lies within its die's faces.
pub proof fn lemma_parse_then_evaluate(s: Seq<char>, spec: RollSpec)
    requires
        spec_parse(s) == Some((spec.dice@, spec.bonuses@)),
        forall|i: int| 0 <= i < spec.dice@.len() ==> #[trigger] spec.dice@[i] >= 1,
        spec.dice@.len() <= crate::rolls::MAX_DICE,
        spec.bonuses@.len() <= crate::rolls::MAX_BONUSES,
    ensures
        spec.spec_rollable(),
        spec.dice@.len() >= 1,
{
}

/// Parse a `RollSpec` from a string slice.
pub fn parse(input: &str) -> (r: Result<RollSpec, ()>)
    ensures
        match r {
            Ok(spec) => spec_parse(input@) == Some((spec.dice@, spec.bonuses@))
                && spec.dice@.len() >= 1,
            Err(_) => spec_parse(input@) is None,
        },
{
    let len = input.unicode_len();
    match lex(input, len) {
        None => Err(()),
        Some(toks) => match parse_token_stream(&toks) {
            None => Err(()),
            Some((dice, bonuses)) => {
                if dice.len() == 0 {
                    Err(())
                } else {
                    Ok(RollSpec { dice, bonuses })
                }
            },
        },
    }
}

} // verus!
