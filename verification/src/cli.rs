use vstd::prelude::*;
use vstd::string::*;
use crate::error::Error;
use crate::sorting::{sort_descending, sorted_descending};

verus! {

/// The flag that asks for full-wave lengths.
pub open spec fn fullwave_flag() -> Seq<char> {
    seq!['-', 'f']
}

/// The flag that asks for metric lengths.
pub open spec fn metric_flag() -> Seq<char> {
    seq!['-', 'm']
}

/// The token is one of the two flags.
pub open spec fn is_flag(token: Seq<char>) -> bool {
    token == fullwave_flag() || token == metric_flag()
}

/// The character is a decimal digit.
pub open spec fn is_digit(c: char) -> bool {
    '0' <= c <= '9'
}

/// The number that a run of decimal digits writes.
pub open spec fn digits_value(digits: Seq<char>) -> nat
    decreases digits.len(),
{
    if digits.len() == 0 {
        0
    } else {
        digits_value(digits.drop_last()) * 10 + (digits.last() as nat - '0' as nat) as nat
    }
}

/// The token without a plus sign in front.
pub open spec fn unsigned_part(token: Seq<char>) -> Seq<char> {
    if token.len() > 0 && token[0] == '+' {
        token.skip(1)
    } else {
        token
    }
}

/// The number that a token writes: decimal digits, at least one, after at
/// most one plus sign, and no more than fits in 32 bits.
pub open spec fn token_value(token: Seq<char>) -> Option<u32> {
    let digits = unsigned_part(token);
    if digits.len() > 0 && (forall|i: int| 0 <= i < digits.len() ==> is_digit(#[trigger] digits[i]))
        && digits_value(digits) <= u32::MAX {
        Some(digits_value(digits) as u32)
    } else {
        None
    }
}

/// Every token is a flag or a number.
pub open spec fn tokens_valid(tokens: Seq<Seq<char>>) -> bool {
    forall|i: int|
        0 <= i < tokens.len() ==> is_flag(#[trigger] tokens[i]) || token_value(tokens[i]) is Some
}

/// The numbers among the tokens, in their order.
pub open spec fn selected(tokens: Seq<Seq<char>>) -> Seq<u32>
    decreases tokens.len(),
{
    if tokens.len() == 0 {
        Seq::empty()
    } else if is_flag(tokens.last()) || token_value(tokens.last()) is None {
        selected(tokens.drop_last())
    } else {
        selected(tokens.drop_last()).push(token_value(tokens.last())->Some_0)
    }
}

/// The arguments after the program's name.
pub open spec fn operands(args: Seq<String>) -> Seq<Seq<char>> {
    if args.len() == 0 {
        Seq::empty()
    } else {
        Seq::new((args.len() - 1) as nat, |i: int| args[i + 1]@)
    }
}

/// A longer run of digits writes no smaller a number than its beginning.
proof fn lemma_digits_value_grows(digits: Seq<char>, i: int, j: int)
    requires
        0 <= i <= j <= digits.len(),
        forall|k: int| 0 <= k < digits.len() ==> is_digit(#[trigger] digits[k]),
    ensures
        digits_value(digits.take(i)) <= digits_value(digits.take(j)),
    decreases j - i,
{
    if i < j {
        lemma_digits_value_grows(digits, i, j - 1);
        assert(digits.take(j).drop_last() =~= digits.take(j - 1));
        assert(is_digit(digits[j - 1]));
    }
}

/// Tells whether a token is a hyphen followed by the given letter.
fn is_flag_token(token: &str, letter: char) -> (r: bool)
    ensures
        r == (token@ == seq!['-', letter]),
{
    if token.unicode_len() != 2 {
        return false;
    }
    let r: bool = token.get_char(0) == '-' && token.get_char(1) == letter;
    assert(r == (token@ =~= seq!['-', letter]));
    r
}

/// Reads a token as an unsigned number of 32 bits.
pub fn parse_band(token: &str) -> (r: Option<u32>)
    ensures
        r == token_value(token@),
{
    let len: usize = token.unicode_len();
    if len == 0 {
        return None;
    }
    let start: usize = if token.get_char(0) == '+' { 1 } else { 0 };
    if start == len {
        return None;
    }
    let ghost digits = unsigned_part(token@);
    let mut value: u64 = 0;
    let mut i: usize = start;
    assert(digits.take(0) =~= Seq::<char>::empty());
    while i < len
        invariant
            start <= i <= len,
            len == token@.len(),
            digits == unsigned_part(token@),
            digits.len() == len - start,
            forall|k: int| 0 <= k < digits.len() ==> digits[k] == token@[k + start],
            forall|k: int| 0 <= k < i - start ==> is_digit(#[trigger] digits[k]),
            value == digits_value(digits.take(i - start)),
            value <= u32::MAX,
        decreases len - i,
    {
        let c: char = token.get_char(i);
        if !(c >= '0' && c <= '9') {
            assert(!is_digit(digits[i - start]));
            return None;
        }
        let d: u64 = (c as u32 - '0' as u32) as u64;
        value = value * 10 + d;
        proof {
            assert(digits.take(i - start + 1).drop_last() =~= digits.take(i - start));
            assert(digits.take(i - start + 1).last() == c);
        }
        if value > u32::MAX as u64 {
            let mut j: usize = i + 1;
            while j < len
                invariant
                    start <= i < j <= len,
                    len == token@.len(),
                    digits == unsigned_part(token@),
                    digits.len() == len - start,
                    forall|k: int| 0 <= k < digits.len() ==> digits[k] == token@[k + start],
                    forall|k: int| 0 <= k < j - start ==> is_digit(#[trigger] digits[k]),
                decreases len - j,
            {
                let c2: char = token.get_char(j);
                if !(c2 >= '0' && c2 <= '9') {
                    assert(!is_digit(digits[j - start]));
                    return None;
                }
                j += 1;
            }
            proof {
                lemma_digits_value_grows(digits, i - start + 1, digits.len() as int);
                assert(digits.take(digits.len() as int) =~= digits);
            }
            return None;
        }
        i += 1;
    }
    assert(digits.take(i - start) =~= digits);
    Some(value as u32)
}

/// How the program is called, for a program of the given name.
pub open spec fn usage_text(prog: Seq<char>) -> Seq<char> {
    "Usage: "@ + prog + " [-f] [-m] band...\n"@ + "  -f, graph fullwave (halfwave default).\n"@
        + "  -m, metric lengths.\n"@ + "  band, integer in 160,80,60,40,30,20,17,15,12,10,6 m\n"@
        + "  E.g., "@ + prog + " 40 20 15 10\n"@
}

/// The text that tells how the program is called. It is shown when the
/// command line is refused.
pub fn usage(prog: &str) -> (text: String)
    ensures
        text@ == usage_text(prog@),
{
    let mut text: String = String::from_str("Usage: ");
    text.append(prog);
    text.append(" [-f] [-m] band...\n");
    text.append("  -f, graph fullwave (halfwave default).\n");
    text.append("  -m, metric lengths.\n");
    text.append("  band, integer in 160,80,60,40,30,20,17,15,12,10,6 m\n");
    text.append("  E.g., ");
    text.append(prog);
    text.append(" 40 20 15 10\n");
    text
}

/// Reads the command line: the program's name, then flags and band
/// designators in any order. Gives the bands from the largest designator
/// to the smallest, then whether metric lengths and whether full-wave
/// lengths were asked for. A token that is neither flag nor number fails
/// the whole line, and so does a line without a band.
pub fn cli(args: Vec<String>) -> (r: Result<(Vec<u32>, bool, bool), Error>)
    ensures
        !tokens_valid(operands(args@)) ==> r == Err::<(Vec<u32>, bool, bool), Error>(
            Error::InvalidToken,
        ),
        tokens_valid(operands(args@)) && selected(operands(args@)).len() == 0 ==> r == Err::<
            (Vec<u32>, bool, bool),
            Error,
        >(Error::EmptySelection),
        tokens_valid(operands(args@)) && selected(operands(args@)).len() > 0 ==> r is Ok && r->Ok_0.0@
            == sorted_descending(selected(operands(args@))) && r->Ok_0.1 == operands(
            args@,
        ).contains(metric_flag()) && r->Ok_0.2 == operands(args@).contains(fullwave_flag()),
{
    let mut bands: Vec<u32> = Vec::new();
    let mut fullwave: bool = false;
    let mut metric: bool = false;
    let ghost tokens = operands(args@);
    let mut i: usize = 1;
    assert(tokens.take(0) =~= Seq::<Seq<char>>::empty());
    while i < args.len()
        invariant
            1 <= i,
            i <= args.len() || (args.len() == 0 && i == 1),
            tokens == operands(args@),
            tokens_valid(tokens.take(i - 1)),
            bands@ == selected(tokens.take(i - 1)),
            fullwave == tokens.take(i - 1).contains(fullwave_flag()),
            metric == tokens.take(i - 1).contains(metric_flag()),
        decreases args.len() - i,
    {
        let arg: &str = args[i].as_str();
        let ghost before = tokens.take(i - 1);
        let ghost next = tokens.take(i as int);
        proof {
            assert(next.drop_last() =~= before);
            assert(next.last() == arg@);
            assert(next =~= before.push(arg@));
            assert forall|flag: Seq<char>| next.contains(flag) == (before.contains(flag) || arg@
                == flag) by {
                if before.contains(flag) {
                    let k = choose|k: int| 0 <= k < before.len() && before[k] == flag;
                    assert(next[k] == flag);
                }
                if arg@ == flag {
                    assert(next[i - 1] == flag);
                }
            }
        }
        if is_flag_token(arg, 'f') {
            fullwave = true;
        } else if is_flag_token(arg, 'm') {
            metric = true;
        } else {
            match parse_band(arg) {
                Some(band) => {
                    bands.push(band);
                },
                None => {
                    assert(!is_flag(tokens[i - 1]) && token_value(tokens[i - 1]) is None);
                    return Err(Error::InvalidToken);
                },
            }
        }
        assert(tokens_valid(next)) by {
            assert forall|k: int| 0 <= k < next.len() implies is_flag(#[trigger] next[k])
                || token_value(next[k]) is Some by {
                if k < before.len() {
                    assert(next[k] == before[k]);
                }
            }
        }
        i += 1;
    }
    assert(tokens.take(i - 1) =~= tokens);
    if bands.len() == 0 {
        return Err(Error::EmptySelection);
    }
    let sorted: Vec<u32> = sort_descending(bands.as_slice());
    Ok((sorted, metric, fullwave))
}

} // verus!
