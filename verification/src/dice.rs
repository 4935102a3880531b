use vstd::prelude::*;

use crate::text::{
    chars_to_string, push_dec, parse_uint, split_chars, split_on, uint_val, valid_uint,
};
use rand::RngExt;

verus! {

/// A dice specification: how many dice to roll and how many sides each
/// die has.
#[derive(Debug)]
pub struct DiceType {
    pub number_of_dice: u8,
    pub sides_of_dice: u8,
}

/// Why a dice string was rejected: a piece that is not a number, the
/// wrong number of pieces, or numbers outside the allowed ranges.
#[derive(Debug)]
pub enum DiceParseError {
    NumberParseError,
    StringFormatError(usize),
    ConstraintError(&'static str),
}

/// What `str::to_lowercase` returns for a given sequence of characters.
pub uninterp spec fn lower_of(s: Seq<char>) -> Seq<char>;

/// Relies on `str::to_lowercase`: the result depends on the characters
/// alone, and is converted to a vector one character at a time.
#[verifier::external_body]
fn to_lower_chars(s: &str) -> (r: Vec<char>)
    ensures
        r@ == lower_of(s@),
{
    s.to_lowercase().chars().collect()
}

/// Whether every piece between the `d` separators is a decimal numeral
/// that fits a `u8`.
pub open spec fn dice_segments_valid(segs: Seq<Seq<char>>) -> bool {
    forall|k: int| 0 <= k < segs.len() ==> valid_uint(#[trigger] segs[k], 255)
}

/// The exact outcome of reading an already lowercased dice string `t`:
/// how `parse_dice_type` relates its result to the pieces of `t`.
pub open spec fn dice_outcome_matches(t: Seq<char>, r: Result<DiceType, DiceParseError>) -> bool {
    let segs = split_on(t, 'd');
    match r {
        Ok(d) => {
            &&& dice_segments_valid(segs)
            &&& segs.len() == 2
            &&& uint_val(segs[0]) <= 100
            &&& uint_val(segs[1]) <= 100
            &&& uint_val(segs[1]) >= 2
            &&& uint_val(segs[0]) >= 1
            &&& d.number_of_dice as int == uint_val(segs[0])
            &&& d.sides_of_dice as int == uint_val(segs[1])
        },
        Err(e) => match e {
            DiceParseError::NumberParseError => !dice_segments_valid(segs),
            DiceParseError::StringFormatError(n) => dice_segments_valid(segs) && segs.len() != 2
                && n as int == segs.len(),
            DiceParseError::ConstraintError(m) => {
                &&& dice_segments_valid(segs)
                &&& segs.len() == 2
                &&& {
                    ||| (uint_val(segs[0]) > 100 || uint_val(segs[1]) > 100) && m@
                        == "Number of dice and number of sides must be less than 100"@
                    ||| uint_val(segs[0]) <= 100 && uint_val(segs[1]) <= 100 && uint_val(segs[1])
                        < 2 && m@ == "Number of sides must be more than 2"@
                    ||| uint_val(segs[0]) <= 100 && uint_val(segs[1]) <= 100 && uint_val(segs[1])
                        >= 2 && uint_val(segs[0]) < 1 && m@
                        == "Number of dice must be more than 1"@
                }
            },
        },
    }
}

/// Reads a dice string such as `2d6`: the piece before the `d` is the
/// number of dice, the piece after it the number of sides.  The string
/// is lowercased first, so `2D6` reads the same.
pub fn parse_dice_type(dice_string: String) -> (r: Result<DiceType, DiceParseError>)
    ensures
        dice_outcome_matches(lower_of(dice_string@), r),
{
    let lowered = to_lower_chars(dice_string.as_str());
    parse_dice_chars(lowered)
}

/// Reads an already lowercased dice string, given as its characters.
pub fn parse_dice_chars(chars: Vec<char>) -> (r: Result<DiceType, DiceParseError>)
    ensures
        dice_outcome_matches(chars@, r),
{
    let segments = split_chars(&chars, 'd');
    let ghost segs = split_on(chars@, 'd');
    let mut numbers: Vec<u8> = Vec::new();
    let mut k: usize = 0;
    while k < segments.len()
        invariant
            0 <= k <= segments@.len(),
            segs == split_on(chars@, 'd'),
            segments@.len() == segs.len(),
            forall|j: int| 0 <= j < segments@.len() ==> segments@[j]@ == segs[j],
            numbers@.len() == k,
            forall|j: int| 0 <= j < k ==> valid_uint(#[trigger] segs[j], 255),
            forall|j: int| 0 <= j < k ==> #[trigger] numbers@[j] as int == uint_val(segs[j]),
        decreases segments@.len() - k,
    {
        match parse_uint(&segments[k], 255) {
            Some(v) => {
                numbers.push(v as u8);
            },
            None => {
                proof {
                    assert(!valid_uint(segs[k as int], 255));
                }
                return Err(DiceParseError::NumberParseError);
            },
        }
        k = k + 1;
    }
    if numbers.len() != 2 {
        return Err(DiceParseError::StringFormatError(numbers.len()));
    }
    let number = numbers[0];
    let sides = numbers[1];
    if number > 100 || sides > 100 {
        return Err(
            DiceParseError::ConstraintError(
                "Number of dice and number of sides must be less than 100",
            ),
        );
    }
    if sides < 2 {
        return Err(DiceParseError::ConstraintError("Number of sides must be more than 2"));
    }
    if number < 1 {
        return Err(DiceParseError::ConstraintError("Number of dice must be more than 1"));
    }
    Ok(DiceType { number_of_dice: number, sides_of_dice: sides })
}

/// Declares rand's thread-local generator handle so that it can be
/// passed between the wrappers below; nothing is assumed of its state.
#[verifier::external_type_specification]
#[verifier::external_body]
pub struct ExThreadRng(rand::rngs::ThreadRng);

/// Relies on `rand::rng`: a handle to the thread-local generator.  It can
/// fail only if the operating system's randomness source fails at the
/// first seeding.
#[verifier::external_body]
fn fresh_rng() -> rand::rngs::ThreadRng {
    rand::rng()
}

/// Relies on `RngExt::random_range`: the sample lies within the given
/// range.  An empty range makes the call panic, so the bounds must be
/// ordered; nothing else is assumed of the outcome.
#[verifier::external_body]
fn roll_in_range(rng: &mut rand::rngs::ThreadRng, lo: u8, hi: u8) -> (r: u8)
    requires
        lo <= hi,
    ensures
        lo <= r <= hi,
{
    rng.random_range(lo..=hi)
}

/// Rolls the dice: one sample per die, each between one and the number
/// of sides.
pub fn roll_dice(dice: &DiceType) -> (r: Vec<u8>)
    requires
        dice.sides_of_dice >= 1,
    ensures
        r@.len() == dice.number_of_dice as int,
        forall|k: int| 0 <= k < r@.len() ==> 1 <= #[trigger] r@[k] <= dice.sides_of_dice,
{
    let mut rng = fresh_rng();
    let mut rolls: Vec<u8> = Vec::new();
    let mut i: u8 = 0;
    while i < dice.number_of_dice
        invariant
            0 <= i <= dice.number_of_dice,
            dice.sides_of_dice >= 1,
            rolls@.len() == i as int,
            forall|k: int| 0 <= k < rolls@.len() ==> 1 <= #[trigger] rolls@[k]
                <= dice.sides_of_dice,
        decreases dice.number_of_dice - i,
    {
        let roll = roll_in_range(&mut rng, 1, dice.sides_of_dice);
        rolls.push(roll);
        i = i + 1;
    }
    rolls
}

/// The printed list of rolls: the numbers joined by `, `.
pub open spec fn rolls_output(rolls: Seq<u8>) -> Seq<char> {
    crate::ducci::joined_dec(rolls.map_values(|x: u8| x as u32), ", "@)
}

/// Renders the rolls as `3, 1, 4`.
pub fn create_roll_output(rolls: &Vec<u8>) -> (r: String)
    ensures
        r@ == rolls_output(rolls@),
{
    let mut out: Vec<char> = Vec::new();
    let mut i: usize = 0;
    while i < rolls.len()
        invariant
            0 <= i <= rolls@.len(),
            out@ == crate::ducci::joined_dec(
                rolls@.take(i as int).map_values(|x: u8| x as u32),
                ", "@,
            ),
        decreases rolls@.len() - i,
    {
        if i > 0 {
            out.push(',');
            out.push(' ');
        }
        push_dec(rolls[i] as usize, &mut out);
        proof {
            reveal_strlit(", ");
            let mapped = rolls@.take(i + 1).map_values(|x: u8| x as u32);
            assert(mapped.drop_last() =~= rolls@.take(i as int).map_values(|x: u8| x as u32));
            assert(mapped.last() == rolls@[i as int] as u32);
            assert(out@ =~= crate::ducci::joined_dec(mapped, ", "@));
        }
        i = i + 1;
    }
    proof {
        assert(rolls@.take(rolls@.len() as int) =~= rolls@);
        assert(rolls@.take(rolls@.len() as int).map_values(|x: u8| x as u32) =~= rolls@.map_values(
            |x: u8| x as u32,
        ));
    }
    chars_to_string(&out)
}

/// The sum of the rolls.
pub open spec fn sum_of(rolls: Seq<u8>) -> int
    decreases rolls.len(),
{
    if rolls.len() == 0 {
        0
    } else {
        sum_of(rolls.drop_last()) + rolls.last()
    }
}

/// Totals the rolls.
pub fn total_of_rolls(rolls: &Vec<u8>) -> (t: u32)
    requires
        sum_of(rolls@) <= u32::MAX as int,
    ensures
        t as int == sum_of(rolls@),
{
    let mut total: u32 = 0;
    let mut i: usize = 0;
    while i < rolls.len()
        invariant
            0 <= i <= rolls@.len(),
            sum_of(rolls@) <= u32::MAX as int,
            total as int == sum_of(rolls@.take(i as int)),
        decreases rolls@.len() - i,
    {
        proof {
            assert(rolls@.take(i + 1).drop_last() =~= rolls@.take(i as int));
            assert(rolls@.take(i + 1).last() == rolls@[i as int]);
            lemma_sum_of_take_le(rolls@, i + 1);
        }
        total = total + rolls[i] as u32;
        i = i + 1;
    }
    proof {
        assert(rolls@.take(rolls@.len() as int) =~= rolls@);
    }
    total
}

/// A prefix of the rolls never sums to more than all of them.
proof fn lemma_sum_of_take_le(rolls: Seq<u8>, k: int)
    requires
        0 <= k <= rolls.len(),
    ensures
        sum_of(rolls.take(k)) <= sum_of(rolls),
    decreases rolls.len() - k,
{
    if k < rolls.len() {
        lemma_sum_of_take_le(rolls, k + 1);
        assert(rolls.take(k + 1).drop_last() =~= rolls.take(k));
    } else {
        assert(rolls.take(k) =~= rolls);
    }
}

} // verus!
