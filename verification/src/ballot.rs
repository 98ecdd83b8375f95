//! The three ballot choices and the saturating tally arithmetic shared by the contracts.
use vstd::prelude::*;
use crate::bytes::bytes_eq;

verus! {

/// A choice on a proposal: the symbols `FOR`, `AGAINST` and `ABSTAIN`.
#[derive(Clone, Copy, PartialEq, Eq, Structural, Debug)]
pub enum Choice {
    For,
    Against,
    Abstain,
}

/// The bytes of the symbol `FOR`.
pub open spec fn for_symbol() -> Seq<u8> {
    seq![70u8, 79u8, 82u8]
}

/// The bytes of the symbol `AGAINST`.
pub open spec fn against_symbol() -> Seq<u8> {
    seq![65u8, 71u8, 65u8, 73u8, 78u8, 83u8, 84u8]
}

/// The bytes of the symbol `ABSTAIN`.
pub open spec fn abstain_symbol() -> Seq<u8> {
    seq![65u8, 66u8, 83u8, 84u8, 65u8, 73u8, 78u8]
}

/// The choice that a symbol names, if it names one.
pub open spec fn choice_of(symbol: Seq<u8>) -> Option<Choice> {
    if symbol == for_symbol() {
        Some(Choice::For)
    } else if symbol == against_symbol() {
        Some(Choice::Against)
    } else if symbol == abstain_symbol() {
        Some(Choice::Abstain)
    } else {
        None
    }
}

/// Reads a choice from the bytes of a symbol.
pub fn parse_choice(symbol: &Vec<u8>) -> (r: Option<Choice>)
    ensures
        r == choice_of(symbol@),
{
    let for_bytes: Vec<u8> = vec![70u8, 79u8, 82u8];
    let against_bytes: Vec<u8> = vec![65u8, 71u8, 65u8, 73u8, 78u8, 83u8, 84u8];
    let abstain_bytes: Vec<u8> = vec![65u8, 66u8, 83u8, 84u8, 65u8, 73u8, 78u8];
    assert(for_bytes@ =~= for_symbol());
    assert(against_bytes@ =~= against_symbol());
    assert(abstain_bytes@ =~= abstain_symbol());
    if bytes_eq(symbol, &for_bytes) {
        Some(Choice::For)
    } else if bytes_eq(symbol, &against_bytes) {
        Some(Choice::Against)
    } else if bytes_eq(symbol, &abstain_bytes) {
        Some(Choice::Abstain)
    } else {
        None
    }
}

/// `a + b`, held at the bounds of `i128`.
pub open spec fn sat_add(a: int, b: int) -> int {
    if a + b > i128::MAX {
        i128::MAX as int
    } else if a + b < i128::MIN {
        i128::MIN as int
    } else {
        a + b
    }
}

/// `a - b`, held at the bounds of `i128`.
pub open spec fn sat_sub(a: int, b: int) -> int {
    sat_add(a, -b)
}

/// Adds two `i128` values, saturating at the bounds.
pub fn saturating_add_i128(a: i128, b: i128) -> (r: i128)
    ensures
        r == sat_add(a as int, b as int),
{
    if b > 0 && a > i128::MAX - b {
        i128::MAX
    } else if b < 0 && a < i128::MIN - b {
        i128::MIN
    } else {
        a + b
    }
}

/// Subtracts two `i128` values, saturating at the bounds.
pub fn saturating_sub_i128(a: i128, b: i128) -> (r: i128)
    ensures
        r == sat_sub(a as int, b as int),
{
    if b < 0 && a > i128::MAX + b {
        i128::MAX
    } else if b > 0 && a < i128::MIN + b {
        i128::MIN
    } else {
        a - b
    }
}

} // verus!
