//! Addresses as they are written on a command line.

use vstd::prelude::*;

verus! {

/// std's `core::num::ParseIntError`, carried through unopened.
#[verifier::external_type_specification]
#[verifier::external_body]
pub struct ExParseIntError(core::num::ParseIntError);

/// What `parse_int::parse` makes of `text` as a `u64`: the number, or `None`
/// where it reports an error. It reads decimal digits, or hexadecimal, octal
/// or binary ones behind `0x`, `0o` or `0b`, with `_` between digits.
pub uninterp spec fn parsed_int(text: Seq<char>) -> Option<u64>;

/// `parse_int::parse`, at `u64`. The result is `Ok` exactly where
/// `parsed_int` has a number, and then holds that number. A text with a
/// minus sign is kept out: the crate negates by multiplying with zero minus
/// one, which an unsigned type cannot hold.
#[verifier::external_body]
fn parse_u64(text: &str) -> (r: Result<u64, core::num::ParseIntError>)
    requires
        !text@.contains('-'),
    ensures
        r is Ok <==> parsed_int(text@) is Some,
        r is Ok ==> parsed_int(text@) == Some(r->Ok_0),
{
    parse_int::parse::<u64>(text)
}

/// Why a text is no address.
#[derive(Debug)]
pub enum AddrError {
    /// The text holds a minus sign.
    Sign,
    /// The digits are no number.
    Parse(core::num::ParseIntError),
    /// The number, scaled by its suffix, does not fit an address.
    Overflow,
}

/// Factor of the suffix `K`.
pub const KIB: usize = 1024;

/// Factor of the suffix `M`.
pub const MIB: usize = 0x10_0000;

/// The factor that the last character of `text` stands for: `M` for 1024
/// times 1024, `K` for 1024, anything else for 1.
pub open spec fn suffix_factor(text: Seq<char>) -> int {
    if text.len() > 0 && text.last() == 'M' {
        MIB as int
    } else if text.len() > 0 && text.last() == 'K' {
        KIB as int
    } else {
        1
    }
}

/// The part of `text` that holds the number: all of it but a suffix `M` or
/// `K`.
pub open spec fn suffix_digits(text: Seq<char>) -> Seq<char> {
    if text.len() > 0 && (text.last() == 'M' || text.last() == 'K') {
        text.drop_last()
    } else {
        text
    }
}

/// The address that a parsed number and a factor give: their product, where
/// it fits.
pub open spec fn scaled(factor: int, number: Option<u64>) -> Option<usize> {
    match number {
        Some(value) if value * factor <= usize::MAX => Some((value * factor) as usize),
        _ => None,
    }
}

/// Scales a parsed number by `factor`.
///
/// A parse error is handed on. A number whose product with the factor fits an
/// address gives that product; any other gives `Overflow`.
pub fn scale_addr(factor: usize, number: Result<u64, core::num::ParseIntError>) -> (r: Result<
    usize,
    AddrError,
>)
    ensures
        match number {
            Err(e) => r == Err::<usize, AddrError>(AddrError::Parse(e)),
            Ok(value) => if value * factor <= usize::MAX {
                r == Ok::<usize, AddrError>((value * factor) as usize)
            } else {
                r == Err::<usize, AddrError>(AddrError::Overflow)
            },
        },
{
    match number {
        Err(e) => Err(AddrError::Parse(e)),
        Ok(value) => {
            let value: usize = match usize::try_from(value) {
                Ok(value) => value,
                Err(_) => {
                    proof {
                        assert(value * factor > usize::MAX || factor == 0) by (nonlinear_arith)
                            requires
                                value > usize::MAX,
                                factor >= 0,
                        ;
                    }
                    if factor == 0 {
                        return Ok(0);
                    }
                    return Err(AddrError::Overflow);
                },
            };
            match value.checked_mul(factor) {
                Some(addr) => Ok(addr),
                None => Err(AddrError::Overflow),
            }
        },
    }
}

/// Whether `text` holds a minus sign.
fn has_minus(text: &str) -> (found: bool)
    ensures
        found == text@.contains('-'),
{
    let len = text.unicode_len();
    let mut i: usize = 0;
    while i < len
        invariant
            i <= len,
            len == text@.len(),
            forall|j: int| 0 <= j < i ==> text@[j] != '-',
        decreases len - i,
    {
        if text.get_char(i) == '-' {
            return true;
        }
        i += 1;
    }
    false
}

/// Reads an address: a number, with an optional suffix `K` or `M` that
/// multiplies it by 1024 or by 1024 times 1024.
///
/// A text with a minus sign gives `Sign`. Otherwise the part before the
/// suffix is parsed: where that fails the result is the parse error, where
/// the scaled number fits an address it is that address, and where it does
/// not the result is `Overflow`.
pub fn parse_addr(arg: &str) -> (r: Result<usize, AddrError>)
    ensures
        arg@.contains('-') ==> r == Err::<usize, AddrError>(AddrError::Sign),
        !arg@.contains('-') ==> match parsed_int(suffix_digits(arg@)) {
            None => r is Err && r->Err_0 is Parse,
            Some(value) => match scaled(suffix_factor(arg@), Some(value)) {
                Some(addr) => r == Ok::<usize, AddrError>(addr),
                None => r == Err::<usize, AddrError>(AddrError::Overflow),
            },
        },
{
    if has_minus(arg) {
        return Err(AddrError::Sign);
    }
    let len = arg.unicode_len();
    if len > 0 {
        let last = arg.get_char(len - 1);
        if last == 'M' || last == 'K' {
            let digits = arg.substring_char(0, len - 1);
            proof {
                assert(digits@ =~= arg@.drop_last());
                assert forall|c: char| digits@.contains(c) implies arg@.contains(c) by {
                    let i = choose|i: int| 0 <= i < digits@.len() && digits@[i] == c;
                    assert(arg@[i] == c);
                }
            }
            let factor = if last == 'M' {
                MIB
            } else {
                KIB
            };
            return scale_addr(factor, parse_u64(digits));
        }
    }
    scale_addr(1, parse_u64(arg))
}

} // verus!
