//! Random draws for the placement of mines.
//!
//! A draw is a number from `0` to `u32::MAX`, made of four random bytes. It
//! stands for the fraction `draw / u32::MAX` of the interval from 0 to 1.

use vstd::prelude::*;
use crate::board::BoardError;

verus! {

/// `getrandom::Error`, the error of the random source. The library carries
/// it through unread and reports it as `BoardError::Entropy`.
#[verifier::external_type_specification]
#[verifier::external_body]
pub struct ExRandomError(getrandom::Error);

/// The largest draw.
pub const DRAW_MAX: u32 = 0xffff_ffff;

/// The number that four bytes spell, the first byte counting least.
pub open spec fn draw_of(bytes: Seq<u8>) -> int {
    bytes[0] + 0x100 * bytes[1] + 0x1_0000 * bytes[2] + 0x100_0000 * bytes[3]
}

/// Whether a draw puts a mine on a cell of a board of `total` cells that is
/// to take `mines` mines: the fraction `draw / DRAW_MAX` is at most the
/// threshold `mines / total`.
pub open spec fn draw_places_mine(draw: int, mines: int, total: int) -> bool {
    draw * total <= mines * DRAW_MAX
}

/// Fills four bytes from the operating system's random source, by
/// `getrandom::getrandom`, and hands them out, or the error of the source.
/// Nothing is claimed of the bytes: every outcome is possible.
#[verifier::external_body]
fn get_random_buf() -> (res: Result<[u8; 4], getrandom::Error>) {
    let mut buf = [0u8; 4];
    match getrandom::getrandom(&mut buf) {
        Ok(()) => Ok(buf),
        Err(e) => Err(e),
    }
}

/// The draw that four bytes spell.
pub fn draw_from_bytes(bytes: [u8; 4]) -> (draw: u32)
    ensures
        draw == draw_of(bytes@),
{
    let low: u32 = bytes[0] as u32 + 0x100 * (bytes[1] as u32);
    let high: u32 = 0x1_0000 * (bytes[2] as u32) + 0x100_0000 * (bytes[3] as u32);
    low + high
}

/// Turns what the random source gave into a draw: the number that the bytes
/// spell, or `Entropy` where the source failed.
pub fn draw_from_outcome(outcome: Result<[u8; 4], getrandom::Error>) -> (res: Result<
    u32,
    BoardError,
>)
    ensures
        outcome matches Ok(bytes) ==> res == Ok::<u32, BoardError>(draw_of(bytes@) as u32),
        outcome is Err ==> res == Err::<u32, BoardError>(BoardError::Entropy),
{
    match outcome {
        Ok(bytes) => Ok(draw_from_bytes(bytes)),
        Err(_) => Err(BoardError::Entropy),
    }
}

/// A fresh random draw, or `Entropy` where the random source failed. Any
/// draw may come back.
pub fn get_random_draw() -> (res: Result<u32, BoardError>)
    ensures
        res matches Err(e) ==> e == BoardError::Entropy,
{
    draw_from_outcome(get_random_buf())
}

/// Whether a draw puts a mine on a cell: see `draw_places_mine`.
pub fn within_threshold(draw: u32, mines: i32, total: usize) -> (within: bool)
    ensures
        within == draw_places_mine(draw as int, mines as int, total as int),
{
    assert(0 <= draw * total <= 0xffff_ffff * 0xffff_ffff_ffff_ffff) by (nonlinear_arith)
        requires
            0 <= draw <= 0xffff_ffff,
            0 <= total <= 0xffff_ffff_ffff_ffff,
    ;
    if mines < 0 {
        assert(mines * 0xffff_ffff < 0) by (nonlinear_arith)
            requires
                mines < 0,
        ;
        return false;
    }
    assert(mines * 0xffff_ffff <= 0x7fff_ffff * 0xffff_ffff) by (nonlinear_arith)
        requires
            0 <= mines <= 0x7fff_ffff,
    ;
    (draw as u128) * (total as u128) <= (mines as u128) * (DRAW_MAX as u128)
}

} // verus!
