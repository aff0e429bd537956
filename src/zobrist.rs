use crate::piece::{Color, PieceType};
use vstd::prelude::*;

verus! {

pub const WHITE: usize = 0;

pub const BLACK: usize = 1;

pub const PAWN: usize = 0;

pub const KNIGHT: usize = 1;

pub const BISHOP: usize = 2;

pub const ROOK: usize = 3;

pub const QUEEN: usize = 4;

pub const KING: usize = 5;

/// The fixed key table of the position hash: one key per (color, piece type, square),
/// one per castling right, one per en-passant file, and one for Black to move.
pub struct ZobristKeys {
    pub piece_keys: [[[u64; 64]; 6]; 2],
    pub castling_keys: [u64; 4],
    pub en_passant_keys: [u64; 8],
    pub side_to_move_key: u64,
}

pub open spec fn piece_index(t: PieceType) -> int {
    match t {
        PieceType::Pawn => 0,
        PieceType::Knight => 1,
        PieceType::Bishop => 2,
        PieceType::Rook => 3,
        PieceType::Queen => 4,
        PieceType::King => 5,
    }
}

pub open spec fn color_index(c: Color) -> int {
    match c {
        Color::White => 0,
        Color::Black => 1,
    }
}

/// Relies on rand::random: a freshly drawn u64; nothing is promised of its value.
#[verifier::external_body]
fn random_key() -> u64 {
    rand::random::<u64>()
}

impl ZobristKeys {
    /// Draws every key of the table at random.
    pub fn new() -> (keys: ZobristKeys) {
        let mut piece_keys = [[[0u64; 64]; 6]; 2];
        let mut color: usize = 0;
        while color < 2
            invariant
                color <= 2,
            decreases 2 - color,
        {
            let mut kind: usize = 0;
            while kind < 6
                invariant
                    color < 2,
                    kind <= 6,
                decreases 6 - kind,
            {
                let mut square: usize = 0;
                while square < 64
                    invariant
                        color < 2,
                        kind < 6,
                        square <= 64,
                    decreases 64 - square,
                {
                    piece_keys[color][kind][square] = random_key();
                    square = square + 1;
                }
                kind = kind + 1;
            }
            color = color + 1;
        }
        let mut castling_keys = [0u64; 4];
        let mut i: usize = 0;
        while i < 4
            invariant
                i <= 4,
            decreases 4 - i,
        {
            castling_keys[i] = random_key();
            i = i + 1;
        }
        let mut en_passant_keys = [0u64; 8];
        let mut j: usize = 0;
        while j < 8
            invariant
                j <= 8,
            decreases 8 - j,
        {
            en_passant_keys[j] = random_key();
            j = j + 1;
        }
        let side_to_move_key = random_key();
        ZobristKeys { piece_keys, castling_keys, en_passant_keys, side_to_move_key }
    }

    pub fn get_piece_index(piece_type: PieceType) -> (r: usize)
        ensures
            r == piece_index(piece_type),
    {
        match piece_type {
            PieceType::Pawn => PAWN,
            PieceType::Knight => KNIGHT,
            PieceType::Bishop => BISHOP,
            PieceType::Rook => ROOK,
            PieceType::Queen => QUEEN,
            PieceType::King => KING,
        }
    }

    pub fn get_color_index(color: Color) -> (r: usize)
        ensures
            r == color_index(color),
    {
        match color {
            Color::White => WHITE,
            Color::Black => BLACK,
        }
    }
}

} // verus!
