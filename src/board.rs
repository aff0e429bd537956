use crate::piece::{
    Board, Color, Piece, PieceType, in_bounds, is_empty, reaches, unmoved_rook_at,
    en_passant_rank, home_rank, promotion_rank, forward,
};
use crate::zobrist::{ZobristKeys, color_index, piece_index};
use std::collections::HashMap;
use vstd::array::spec_array_update;
use vstd::prelude::*;

verus! {

broadcast use vstd::std_specs::hash::group_hash_axioms;

pub const BOARD_SIZE: usize = 8;

/// A move as a pair of (rank, file) squares: origin, then destination.
pub type Move = ((usize, usize), (usize, usize));

#[derive(Clone, Copy, Debug)]
pub struct PromotionState {
    pub position: (usize, usize),
    pub color: Color,
}

#[derive(Clone, Copy, Debug)]
pub struct PromotionPending {
    pub position: (usize, usize),
    pub color: Color,
}

pub struct GameState {
    pub board: Board,
    pub current_turn: Color,
    pub white_can_castle_kingside: bool,
    pub white_can_castle_queenside: bool,
    pub black_can_castle_kingside: bool,
    pub black_can_castle_queenside: bool,
    pub en_passant_target: Option<(usize, usize)>,
    pub halfmove_clock: u32,
    pub fullmove_number: u32,
    pub promotion_pending: Option<PromotionState>,
    /// How often each position hash has been reached.
    pub position_history: HashMap<u64, u32>,
    pub current_hash: u64,
    /// Legal moves by position hash; holds at most the current position.
    pub move_cache: HashMap<u64, Vec<Move>>,
    pub game_over: bool,
    pub keys: ZobristKeys,
}

// ---------------------------------------------------------------------------
// Board edits
// ---------------------------------------------------------------------------

pub open spec fn set_square(b: Board, r: int, f: int, v: Option<Piece>) -> Board {
    spec_array_update(b, r, spec_array_update(b[r], f, v))
}

pub proof fn lemma_set_square(b: Board, r: int, f: int, v: Option<Piece>)
    requires
        in_bounds(r, f),
    ensures
        forall|i: int, j: int|
            #![trigger set_square(b, r, f, v)[i][j]]
            in_bounds(i, j) ==> set_square(b, r, f, v)[i][j] == if i == r && j == f {
                v
            } else {
                b[i][j]
            },
{
}

// ---------------------------------------------------------------------------
// Check detection
// ---------------------------------------------------------------------------

pub open spec fn king_at(b: Board, r: int, f: int, c: Color) -> bool {
    in_bounds(r, f) && b[r][f] is Some && b[r][f]->Some_0.piece_type == PieceType::King
        && b[r][f]->Some_0.color == c
}

/// (r1, f1) comes before (r2, f2) in rank-major order.
pub open spec fn before(r1: int, f1: int, r2: int, f2: int) -> bool {
    r1 < r2 || (r1 == r2 && f1 < f2)
}

/// (r, f) holds the first king of color `c` in rank-major order.
pub open spec fn first_king(b: Board, c: Color, r: int, f: int) -> bool {
    &&& king_at(b, r, f, c)
    &&& forall|i: int, j: int| #[trigger] king_at(b, i, j, c) ==> !before(i, j, r, f)
}

/// A piece of the other color than `c` stands on (sr, sf) and has (tr, tf) among its candidates.
pub open spec fn attacker(b: Board, sr: int, sf: int, tr: int, tf: int, c: Color) -> bool {
    &&& in_bounds(sr, sf)
    &&& b[sr][sf] is Some
    &&& b[sr][sf]->Some_0.color != c
    &&& reaches(b[sr][sf]->Some_0, b, sr, sf, tr, tf)
}

pub open spec fn attacked(b: Board, tr: int, tf: int, c: Color) -> bool {
    exists|sr: int, sf: int| #[trigger] attacker(b, sr, sf, tr, tf, c)
}

/// The king of color `c` (the first one found) is attacked by an opposing piece.
#[verifier::opaque]
pub open spec fn in_check(b: Board, c: Color) -> bool {
    exists|r: int, f: int| #[trigger] first_king(b, c, r, f) && attacked(b, r, f, c)
}

fn set_on(board: &mut Board, r: usize, f: usize, v: Option<Piece>)
    requires
        in_bounds(r as int, f as int),
    ensures
        *final(board) == set_square(*old(board), r as int, f as int, v),
{
    board[r][f] = v;
    proof {
        lemma_set_square(*old(board), r as int, f as int, v);
        assert forall|i: int| 0 <= i < 8 implies board[i] =~= set_square(
            *old(board),
            r as int,
            f as int,
            v,
        )[i] by {}
        assert(*board =~= set_square(*old(board), r as int, f as int, v));
    }
}

fn contains_square(moves: &Vec<(usize, usize)>, t: (usize, usize)) -> (r: bool)
    ensures
        r == moves@.contains(t),
{
    let mut i: usize = 0;
    while i < moves.len()
        invariant
            i <= moves@.len(),
            forall|j: int| 0 <= j < i ==> moves@[j] != t,
        decreases moves@.len() - i,
    {
        if moves[i].0 == t.0 && moves[i].1 == t.1 {
            assert(moves@[i as int] == t);
            return true;
        }
        i = i + 1;
    }
    false
}

fn find_king(board: &Board, color: Color) -> (r: Option<(usize, usize)>)
    ensures
        match r {
            Some(sq) => first_king(*board, color, sq.0 as int, sq.1 as int),
            None => forall|i: int, j: int| !king_at(*board, i, j, color),
        },
{
    let mut r: usize = 0;
    while r < 8
        invariant
            r <= 8,
            forall|i: int, j: int| #[trigger] king_at(*board, i, j, color) ==> i >= r,
        decreases 8 - r,
    {
        let mut f: usize = 0;
        while f < 8
            invariant
                r < 8,
                f <= 8,
                forall|i: int, j: int|
                    #[trigger] king_at(*board, i, j, color) ==> i > r || (i == r && j >= f),
            decreases 8 - f,
        {
            match board[r][f] {
                Some(p) => {
                    if p.piece_type == PieceType::King && p.color == color {
                        return Some((r, f));
                    }
                },
                None => {},
            }
            f = f + 1;
        }
        r = r + 1;
    }
    None
}

/// Whether (tr, tf) is among the candidates of some piece of the other color than `color`.
fn is_attacked(board: &Board, tr: usize, tf: usize, color: Color) -> (r: bool)
    ensures
        r == attacked(*board, tr as int, tf as int, color),
{
    let mut r: usize = 0;
    while r < 8
        invariant
            r <= 8,
            forall|i: int, j: int|
                #[trigger] attacker(*board, i, j, tr as int, tf as int, color) ==> i >= r,
        decreases 8 - r,
    {
        let mut f: usize = 0;
        while f < 8
            invariant
                r < 8,
                f <= 8,
                forall|i: int, j: int|
                    #[trigger] attacker(*board, i, j, tr as int, tf as int, color) ==> i > r || (i
                        == r && j >= f),
            decreases 8 - f,
        {
            match board[r][f] {
                Some(p) => {
                    if p.color != color {
                        let moves = p.get_possible_moves((r, f), board);
                        if contains_square(&moves, (tr, tf)) {
                            assert(attacker(*board, r as int, f as int, tr as int, tf as int, color));
                            return true;
                        }
                    }
                },
                None => {},
            }
            f = f + 1;
        }
        r = r + 1;
    }
    false
}

/// Whether the king of `color` on `board` is attacked.
pub fn board_in_check(board: &Board, color: Color) -> (r: bool)
    ensures
        r == in_check(*board, color),
{
    reveal(in_check);
    match find_king(board, color) {
        None => false,
        Some((kr, kf)) => {
            let hit = is_attacked(board, kr, kf, color);
            proof {
                assert forall|i: int, j: int| #[trigger]
                    first_king(*board, color, i, j) implies i == kr && j == kf by {
                    assert(king_at(*board, kr as int, kf as int, color));
                    assert(king_at(*board, i, j, color));
                }
                if hit {
                    assert(first_king(*board, color, kr as int, kf as int));
                }
            }
            hit
        },
    }
}

// ---------------------------------------------------------------------------
// Position hash
// ---------------------------------------------------------------------------

pub open spec fn piece_key(k: ZobristKeys, p: Piece, r: int, f: int) -> u64 {
    k.piece_keys[color_index(p.color)][piece_index(p.piece_type)][r * 8 + f]
}

pub open spec fn square_hash(k: ZobristKeys, v: Option<Piece>, r: int, f: int) -> u64 {
    match v {
        Some(p) => piece_key(k, p, r, f),
        None => 0,
    }
}

/// XOR of the keys of the pieces on files `0..n` of rank `r`.
pub open spec fn rank_hash(k: ZobristKeys, b: Board, r: int, n: int) -> u64
    decreases n,
{
    if n <= 0 {
        0
    } else {
        rank_hash(k, b, r, n - 1) ^ square_hash(k, b[r][n - 1], r, n - 1)
    }
}

/// XOR of the keys of the pieces on ranks `0..n`.
pub open spec fn board_hash(k: ZobristKeys, b: Board, n: int) -> u64
    decreases n,
{
    if n <= 0 {
        0
    } else {
        board_hash(k, b, n - 1) ^ rank_hash(k, b, n - 1, 8)
    }
}

pub open spec fn flag_key(on: bool, key: u64) -> u64 {
    if on {
        key
    } else {
        0
    }
}

pub open spec fn castling_hash(k: ZobristKeys, wk: bool, wq: bool, bk: bool, bq: bool) -> u64 {
    flag_key(wk, k.castling_keys[0]) ^ flag_key(wq, k.castling_keys[1]) ^ flag_key(
        bk,
        k.castling_keys[2],
    ) ^ flag_key(bq, k.castling_keys[3])
}

pub open spec fn en_passant_hash(k: ZobristKeys, ep: Option<(usize, usize)>) -> u64 {
    match ep {
        Some(sq) => k.en_passant_keys[sq.1 as int],
        None => 0,
    }
}

pub open spec fn side_hash(k: ZobristKeys, c: Color) -> u64 {
    flag_key(c == Color::Black, k.side_to_move_key)
}

/// The hash of a position computed from scratch.
pub open spec fn position_hash(s: GameState) -> u64 {
    board_hash(s.keys, s.board, 8) ^ castling_hash(
        s.keys,
        s.white_can_castle_kingside,
        s.white_can_castle_queenside,
        s.black_can_castle_kingside,
        s.black_can_castle_queenside,
    ) ^ en_passant_hash(s.keys, s.en_passant_target) ^ side_hash(s.keys, s.current_turn)
}

proof fn lemma_xor_shift(a: u64, x: u64, y: u64)
    ensures
        a ^ y == (a ^ x) ^ (x ^ y),
        (a ^ (x ^ y)) ^ x == a ^ y,
{
    assert(a ^ y == (a ^ x) ^ (x ^ y)) by (bit_vector);
    assert((a ^ (x ^ y)) ^ x == a ^ y) by (bit_vector);
}

proof fn lemma_xor_assoc(a: u64, b: u64, c: u64)
    ensures
        a ^ (b ^ c) == (a ^ b) ^ c,
{
    assert(a ^ (b ^ c) == (a ^ b) ^ c) by (bit_vector);
}

proof fn lemma_xor_move(a: u64, s: u64, d: u64)
    ensures
        (a ^ d) ^ s == (a ^ s) ^ d,
{
    assert((a ^ d) ^ s == (a ^ s) ^ d) by (bit_vector);
}

proof fn lemma_xor_parts(b: u64, c: u64, e: u64, t: u64, d: u64)
    ensures
        ((b ^ d) ^ c ^ e ^ t) == (b ^ c ^ e ^ t) ^ d,
        (b ^ (c ^ d) ^ e ^ t) == (b ^ c ^ e ^ t) ^ d,
        (b ^ c ^ (e ^ d) ^ t) == (b ^ c ^ e ^ t) ^ d,
        (b ^ c ^ e ^ (t ^ d)) == (b ^ c ^ e ^ t) ^ d,
{
    assert(((b ^ d) ^ c ^ e ^ t) == (b ^ c ^ e ^ t) ^ d) by (bit_vector);
    assert((b ^ (c ^ d) ^ e ^ t) == (b ^ c ^ e ^ t) ^ d) by (bit_vector);
    assert((b ^ c ^ (e ^ d) ^ t) == (b ^ c ^ e ^ t) ^ d) by (bit_vector);
    assert((b ^ c ^ e ^ (t ^ d)) == (b ^ c ^ e ^ t) ^ d) by (bit_vector);
}

proof fn lemma_rank_hash_update(k: ZobristKeys, b: Board, r: int, f: int, v: Option<Piece>, n: int)
    requires
        in_bounds(r, f),
        0 <= n <= 8,
    ensures
        rank_hash(k, set_square(b, r, f, v), r, n) == if n <= f {
            rank_hash(k, b, r, n)
        } else {
            rank_hash(k, b, r, n) ^ (square_hash(k, b[r][f], r, f) ^ square_hash(k, v, r, f))
        },
    decreases n,
{
    lemma_set_square(b, r, f, v);
    let b2 = set_square(b, r, f, v);
    let x = square_hash(k, b[r][f], r, f);
    let y = square_hash(k, v, r, f);
    if n > 0 {
        lemma_rank_hash_update(k, b, r, f, v, n - 1);
        let prev = rank_hash(k, b, r, n - 1);
        if n - 1 == f {
            lemma_xor_shift(prev, x, y);
        } else if n - 1 > f {
            lemma_xor_move(prev, square_hash(k, b[r][n - 1], r, n - 1), x ^ y);
        }
    }
}

proof fn lemma_board_hash_update(k: ZobristKeys, b: Board, r: int, f: int, v: Option<Piece>, n: int)
    requires
        in_bounds(r, f),
        0 <= n <= 8,
    ensures
        board_hash(k, set_square(b, r, f, v), n) == if n <= r {
            board_hash(k, b, n)
        } else {
            board_hash(k, b, n) ^ (square_hash(k, b[r][f], r, f) ^ square_hash(k, v, r, f))
        },
    decreases n,
{
    lemma_set_square(b, r, f, v);
    let b2 = set_square(b, r, f, v);
    let d = square_hash(k, b[r][f], r, f) ^ square_hash(k, v, r, f);
    if n > 0 {
        lemma_board_hash_update(k, b, r, f, v, n - 1);
        let prev = board_hash(k, b, n - 1);
        if n - 1 == r {
            lemma_rank_hash_update(k, b, r, f, v, 8);
            lemma_xor_assoc(prev, rank_hash(k, b, r, 8), d);
        } else {
            assert forall|j: int| 0 <= j < 8 implies #[trigger] b2[n - 1][j] == b[n - 1][j] by {}
            lemma_rank_hash_same(k, b, b2, n - 1, 8);
            if n - 1 > r {
                lemma_xor_move(prev, rank_hash(k, b, n - 1, 8), d);
            }
        }
    }
}

proof fn lemma_rank_hash_same(k: ZobristKeys, b1: Board, b2: Board, r: int, n: int)
    requires
        0 <= n <= 8,
        forall|j: int| 0 <= j < 8 ==> #[trigger] b2[r][j] == b1[r][j],
    ensures
        rank_hash(k, b2, r, n) == rank_hash(k, b1, r, n),
    decreases n,
{
    if n > 0 {
        lemma_rank_hash_same(k, b1, b2, r, n - 1);
        assert(b2[r][n - 1] == b1[r][n - 1]);
    }
}

proof fn lemma_flag_flip(a: u64, b: u64, c: u64, d: u64, k: u64)
    ensures
        (k ^ b ^ c ^ d) == (0u64 ^ b ^ c ^ d) ^ k,
        (a ^ k ^ c ^ d) == (a ^ 0u64 ^ c ^ d) ^ k,
        (a ^ b ^ k ^ d) == (a ^ b ^ 0u64 ^ d) ^ k,
        (a ^ b ^ c ^ k) == (a ^ b ^ c ^ 0u64) ^ k,
        (0u64 ^ b ^ c ^ d) == (k ^ b ^ c ^ d) ^ k,
        (a ^ 0u64 ^ c ^ d) == (a ^ k ^ c ^ d) ^ k,
        (a ^ b ^ 0u64 ^ d) == (a ^ b ^ k ^ d) ^ k,
        (a ^ b ^ c ^ 0u64) == (a ^ b ^ c ^ k) ^ k,
{
    assert((k ^ b ^ c ^ d) == (0u64 ^ b ^ c ^ d) ^ k) by (bit_vector);
    assert((a ^ k ^ c ^ d) == (a ^ 0u64 ^ c ^ d) ^ k) by (bit_vector);
    assert((a ^ b ^ k ^ d) == (a ^ b ^ 0u64 ^ d) ^ k) by (bit_vector);
    assert((a ^ b ^ c ^ k) == (a ^ b ^ c ^ 0u64) ^ k) by (bit_vector);
    assert((0u64 ^ b ^ c ^ d) == (k ^ b ^ c ^ d) ^ k) by (bit_vector);
    assert((a ^ 0u64 ^ c ^ d) == (a ^ k ^ c ^ d) ^ k) by (bit_vector);
    assert((a ^ b ^ 0u64 ^ d) == (a ^ b ^ k ^ d) ^ k) by (bit_vector);
    assert((a ^ b ^ c ^ 0u64) == (a ^ b ^ c ^ k) ^ k) by (bit_vector);
}

proof fn lemma_xor_cancel(x: u64, y: u64)
    ensures
        x ^ (x ^ y) == y,
{
    assert(x ^ (x ^ y) == y) by (bit_vector);
}

proof fn lemma_xor_basics(k: u64)
    ensures
        0u64 ^ k == k,
        k ^ 0u64 == k,
        k ^ k == 0u64,
{
    assert(0u64 ^ k == k) by (bit_vector);
    assert(k ^ 0u64 == k) by (bit_vector);
    assert(k ^ k == 0u64) by (bit_vector);
}

// ---------------------------------------------------------------------------
// The rules of a move
// ---------------------------------------------------------------------------

pub open spec fn piece_on(b: Board, r: int, f: int) -> Piece {
    b[r][f]->Some_0
}

pub open spec fn moved(p: Piece) -> Piece {
    Piece { piece_type: p.piece_type, color: p.color, has_moved: true }
}

/// The piece on (fr, ff) goes to (tr, tf), marked as moved; (fr, ff) is left empty.
pub open spec fn displaced(b: Board, fr: int, ff: int, tr: int, tf: int) -> Board {
    set_square(set_square(b, tr, tf, Some(moved(piece_on(b, fr, ff)))), fr, ff, None)
}

/// A pawn on its en-passant rank moves diagonally onto the empty en-passant target.
pub open spec fn is_en_passant(s: GameState, fr: int, ff: int, tr: int, tf: int) -> bool {
    let p = piece_on(s.board, fr, ff);
    &&& p.piece_type == PieceType::Pawn
    &&& s.en_passant_target == Some((tr as usize, tf as usize))
    &&& ff != tf
    &&& s.board[tr][tf] is None
    &&& fr == en_passant_rank(p.color)
}

pub open spec fn is_castling(p: Piece, fr: int, ff: int, tr: int, tf: int) -> bool {
    p.piece_type == PieceType::King && tr == fr && (tf == ff + 2 || tf == ff - 2)
}

pub open spec fn rook_from(kingside: bool) -> int {
    if kingside {
        7
    } else {
        0
    }
}

pub open spec fn rook_to(kingside: bool) -> int {
    if kingside {
        5
    } else {
        3
    }
}

/// The board once a move other than an en-passant capture is made: the piece moves, and
/// castling also brings the corner rook beside the king.
pub open spec fn relocated(b: Board, fr: int, ff: int, tr: int, tf: int) -> Board {
    let p = piece_on(b, fr, ff);
    let base = displaced(b, fr, ff, tr, tf);
    let rf = rook_from(tf > ff);
    if is_castling(p, fr, ff, tr, tf) && base[fr][rf] is Some && piece_on(base, fr, rf).piece_type
        == PieceType::Rook && piece_on(base, fr, rf).color == p.color {
        displaced(base, fr, rf, fr, rook_to(tf > ff))
    } else {
        base
    }
}

/// The board once the move is made; an en-passant capture removes the pawn beside the origin.
pub open spec fn board_after(s: GameState, fr: int, ff: int, tr: int, tf: int) -> Board {
    if is_en_passant(s, fr, ff, tr, tf) {
        set_square(displaced(s.board, fr, ff, tr, tf), fr, tf, None)
    } else {
        relocated(s.board, fr, ff, tr, tf)
    }
}

pub open spec fn castle_right(s: GameState, c: Color, kingside: bool) -> bool {
    match (c, kingside) {
        (Color::White, true) => s.white_can_castle_kingside,
        (Color::White, false) => s.white_can_castle_queenside,
        (Color::Black, true) => s.black_can_castle_kingside,
        (Color::Black, false) => s.black_can_castle_queenside,
    }
}

/// Castling of color `c` toward the king side or the queen side may be made now.
pub open spec fn castle_allowed(s: GameState, c: Color, kingside: bool) -> bool {
    let b = s.board;
    let r = home_rank(c);
    &&& castle_right(s, c, kingside)
    &&& !in_check(b, c)
    &&& king_at(b, r, 4, c)
    &&& !piece_on(b, r, 4).has_moved
    &&& unmoved_rook_at(b, r, rook_from(kingside), c)
    &&& if kingside {
        is_empty(b, r, 5) && is_empty(b, r, 6)
    } else {
        is_empty(b, r, 1) && is_empty(b, r, 2) && is_empty(b, r, 3)
    }
    &&& !in_check(displaced(b, r, 4, r, rook_to(kingside)), c)
}

/// The move (fr, ff) -> (tr, tf) is legal for the side to move (a pending promotion aside).
pub open spec fn legal_move(s: GameState, fr: int, ff: int, tr: int, tf: int) -> bool {
    let b = s.board;
    let p = piece_on(b, fr, ff);
    &&& in_bounds(fr, ff)
    &&& in_bounds(tr, tf)
    &&& b[fr][ff] is Some
    &&& p.color == s.current_turn
    &&& reaches(p, b, fr, ff, tr, tf)
    &&& (p.piece_type == PieceType::Pawn && ff != tf && b[tr][tf] is None) ==> is_en_passant(
        s,
        fr,
        ff,
        tr,
        tf,
    )
    &&& is_castling(p, fr, ff, tr, tf) ==> castle_allowed(s, p.color, tf > ff)
    &&& !in_check(board_after(s, fr, ff, tr, tf), p.color)
}

pub open spec fn promotes(s: GameState, fr: int, ff: int, tr: int, tf: int) -> bool {
    let p = piece_on(s.board, fr, ff);
    p.piece_type == PieceType::Pawn && tr == promotion_rank(p.color)
}

/// Moving the piece on (fr, ff) gives up the castling right of color `c` on that side.
pub open spec fn loses_right(s: GameState, fr: int, ff: int, c: Color, kingside: bool) -> bool {
    let p = piece_on(s.board, fr, ff);
    p.color == c && (p.piece_type == PieceType::King || (p.piece_type == PieceType::Rook && fr
        == home_rank(c) && ff == rook_from(kingside)))
}

pub open spec fn en_passant_after(s: GameState, fr: int, ff: int, tr: int, tf: int) -> Option<
    (usize, usize),
> {
    let p = piece_on(s.board, fr, ff);
    if p.piece_type == PieceType::Pawn && (tr == fr + 2 || tr == fr - 2) {
        Some(((fr + forward(p.color)) as usize, ff as usize))
    } else {
        None
    }
}

pub open spec fn bumped(n: u32) -> u32 {
    if n < u32::MAX {
        (n + 1) as u32
    } else {
        n
    }
}

pub open spec fn clock_after(s: GameState, fr: int, ff: int, tr: int, tf: int) -> u32 {
    if piece_on(s.board, fr, ff).piece_type == PieceType::Pawn || s.board[tr][tf] is Some {
        0
    } else {
        bumped(s.halfmove_clock)
    }
}

/// The occurrence count of hash `h` raised by one.
pub open spec fn recorded(m: Map<u64, u32>, h: u64) -> Map<u64, u32> {
    m.insert(
        h,
        if m.contains_key(h) {
            bumped(m[h])
        } else {
            1
        },
    )
}

pub open spec fn legal_list(s: GameState, moves: Seq<Move>) -> bool {
    forall|m: Move|
        #![trigger moves.contains(m)]
        moves.contains(m) <==> legal_move(s, m.0.0 as int, m.0.1 as int, m.1.0 as int, m.1.1 as int)
}

/// `after` is the state that making the legal move (fr, ff) -> (tr, tf) in `before` leads to.
pub open spec fn applied(before: GameState, after: GameState, fr: int, ff: int, tr: int, tf: int) -> bool {
    let p = piece_on(before.board, fr, ff);
    &&& after.board == board_after(before, fr, ff, tr, tf)
    &&& after.white_can_castle_kingside == (before.white_can_castle_kingside && !loses_right(
        before,
        fr,
        ff,
        Color::White,
        true,
    ))
    &&& after.white_can_castle_queenside == (before.white_can_castle_queenside && !loses_right(
        before,
        fr,
        ff,
        Color::White,
        false,
    ))
    &&& after.black_can_castle_kingside == (before.black_can_castle_kingside && !loses_right(
        before,
        fr,
        ff,
        Color::Black,
        true,
    ))
    &&& after.black_can_castle_queenside == (before.black_can_castle_queenside && !loses_right(
        before,
        fr,
        ff,
        Color::Black,
        false,
    ))
    &&& after.en_passant_target == en_passant_after(before, fr, ff, tr, tf)
    &&& after.halfmove_clock == clock_after(before, fr, ff, tr, tf)
    &&& if promotes(before, fr, ff, tr, tf) {
        &&& after.current_turn == before.current_turn
        &&& after.fullmove_number == before.fullmove_number
        &&& after.promotion_pending == Some(
            PromotionState { position: (tr as usize, tf as usize), color: p.color },
        )
        &&& after.position_history@ == before.position_history@
    } else {
        &&& after.current_turn == before.current_turn.other()
        &&& after.fullmove_number == if before.current_turn == Color::Black {
            bumped(before.fullmove_number)
        } else {
            before.fullmove_number
        }
        &&& after.promotion_pending is None
        &&& after.position_history@ == recorded(before.position_history@, after.current_hash)
    }
    &&& after.move_cache@ == Map::<u64, Vec<Move>>::empty()
    &&& after.game_over == before.game_over
    &&& after.keys == before.keys
}

pub open spec fn back_rank_type(f: int) -> PieceType {
    if f == 0 || f == 7 {
        PieceType::Rook
    } else if f == 1 || f == 6 {
        PieceType::Knight
    } else if f == 2 || f == 5 {
        PieceType::Bishop
    } else if f == 3 {
        PieceType::Queen
    } else {
        PieceType::King
    }
}

/// What (r, f) holds at the start of a game.
pub open spec fn initial_square(r: int, f: int) -> Option<Piece> {
    if r == 0 {
        Some(Piece { piece_type: back_rank_type(f), color: Color::Black, has_moved: false })
    } else if r == 1 {
        Some(Piece { piece_type: PieceType::Pawn, color: Color::Black, has_moved: false })
    } else if r == 6 {
        Some(Piece { piece_type: PieceType::Pawn, color: Color::White, has_moved: false })
    } else if r == 7 {
        Some(Piece { piece_type: back_rank_type(f), color: Color::White, has_moved: false })
    } else {
        None
    }
}

/// `after` is the state that promoting the pending pawn of `before` to `kind` leads to.
pub open spec fn promoted(before: GameState, after: GameState, kind: PieceType) -> bool {
    let ps = before.promotion_pending->Some_0;
    let (r, f) = ps.position;
    &&& after.board == set_square(
        before.board,
        r as int,
        f as int,
        Some(Piece { piece_type: kind, color: ps.color, has_moved: false }),
    )
    &&& after.current_turn == before.current_turn.other()
    &&& after.fullmove_number == if before.current_turn == Color::Black {
        bumped(before.fullmove_number)
    } else {
        before.fullmove_number
    }
    &&& after.promotion_pending is None
    &&& after.position_history@ == recorded(before.position_history@, after.current_hash)
    &&& after.move_cache@ == Map::<u64, Vec<Move>>::empty()
    &&& after.white_can_castle_kingside == before.white_can_castle_kingside
    &&& after.white_can_castle_queenside == before.white_can_castle_queenside
    &&& after.black_can_castle_kingside == before.black_can_castle_kingside
    &&& after.black_can_castle_queenside == before.black_can_castle_queenside
    &&& after.en_passant_target == before.en_passant_target
    &&& after.halfmove_clock == before.halfmove_clock
    &&& after.game_over == before.game_over
    &&& after.keys == before.keys
}

/// The side to move has at least one legal move.
pub open spec fn has_any_legal(s: GameState) -> bool {
    exists|fr: int, ff: int, tr: int, tf: int| #[trigger] legal_move(s, fr, ff, tr, tf)
}

/// `moves` is what a legal-move query on `before` returns, `after` the state it leaves: the
/// cached list when the current position has one, else the fresh list, which is cached.
pub open spec fn answered(before: GameState, after: GameState, moves: Seq<Move>) -> bool {
    let h = before.current_hash;
    &&& legal_list(before, moves)
    &&& moves.no_duplicates()
    &&& before.move_cache@.contains_key(h) ==> moves == before.move_cache@[h]@
    &&& after.move_cache@.dom() == set![h]
    &&& after.move_cache@[h]@ == moves
    &&& after == (GameState { move_cache: after.move_cache, ..before })
}

pub open spec fn counted(v: Option<Piece>, r: int, f: int, t: Option<PieceType>, c: Option<Color>, shade: Option<int>) -> bool {
    &&& v is Some
    &&& t is None || v->Some_0.piece_type == t->Some_0
    &&& c is None || v->Some_0.color == c->Some_0
    &&& shade is None || (r + f) % 2 == shade->Some_0
}

pub open spec fn count_rank(b: Board, r: int, n: int, t: Option<PieceType>, c: Option<Color>, shade: Option<int>) -> nat
    decreases n,
{
    if n <= 0 {
        0
    } else {
        count_rank(b, r, n - 1, t, c, shade) + if counted(b[r][n - 1], r, n - 1, t, c, shade) {
            1nat
        } else {
            0nat
        }
    }
}

/// How many pieces on ranks `0..n` are of type `t`, of color `c`, on squares of shade
/// `shade` ((rank + file) mod 2), where `None` stands for any.
pub open spec fn count_pieces(b: Board, n: int, t: Option<PieceType>, c: Option<Color>, shade: Option<int>) -> nat
    decreases n,
{
    if n <= 0 {
        0
    } else {
        count_pieces(b, n - 1, t, c, shade) + count_rank(b, n - 1, 8, t, c, shade)
    }
}

/// The material heuristic: two pieces; three with a lone bishop or a lone knight; four where
/// each side has one bishop and both bishops stand on squares of one shade.
pub open spec fn insufficient_material(b: Board) -> bool {
    let total = count_pieces(b, 8, None, None, None);
    let bishops = |c: Color, sh: int| count_pieces(b, 8, Some(PieceType::Bishop), Some(c), Some(sh));
    ||| total == 2
    ||| total == 3 && (count_pieces(b, 8, Some(PieceType::Bishop), None, None) == 1 || count_pieces(
        b,
        8,
        Some(PieceType::Knight),
        None,
        None,
    ) == 1)
    ||| total == 4 && count_pieces(b, 8, Some(PieceType::Bishop), Some(Color::White), None) == 1
        && count_pieces(b, 8, Some(PieceType::Bishop), Some(Color::Black), None) == 1 && (
    (bishops(Color::White, 0) == 1 && bishops(Color::Black, 0) == 1) || (bishops(Color::White, 1)
        == 1 && bishops(Color::Black, 1) == 1))
}

pub open spec fn threefold(s: GameState) -> bool {
    s.position_history@.contains_key(s.current_hash) && s.position_history@[s.current_hash] >= 3
}

pub open spec fn stalemate(s: GameState) -> bool {
    !in_check(s.board, s.current_turn) && !has_any_legal(s)
}

pub open spec fn draw(s: GameState) -> bool {
    stalemate(s) || threefold(s) || s.halfmove_clock >= 100 || insufficient_material(s.board)
}

/// The position is checkmate or a draw.
pub open spec fn terminal(s: GameState) -> bool {
    (in_check(s.board, s.current_turn) && !has_any_legal(s)) || draw(s)
}

impl GameState {
    pub open spec fn hash_ok(self) -> bool {
        self.current_hash == position_hash(self)
    }

    pub open spec fn wf(self) -> bool {
        &&& self.hash_ok()
        &&& match self.en_passant_target {
            Some(sq) => sq.0 < 8 && sq.1 < 8,
            None => true,
        }
        &&& match self.promotion_pending {
            Some(ps) => {
                let (r, f) = ps.position;
                &&& ps.color == self.current_turn
                &&& in_bounds(r as int, f as int)
                &&& r == promotion_rank(ps.color)
                &&& self.board[r as int][f as int] is Some
                &&& piece_on(self.board, r as int, f as int).piece_type == PieceType::Pawn
                &&& piece_on(self.board, r as int, f as int).color == ps.color
            },
            None => true,
        }
        &&& forall|h: u64| #[trigger]
            self.move_cache@.contains_key(h) ==> h == self.current_hash && legal_list(
                self,
                self.move_cache@[h]@,
            ) && self.move_cache@[h]@.no_duplicates()
    }
}

impl GameState {
    fn square_key(&self, v: Option<Piece>, r: usize, f: usize) -> (k: u64)
        requires
            in_bounds(r as int, f as int),
        ensures
            k == square_hash(self.keys, v, r as int, f as int),
    {
        match v {
            Some(p) => self.keys.piece_keys[ZobristKeys::get_color_index(
                p.color,
            )][ZobristKeys::get_piece_index(p.piece_type)][r * 8 + f],
            None => 0,
        }
    }

    /// Puts `v` on (r, f), XOR-ing the old occupant's key out of the hash and the new one's in.
    fn put(&mut self, r: usize, f: usize, v: Option<Piece>)
        requires
            old(self).hash_ok(),
            in_bounds(r as int, f as int),
        ensures
            final(self).hash_ok(),
            *final(self) == (GameState {
                board: set_square(old(self).board, r as int, f as int, v),
                current_hash: final(self).current_hash,
                ..*old(self)
            }),
    {
        let d = self.square_key(self.board[r][f], r, f) ^ self.square_key(v, r, f);
        proof {
            let s = *old(self);
            lemma_board_hash_update(s.keys, s.board, r as int, f as int, v, 8);
            lemma_xor_parts(
                board_hash(s.keys, s.board, 8),
                castling_hash(
                    s.keys,
                    s.white_can_castle_kingside,
                    s.white_can_castle_queenside,
                    s.black_can_castle_kingside,
                    s.black_can_castle_queenside,
                ),
                en_passant_hash(s.keys, s.en_passant_target),
                side_hash(s.keys, s.current_turn),
                d,
            );
        }
        set_on(&mut self.board, r, f, v);
        self.current_hash = self.current_hash ^ d;
    }

    /// Gives up castling right of `color` on one side, XOR-ing its key out if it was held.
    fn drop_right(&mut self, color: Color, kingside: bool)
        requires
            old(self).hash_ok(),
        ensures
            final(self).hash_ok(),
            *final(self) == (GameState {
                white_can_castle_kingside: old(self).white_can_castle_kingside && !(color
                    == Color::White && kingside),
                white_can_castle_queenside: old(self).white_can_castle_queenside && !(color
                    == Color::White && !kingside),
                black_can_castle_kingside: old(self).black_can_castle_kingside && !(color
                    == Color::Black && kingside),
                black_can_castle_queenside: old(self).black_can_castle_queenside && !(color
                    == Color::Black && !kingside),
                current_hash: final(self).current_hash,
                ..*old(self)
            }),
    {
        let ghost s = *old(self);
        let ghost a = flag_key(s.white_can_castle_kingside, s.keys.castling_keys[0]);
        let ghost b = flag_key(s.white_can_castle_queenside, s.keys.castling_keys[1]);
        let ghost c = flag_key(s.black_can_castle_kingside, s.keys.castling_keys[2]);
        let ghost d = flag_key(s.black_can_castle_queenside, s.keys.castling_keys[3]);
        let ghost e = en_passant_hash(s.keys, s.en_passant_target);
        let ghost t = side_hash(s.keys, s.current_turn);
        let ghost bh = board_hash(s.keys, s.board, 8);
        match (color, kingside) {
            (Color::White, true) => {
                if self.white_can_castle_kingside {
                    let k = self.keys.castling_keys[0];
                    proof {
                        lemma_flag_flip(a, b, c, d, k);
                        lemma_xor_parts(bh, a ^ b ^ c ^ d, e, t, k);
                    }
                    self.white_can_castle_kingside = false;
                    self.current_hash = self.current_hash ^ k;
                }
            },
            (Color::White, false) => {
                if self.white_can_castle_queenside {
                    let k = self.keys.castling_keys[1];
                    proof {
                        lemma_flag_flip(a, b, c, d, k);
                        lemma_xor_parts(bh, a ^ b ^ c ^ d, e, t, k);
                    }
                    self.white_can_castle_queenside = false;
                    self.current_hash = self.current_hash ^ k;
                }
            },
            (Color::Black, true) => {
                if self.black_can_castle_kingside {
                    let k = self.keys.castling_keys[2];
                    proof {
                        lemma_flag_flip(a, b, c, d, k);
                        lemma_xor_parts(bh, a ^ b ^ c ^ d, e, t, k);
                    }
                    self.black_can_castle_kingside = false;
                    self.current_hash = self.current_hash ^ k;
                }
            },
            (Color::Black, false) => {
                if self.black_can_castle_queenside {
                    let k = self.keys.castling_keys[3];
                    proof {
                        lemma_flag_flip(a, b, c, d, k);
                        lemma_xor_parts(bh, a ^ b ^ c ^ d, e, t, k);
                    }
                    self.black_can_castle_queenside = false;
                    self.current_hash = self.current_hash ^ k;
                }
            },
        }
    }

    /// Replaces the en-passant target, XOR-ing the old file's key out and the new one's in.
    fn set_en_passant(&mut self, target: Option<(usize, usize)>)
        requires
            old(self).hash_ok(),
            match old(self).en_passant_target {
                Some(sq) => sq.1 < 8,
                None => true,
            },
            match target {
                Some(sq) => sq.1 < 8,
                None => true,
            },
        ensures
            final(self).hash_ok(),
            *final(self) == (GameState {
                en_passant_target: target,
                current_hash: final(self).current_hash,
                ..*old(self)
            }),
    {
        let out = match self.en_passant_target {
            Some((_, file)) => self.keys.en_passant_keys[file],
            None => 0,
        };
        let inn = match target {
            Some((_, file)) => self.keys.en_passant_keys[file],
            None => 0,
        };
        proof {
            let s = *old(self);
            lemma_xor_cancel(out, inn);
            lemma_xor_parts(
                board_hash(s.keys, s.board, 8),
                castling_hash(
                    s.keys,
                    s.white_can_castle_kingside,
                    s.white_can_castle_queenside,
                    s.black_can_castle_kingside,
                    s.black_can_castle_queenside,
                ),
                en_passant_hash(s.keys, s.en_passant_target),
                side_hash(s.keys, s.current_turn),
                out ^ inn,
            );
        }
        self.en_passant_target = target;
        self.current_hash = self.current_hash ^ (out ^ inn);
    }

    /// Hands the move to the other side; the full-move number grows after Black's move.
    fn switch_turn(&mut self)
        requires
            old(self).hash_ok(),
        ensures
            final(self).hash_ok(),
            *final(self) == (GameState {
                current_turn: old(self).current_turn.other(),
                fullmove_number: if old(self).current_turn == Color::Black {
                    bumped(old(self).fullmove_number)
                } else {
                    old(self).fullmove_number
                },
                current_hash: final(self).current_hash,
                ..*old(self)
            }),
    {
        let k = self.keys.side_to_move_key;
        proof {
            let s = *old(self);
            let t = side_hash(s.keys, s.current_turn);
            lemma_xor_basics(k);
            assert(side_hash(s.keys, s.current_turn.other()) == t ^ k);
            lemma_xor_parts(
                board_hash(s.keys, s.board, 8),
                castling_hash(
                    s.keys,
                    s.white_can_castle_kingside,
                    s.white_can_castle_queenside,
                    s.black_can_castle_kingside,
                    s.black_can_castle_queenside,
                ),
                en_passant_hash(s.keys, s.en_passant_target),
                t,
                k,
            );
        }
        self.current_hash = self.current_hash ^ k;
        match self.current_turn {
            Color::White => {
                self.current_turn = Color::Black;
            },
            Color::Black => {
                if self.fullmove_number < u32::MAX {
                    self.fullmove_number = self.fullmove_number + 1;
                }
                self.current_turn = Color::White;
            },
        }
    }
}

impl GameState {
    /// Whether the pawn move (from -> to) is an en-passant capture.
    fn en_passant_capture(&self, from: (usize, usize), to: (usize, usize)) -> (r: bool)
        requires
            in_bounds(from.0 as int, from.1 as int),
            in_bounds(to.0 as int, to.1 as int),
            self.board[from.0 as int][from.1 as int] is Some,
        ensures
            r == is_en_passant(*self, from.0 as int, from.1 as int, to.0 as int, to.1 as int),
    {
        let piece = self.board[from.0][from.1].unwrap();
        let ep_rank: usize = match piece.color {
            Color::White => 3,
            Color::Black => 4,
        };
        let target_hit = match self.en_passant_target {
            Some(t) => t.0 == to.0 && t.1 == to.1,
            None => false,
        };
        piece.piece_type == PieceType::Pawn && target_hit && from.1 != to.1
            && self.board[to.0][to.1].is_none() && from.0 == ep_rank
    }

    /// Whether the king of the moving piece's color would be attacked once the move is made
    /// (on a copy of the board); false when `from` is empty.
    pub fn would_be_in_check_after_move(&self, from: (usize, usize), to: (usize, usize)) -> (r:
        bool)
        requires
            in_bounds(from.0 as int, from.1 as int),
            in_bounds(to.0 as int, to.1 as int),
        ensures
            r == (self.board[from.0 as int][from.1 as int] is Some && in_check(
                board_after(*self, from.0 as int, from.1 as int, to.0 as int, to.1 as int),
                piece_on(self.board, from.0 as int, from.1 as int).color,
            )),
    {
        let (fr, ff) = from;
        let (tr, tf) = to;
        let piece = match self.board[fr][ff] {
            Some(p) => p,
            None => return false,
        };
        let ep = self.en_passant_capture(from, to);
        let mut b = self.board;
        let mut mover = piece;
        mover.has_moved = true;
        set_on(&mut b, tr, tf, Some(mover));
        set_on(&mut b, fr, ff, None);
        assert(b == displaced(self.board, fr as int, ff as int, tr as int, tf as int));
        if ep {
            set_on(&mut b, fr, tf, None);
        } else if piece.piece_type == PieceType::King && tr == fr && (tf == ff + 2 || ff == tf
            + 2) {
            let rf: usize = if tf > ff { 7 } else { 0 };
            let rt: usize = if tf > ff { 5 } else { 3 };
            match b[fr][rf] {
                Some(rook) => {
                    if rook.piece_type == PieceType::Rook && rook.color == piece.color {
                        let mut moved_rook = rook;
                        moved_rook.has_moved = true;
                        set_on(&mut b, fr, rt, Some(moved_rook));
                        set_on(&mut b, fr, rf, None);
                    }
                },
                None => {},
            }
        }
        board_in_check(&b, piece.color)
    }

    /// Whether `color` may castle now toward the king side (or the queen side).
    fn can_castle(&self, color: Color, kingside: bool) -> (r: bool)
        ensures
            r == castle_allowed(*self, color, kingside),
    {
        let right = match (color, kingside) {
            (Color::White, true) => self.white_can_castle_kingside,
            (Color::White, false) => self.white_can_castle_queenside,
            (Color::Black, true) => self.black_can_castle_kingside,
            (Color::Black, false) => self.black_can_castle_queenside,
        };
        if !right {
            return false;
        }
        if board_in_check(&self.board, color) {
            return false;
        }
        let rank: usize = match color {
            Color::White => 7,
            Color::Black => 0,
        };
        match self.board[rank][4] {
            Some(king) => {
                if king.piece_type != PieceType::King || king.color != color || king.has_moved {
                    return false;
                }
            },
            None => return false,
        }
        let corner: usize = if kingside { 7 } else { 0 };
        match self.board[rank][corner] {
            Some(rook) => {
                if rook.piece_type != PieceType::Rook || rook.color != color || rook.has_moved {
                    return false;
                }
            },
            None => return false,
        }
        if kingside {
            if self.board[rank][5].is_some() || self.board[rank][6].is_some() {
                return false;
            }
        } else {
            if self.board[rank][1].is_some() || self.board[rank][2].is_some()
                || self.board[rank][3].is_some() {
                return false;
            }
        }
        let transit: usize = if kingside { 5 } else { 3 };
        !self.would_be_in_check_after_move((rank, 4), (rank, transit))
    }

    /// Whether (from -> to) is a legal move for the side to move, a pending promotion aside.
    fn is_legal(&self, from: (usize, usize), to: (usize, usize)) -> (r: bool)
        ensures
            r == legal_move(*self, from.0 as int, from.1 as int, to.0 as int, to.1 as int),
    {
        let (fr, ff) = from;
        let (tr, tf) = to;
        if fr >= 8 || ff >= 8 || tr >= 8 || tf >= 8 {
            return false;
        }
        let piece = match self.board[fr][ff] {
            Some(p) => p,
            None => return false,
        };
        if piece.color != self.current_turn {
            return false;
        }
        let candidates = piece.get_possible_moves(from, &self.board);
        if !contains_square(&candidates, to) {
            return false;
        }
        if piece.piece_type == PieceType::Pawn && ff != tf && self.board[tr][tf].is_none()
            && !self.en_passant_capture(from, to) {
            return false;
        }
        if piece.piece_type == PieceType::King && tr == fr && (tf == ff + 2 || ff == tf + 2) {
            if !self.can_castle(piece.color, tf > ff) {
                return false;
            }
        }
        !self.would_be_in_check_after_move(from, to)
    }
}

impl GameState {
    /// Counts one more occurrence of the current position hash.
    fn update_position_history(&mut self)
        ensures
            *final(self) == (GameState {
                position_history: final(self).position_history,
                ..*old(self)
            }),
            final(self).position_history@ == recorded(
                old(self).position_history@,
                old(self).current_hash,
            ),
    {
        let h = self.current_hash;
        let count: u32 = match self.position_history.get(&h) {
            Some(c) => *c,
            None => 0,
        };
        let next: u32 = if count < u32::MAX { count + 1 } else { count };
        self.position_history.insert(h, next);
    }

    fn clear_move_cache(&mut self)
        ensures
            *final(self) == (GameState { move_cache: final(self).move_cache, ..*old(self) }),
            final(self).move_cache@ == Map::<u64, Vec<Move>>::empty(),
    {
        self.move_cache.clear();
    }

    /// Gives up the castling rights that moving `piece` from `from` costs: both of its
    /// color for a king, the one of its corner for a rook leaving it.
    fn update_castling_flags(&mut self, from: (usize, usize), piece: Piece)
        requires
            old(self).hash_ok(),
            in_bounds(from.0 as int, from.1 as int),
            old(self).board[from.0 as int][from.1 as int] == Some(piece),
        ensures
            final(self).hash_ok(),
            *final(self) == (GameState {
                white_can_castle_kingside: old(self).white_can_castle_kingside && !loses_right(
                    *old(self),
                    from.0 as int,
                    from.1 as int,
                    Color::White,
                    true,
                ),
                white_can_castle_queenside: old(self).white_can_castle_queenside && !loses_right(
                    *old(self),
                    from.0 as int,
                    from.1 as int,
                    Color::White,
                    false,
                ),
                black_can_castle_kingside: old(self).black_can_castle_kingside && !loses_right(
                    *old(self),
                    from.0 as int,
                    from.1 as int,
                    Color::Black,
                    true,
                ),
                black_can_castle_queenside: old(self).black_can_castle_queenside && !loses_right(
                    *old(self),
                    from.0 as int,
                    from.1 as int,
                    Color::Black,
                    false,
                ),
                current_hash: final(self).current_hash,
                ..*old(self)
            }),
    {
        let home: usize = match piece.color {
            Color::White => 7,
            Color::Black => 0,
        };
        if piece.piece_type == PieceType::King {
            self.drop_right(piece.color, true);
            self.drop_right(piece.color, false);
        } else if piece.piece_type == PieceType::Rook && from.0 == home && from.1 == 7 {
            self.drop_right(piece.color, true);
        } else if piece.piece_type == PieceType::Rook && from.0 == home && from.1 == 0 {
            self.drop_right(piece.color, false);
        }
    }

    /// Moves the piece on `from` to `to`; for castling, the corner rook too.
    fn relocate(&mut self, from: (usize, usize), to: (usize, usize))
        requires
            old(self).hash_ok(),
            in_bounds(from.0 as int, from.1 as int),
            in_bounds(to.0 as int, to.1 as int),
            old(self).board[from.0 as int][from.1 as int] is Some,
        ensures
            final(self).hash_ok(),
            *final(self) == (GameState {
                board: relocated(old(self).board, from.0 as int, from.1 as int, to.0 as int, to.1 as int),
                current_hash: final(self).current_hash,
                ..*old(self)
            }),
    {
        let (fr, ff) = from;
        let (tr, tf) = to;
        let piece = self.board[fr][ff].unwrap();
        let mut mover = piece;
        mover.has_moved = true;
        self.put(tr, tf, Some(mover));
        self.put(fr, ff, None);
        if piece.piece_type == PieceType::King && tr == fr && (tf == ff + 2 || ff == tf + 2) {
            let rf: usize = if tf > ff { 7 } else { 0 };
            let rt: usize = if tf > ff { 5 } else { 3 };
            match self.board[fr][rf] {
                Some(rook) => {
                    if rook.piece_type == PieceType::Rook && rook.color == piece.color {
                        let mut moved_rook = rook;
                        moved_rook.has_moved = true;
                        self.put(fr, rt, Some(moved_rook));
                        self.put(fr, rf, None);
                    }
                },
                None => {},
            }
        }
    }

    /// Makes the legal move (from -> to).
    fn apply_move(&mut self, from: (usize, usize), to: (usize, usize))
        requires
            old(self).wf(),
            old(self).promotion_pending is None,
            in_bounds(from.0 as int, from.1 as int),
            in_bounds(to.0 as int, to.1 as int),
            old(self).board[from.0 as int][from.1 as int] is Some,
            is_castling(piece_on(old(self).board, from.0 as int, from.1 as int), from.0 as int, from.1 as int, to.0 as int, to.1 as int) ==> from.1 == 4,
            piece_on(old(self).board, from.0 as int, from.1 as int).color == old(self).current_turn,
            from != to,
            is_en_passant(*old(self), from.0 as int, from.1 as int, to.0 as int, to.1 as int) ==> to.0
                == from.0 + forward(piece_on(old(self).board, from.0 as int, from.1 as int).color),
            ({
                let p = piece_on(old(self).board, from.0 as int, from.1 as int);
                p.piece_type == PieceType::Pawn && (to.0 == from.0 + 2 || from.0 == to.0 + 2) ==> from.0
                    == crate::piece::pawn_start_rank(p.color) && to.0 == from.0 + 2 * forward(p.color)
            }),
        ensures
            final(self).wf(),
            applied(*old(self), *final(self), from.0 as int, from.1 as int, to.0 as int, to.1 as int),
    {
        let ghost s = *old(self);
        let (fr, ff) = from;
        let (tr, tf) = to;
        let piece = self.board[fr][ff].unwrap();
        let ep = self.en_passant_capture(from, to);
        let capture = self.board[tr][tf].is_some();
        self.clear_move_cache();
        self.set_en_passant(None);
        if ep {
            let mut mover = piece;
            mover.has_moved = true;
            self.put(tr, tf, Some(mover));
            self.put(fr, ff, None);
            self.put(fr, tf, None);
            self.halfmove_clock = 0;
            self.switch_turn();
            self.update_position_history();
            return;
        }
        if piece.piece_type == PieceType::Pawn || capture {
            self.halfmove_clock = 0;
        } else if self.halfmove_clock < u32::MAX {
            self.halfmove_clock = self.halfmove_clock + 1;
        }
        if piece.piece_type == PieceType::Pawn && (tr == fr + 2 || fr == tr + 2) {
            let skipped: usize = match piece.color {
                Color::White => fr - 1,
                Color::Black => fr + 1,
            };
            self.set_en_passant(Some((skipped, ff)));
        }
        self.update_castling_flags(from, piece);
        self.relocate(from, to);
        let last: usize = match piece.color {
            Color::White => 0,
            Color::Black => 7,
        };
        if piece.piece_type == PieceType::Pawn && tr == last {
            proof {
                let m = moved(piece);
                lemma_set_square(s.board, tr as int, tf as int, Some(m));
                lemma_set_square(
                    set_square(s.board, tr as int, tf as int, Some(m)),
                    fr as int,
                    ff as int,
                    None,
                );
            }
            self.promotion_pending = Some(PromotionState { position: (tr, tf), color: piece.color });
            return;
        }
        self.switch_turn();
        self.update_position_history();
    }

    /// Makes the move (from -> to) when it is legal and no promotion is pending; otherwise
    /// returns false and changes nothing.
    pub fn make_move(&mut self, from: (usize, usize), to: (usize, usize)) -> (r: bool)
        requires
            old(self).wf(),
        ensures
            final(self).wf(),
            final(self).current_hash == position_hash(*final(self)),
            r == (old(self).promotion_pending is None && legal_move(
                *old(self),
                from.0 as int,
                from.1 as int,
                to.0 as int,
                to.1 as int,
            )),
            !r ==> *final(self) == *old(self),
            r ==> applied(*old(self), *final(self), from.0 as int, from.1 as int, to.0 as int, to.1 as int),
            r ==> !in_check(final(self).board, piece_on(old(self).board, from.0 as int, from.1 as int).color),
            sound(*old(self)) ==> sound(*final(self)),
    {
        if self.promotion_pending.is_some() {
            return false;
        }
        if !self.is_legal(from, to) {
            return false;
        }
        proof {
            let p = piece_on(self.board, from.0 as int, from.1 as int);
            assert(crate::piece::reaches(p, self.board, from.0 as int, from.1 as int, to.0 as int, to.1 as int));
            if sound(*self) {
                lemma_kings_after(*self, from.0 as int, from.1 as int, to.0 as int, to.1 as int, Color::White);
                lemma_kings_after(*self, from.0 as int, from.1 as int, to.0 as int, to.1 as int, Color::Black);
            }
        }
        self.apply_move(from, to);
        true
    }
}

impl GameState {
    /// The position hash computed from scratch.
    fn calculate_zobrist_hash(&self) -> (h: u64)
        requires
            match self.en_passant_target {
                Some(sq) => sq.1 < 8,
                None => true,
            },
        ensures
            h == position_hash(*self),
    {
        let mut hash: u64 = 0;
        let mut rank: usize = 0;
        while rank < 8
            invariant
                rank <= 8,
                hash == board_hash(self.keys, self.board, rank as int),
            decreases 8 - rank,
        {
            let mut row: u64 = 0;
            let mut file: usize = 0;
            while file < 8
                invariant
                    rank < 8,
                    file <= 8,
                    row == rank_hash(self.keys, self.board, rank as int, file as int),
                decreases 8 - file,
            {
                row = row ^ self.square_key(self.board[rank][file], rank, file);
                file = file + 1;
            }
            hash = hash ^ row;
            rank = rank + 1;
        }
        let mut castling: u64 = 0;
        if self.white_can_castle_kingside {
            castling = castling ^ self.keys.castling_keys[0];
        }
        if self.white_can_castle_queenside {
            castling = castling ^ self.keys.castling_keys[1];
        }
        if self.black_can_castle_kingside {
            castling = castling ^ self.keys.castling_keys[2];
        }
        if self.black_can_castle_queenside {
            castling = castling ^ self.keys.castling_keys[3];
        }
        let ep: u64 = match self.en_passant_target {
            Some((_, file)) => self.keys.en_passant_keys[file],
            None => 0,
        };
        let side: u64 = match self.current_turn {
            Color::White => 0,
            Color::Black => self.keys.side_to_move_key,
        };
        proof {
            let k = self.keys;
            let a = flag_key(self.white_can_castle_kingside, k.castling_keys[0]);
            let b = flag_key(self.white_can_castle_queenside, k.castling_keys[1]);
            let c = flag_key(self.black_can_castle_kingside, k.castling_keys[2]);
            let d = flag_key(self.black_can_castle_queenside, k.castling_keys[3]);
            lemma_xor_basics(a);
            assert(castling == a ^ b ^ c ^ d) by {
                lemma_xor_basics(b);
                lemma_xor_basics(c);
                lemma_xor_basics(d);
                lemma_xor_basics(a ^ b);
                lemma_xor_basics(a ^ b ^ c);
            }
        }
        hash ^ castling ^ ep ^ side
    }
}

fn back_rank(color: Color) -> (row: [Option<Piece>; 8])
    ensures
        forall|f: int|
            0 <= f < 8 ==> #[trigger] row[f] == Some(
                Piece { piece_type: back_rank_type(f), color, has_moved: false },
            ),
{
    let row = [
        Some(Piece::new(PieceType::Rook, color)),
        Some(Piece::new(PieceType::Knight, color)),
        Some(Piece::new(PieceType::Bishop, color)),
        Some(Piece::new(PieceType::Queen, color)),
        Some(Piece::new(PieceType::King, color)),
        Some(Piece::new(PieceType::Bishop, color)),
        Some(Piece::new(PieceType::Knight, color)),
        Some(Piece::new(PieceType::Rook, color)),
    ];
    row
}

impl GameState {
    /// A game at its initial position, White to move, with a freshly drawn key table.
    pub fn new() -> (s: GameState)
        ensures
            s.wf(),
            sound(s),
            s.current_hash == position_hash(s),
            forall|r: int, f: int| in_bounds(r, f) ==> #[trigger] s.board[r][f] == initial_square(r, f),
            s.current_turn == Color::White,
            s.white_can_castle_kingside && s.white_can_castle_queenside,
            s.black_can_castle_kingside && s.black_can_castle_queenside,
            s.en_passant_target is None,
            s.halfmove_clock == 0,
            s.fullmove_number == 1,
            s.promotion_pending is None,
            s.position_history@ == map![s.current_hash => 1u32],
            s.move_cache@ == Map::<u64, Vec<Move>>::empty(),
            !s.game_over,
    {
        let black_pawns = [Some(Piece::new(PieceType::Pawn, Color::Black)); 8];
        let white_pawns = [Some(Piece::new(PieceType::Pawn, Color::White)); 8];
        let empty: [Option<Piece>; 8] = [None; 8];
        let board: Board = [
            back_rank(Color::Black),
            black_pawns,
            empty,
            empty,
            empty,
            empty,
            white_pawns,
            back_rank(Color::White),
        ];
        let mut state = GameState {
            board,
            current_turn: Color::White,
            white_can_castle_kingside: true,
            white_can_castle_queenside: true,
            black_can_castle_kingside: true,
            black_can_castle_queenside: true,
            en_passant_target: None,
            halfmove_clock: 0,
            fullmove_number: 1,
            promotion_pending: None,
            position_history: HashMap::new(),
            current_hash: 0,
            move_cache: HashMap::new(),
            game_over: false,
            keys: ZobristKeys::new(),
        };
        state.current_hash = state.calculate_zobrist_hash();
        state.position_history.insert(state.current_hash, 1);
        proof {
            assert(state.position_history@ =~= map![state.current_hash => 1u32]);
            lemma_initial_sound(state);
        }
        state
    }

    /// Replaces the pending pawn by a piece of `piece_type` (not a king, not a pawn) and hands
    /// the move to the other side; returns false, changing nothing, when no promotion is
    /// pending or the choice is a king or a pawn.
    pub fn promote_pawn(&mut self, piece_type: PieceType) -> (r: bool)
        requires
            old(self).wf(),
        ensures
            final(self).wf(),
            final(self).current_hash == position_hash(*final(self)),
            r == (old(self).promotion_pending is Some && piece_type != PieceType::King && piece_type
                != PieceType::Pawn),
            !r ==> *final(self) == *old(self),
            r ==> promoted(*old(self), *final(self), piece_type),
            sound(*old(self)) ==> sound(*final(self)),
    {
        let promotion = match self.promotion_pending {
            Some(p) => p,
            None => return false,
        };
        if piece_type == PieceType::King || piece_type == PieceType::Pawn {
            return false;
        }
        let (rank, file) = promotion.position;
        proof {
            let b1 = self.board;
            let v = Some(Piece { piece_type, color: promotion.color, has_moved: false });
            let b2 = set_square(b1, rank as int, file as int, v);
            lemma_set_square(b1, rank as int, file as int, v);
            assert(same_colors(b1, b2));
            assert forall|i: int, j: int| #[trigger] king_at(b1, i, j, Color::White) == king_at(b2, i, j, Color::White) by {}
            assert forall|i: int, j: int| #[trigger] king_at(b1, i, j, Color::Black) == king_at(b2, i, j, Color::Black) by {}
            lemma_one_king_same(b1, b2, Color::White);
            lemma_one_king_same(b1, b2, Color::Black);
            lemma_check_same(b1, b2, promotion.color);
        }
        self.clear_move_cache();
        self.promotion_pending = None;
        self.put(rank, file, Some(Piece::new(piece_type, promotion.color)));
        self.switch_turn();
        self.update_position_history();
        true
    }

    pub fn is_in_check(&self, color: Color) -> (r: bool)
        ensures
            r == in_check(self.board, color),
    {
        board_in_check(&self.board, color)
    }
}

fn copy_moves(v: &Vec<Move>) -> (r: Vec<Move>)
    ensures
        r@ == v@,
{
    let mut r: Vec<Move> = Vec::new();
    let mut i: usize = 0;
    while i < v.len()
        invariant
            i <= v@.len(),
            r@ == v@.subrange(0, i as int),
        decreases v@.len() - i,
    {
        r.push(v[i]);
        i = i + 1;
        assert(r@ =~= v@.subrange(0, i as int));
    }
    assert(r@ =~= v@);
    r
}

pub open spec fn shade_of(shade: Option<usize>) -> Option<int> {
    match shade {
        Some(x) => Some(x as int),
        None => None,
    }
}

fn count_matching(board: &Board, t: Option<PieceType>, c: Option<Color>, shade: Option<usize>) -> (n: usize)
    requires
        match shade {
            Some(x) => x < 2,
            None => true,
        },
    ensures
        n == count_pieces(*board, 8, t, c, shade_of(shade)),
{
    let ghost sh = shade_of(shade);
    let mut n: usize = 0;
    let mut r: usize = 0;
    while r < 8
        invariant
            r <= 8,
            sh == shade_of(shade),
            n == count_pieces(*board, r as int, t, c, sh),
            n <= r * 8,
        decreases 8 - r,
    {
        let mut row: usize = 0;
        let mut f: usize = 0;
        while f < 8
            invariant
                r < 8,
                f <= 8,
                sh == shade_of(shade),
                row == count_rank(*board, r as int, f as int, t, c, sh),
                row <= f,
            decreases 8 - f,
        {
            let hit = match board[r][f] {
                Some(p) => {
                    let kind_ok = match t {
                        Some(kind) => p.piece_type == kind,
                        None => true,
                    };
                    let color_ok = match c {
                        Some(color) => p.color == color,
                        None => true,
                    };
                    let shade_ok = match shade {
                        Some(x) => (r + f) % 2 == x,
                        None => true,
                    };
                    kind_ok && color_ok && shade_ok
                },
                None => false,
            };
            if hit {
                row = row + 1;
            }
            f = f + 1;
        }
        n = n + row;
        r = r + 1;
    }
    n
}

impl GameState {
    /// Appends every legal move from (fr, ff), destinations in rank-major order.
    fn collect_from(&self, fr: usize, ff: usize, moves: &mut Vec<Move>)
        requires
            in_bounds(fr as int, ff as int),
            old(moves)@.no_duplicates(),
            forall|m: Move| #[trigger] old(moves)@.contains(m) ==> m.0 != (fr, ff),
        ensures
            final(moves)@.no_duplicates(),
            forall|m: Move|
                #![trigger final(moves)@.contains(m)]
                final(moves)@.contains(m) <==> (old(moves)@.contains(m) || (m.0 == (fr, ff)
                    && legal_move(*self, fr as int, ff as int, m.1.0 as int, m.1.1 as int))),
    {
        let mut tr: usize = 0;
        while tr < 8
            invariant
                tr <= 8,
                in_bounds(fr as int, ff as int),
                moves@.no_duplicates(),
                forall|m: Move| #[trigger] old(moves)@.contains(m) ==> m.0 != (fr, ff),
                forall|m: Move|
                    #![trigger moves@.contains(m)]
                    moves@.contains(m) <==> (old(moves)@.contains(m) || (m.0 == (fr, ff) && m.1.0
                        < tr && legal_move(*self, fr as int, ff as int, m.1.0 as int, m.1.1 as int))),
            decreases 8 - tr,
        {
            let mut tf: usize = 0;
            while tf < 8
                invariant
                    tr < 8,
                    tf <= 8,
                    in_bounds(fr as int, ff as int),
                    moves@.no_duplicates(),
                    forall|m: Move| #[trigger] old(moves)@.contains(m) ==> m.0 != (fr, ff),
                    forall|m: Move|
                        #![trigger moves@.contains(m)]
                        moves@.contains(m) <==> (old(moves)@.contains(m) || (m.0 == (fr, ff) && (
                        m.1.0 < tr || (m.1.0 == tr && m.1.1 < tf)) && legal_move(
                            *self,
                            fr as int,
                            ff as int,
                            m.1.0 as int,
                            m.1.1 as int,
                        ))),
                decreases 8 - tf,
            {
                if self.is_legal((fr, ff), (tr, tf)) {
                    let ghost before = moves@;
                    assert(!before.contains(((fr, ff), (tr, tf))));
                    moves.push(((fr, ff), (tr, tf)));
                    proof {
                        crate::piece::lemma_push_contains(before, ((fr, ff), (tr, tf)));
                    }
                }
                tf = tf + 1;
            }
            tr = tr + 1;
        }
    }

    /// Every legal move of the side to move, origins and then destinations in rank-major order.
    fn compute_legal_moves(&self) -> (moves: Vec<Move>)
        ensures
            legal_list(*self, moves@),
            moves@.no_duplicates(),
    {
        let mut moves: Vec<Move> = Vec::new();
        let mut fr: usize = 0;
        while fr < 8
            invariant
                fr <= 8,
                moves@.no_duplicates(),
                forall|m: Move|
                    #![trigger moves@.contains(m)]
                    moves@.contains(m) <==> (m.0.0 < fr && legal_move(
                        *self,
                        m.0.0 as int,
                        m.0.1 as int,
                        m.1.0 as int,
                        m.1.1 as int,
                    )),
            decreases 8 - fr,
        {
            let mut ff: usize = 0;
            while ff < 8
                invariant
                    fr < 8,
                    ff <= 8,
                    moves@.no_duplicates(),
                    forall|m: Move|
                        #![trigger moves@.contains(m)]
                        moves@.contains(m) <==> ((m.0.0 < fr || (m.0.0 == fr && m.0.1 < ff))
                            && legal_move(
                            *self,
                            m.0.0 as int,
                            m.0.1 as int,
                            m.1.0 as int,
                            m.1.1 as int,
                        )),
                decreases 8 - ff,
            {
                self.collect_from(fr, ff, &mut moves);
                ff = ff + 1;
            }
            fr = fr + 1;
        }
        moves
    }

    /// The legal moves of the side to move; the list is cached under the position hash, and
    /// a cached list is returned as it stands.
    pub fn get_all_legal_moves(&mut self) -> (moves: Vec<Move>)
        requires
            old(self).wf(),
        ensures
            final(self).wf(),
            answered(*old(self), *final(self), moves@),
    {
        let h = self.current_hash;
        match self.move_cache.get(&h) {
            Some(cached) => {
                let moves = copy_moves(cached);
                proof {
                    assert(self.move_cache@.dom() =~= set![h]);
                }
                return moves;
            },
            None => {},
        }
        let moves = self.compute_legal_moves();
        let stored = copy_moves(&moves);
        self.move_cache.insert(h, stored);
        proof {
            assert(self.move_cache@.dom() =~= set![h]);
        }
        moves
    }

    fn has_legal_moves(&self) -> (r: bool)
        ensures
            r == has_any_legal(*self),
    {
        let moves = self.compute_legal_moves();
        proof {
            if has_any_legal(*self) {
                let (fr, ff, tr, tf) = choose|fr: int, ff: int, tr: int, tf: int|
                    #[trigger] legal_move(*self, fr, ff, tr, tf);
                let m: Move = ((fr as usize, ff as usize), (tr as usize, tf as usize));
                assert(moves@.contains(m));
            }
            if moves@.len() > 0 {
                let m = moves@[0];
                assert(moves@.contains(m));
                assert(legal_move(*self, m.0.0 as int, m.0.1 as int, m.1.0 as int, m.1.1 as int));
            }
        }
        moves.len() > 0
    }

    /// The side to move is in check and has no legal move.
    pub fn is_checkmate(&self) -> (r: bool)
        ensures
            r == (in_check(self.board, self.current_turn) && !has_any_legal(*self)),
    {
        if !self.is_in_check(self.current_turn) {
            return false;
        }
        !self.has_legal_moves()
    }

    /// The side to move is not in check and has no legal move.
    pub fn is_stalemate(&self) -> (r: bool)
        ensures
            r == stalemate(*self),
    {
        if self.is_in_check(self.current_turn) {
            return false;
        }
        !self.has_legal_moves()
    }

    /// The current position hash has been reached at least three times.
    pub fn is_threefold_repetition(&self) -> (r: bool)
        ensures
            r == threefold(*self),
    {
        match self.position_history.get(&self.current_hash) {
            Some(count) => *count >= 3,
            None => false,
        }
    }

    pub fn is_fifty_move_rule(&self) -> (r: bool)
        ensures
            r == (self.halfmove_clock >= 100),
    {
        self.halfmove_clock >= 100
    }

    pub fn is_insufficient_material(&self) -> (r: bool)
        ensures
            r == insufficient_material(self.board),
    {
        let b = &self.board;
        let total = count_matching(b, None, None, None);
        if total == 2 {
            return true;
        }
        if total == 3 {
            return count_matching(b, Some(PieceType::Bishop), None, None) == 1 || count_matching(
                b,
                Some(PieceType::Knight),
                None,
                None,
            ) == 1;
        }
        if total == 4 {
            let white = count_matching(b, Some(PieceType::Bishop), Some(Color::White), None);
            let black = count_matching(b, Some(PieceType::Bishop), Some(Color::Black), None);
            if white == 1 && black == 1 {
                let w0 = count_matching(b, Some(PieceType::Bishop), Some(Color::White), Some(0));
                let b0 = count_matching(b, Some(PieceType::Bishop), Some(Color::Black), Some(0));
                let w1 = count_matching(b, Some(PieceType::Bishop), Some(Color::White), Some(1));
                let b1 = count_matching(b, Some(PieceType::Bishop), Some(Color::Black), Some(1));
                return (w0 == 1 && b0 == 1) || (w1 == 1 && b1 == 1);
            }
        }
        false
    }

    pub fn is_draw(&self) -> (r: bool)
        ensures
            r == draw(*self),
    {
        self.is_stalemate() || self.is_threefold_repetition() || self.is_fifty_move_rule()
            || self.is_insufficient_material()
    }

    /// The game has been ended (by resignation, agreement or forfeit), or, with no promotion
    /// pending, the position is checkmate or a draw.
    pub fn is_game_over(&self) -> (r: bool)
        ensures
            r == (self.game_over || (self.promotion_pending is None && terminal(*self))),
    {
        if self.game_over {
            return true;
        }
        if self.promotion_pending.is_some() {
            return false;
        }
        self.is_checkmate() || self.is_draw()
    }
}

/// Two legal-move queries with no mutation between them return the same list, and the
/// second leaves the cache as the first left it.
pub proof fn lemma_repeated_query(
    s0: GameState,
    s1: GameState,
    first: Seq<Move>,
    s2: GameState,
    second: Seq<Move>,
)
    requires
        answered(s0, s1, first),
        answered(s1, s2, second),
    ensures
        second == first,
        s2.move_cache@.dom() == s1.move_cache@.dom(),
        s2.move_cache@[s2.current_hash]@ == s1.move_cache@[s1.current_hash]@,
{
    assert(s1.move_cache@.contains_key(s1.current_hash));
}

// ---------------------------------------------------------------------------
// One king per color
// ---------------------------------------------------------------------------

/// Exactly one king of color `c` stands on the board.
pub open spec fn one_king(b: Board, c: Color) -> bool {
    exists|r: int, f: int|
        #[trigger] king_at(b, r, f, c) && forall|i: int, j: int| #[trigger]
            king_at(b, i, j, c) ==> i == r && j == f
}

/// The color that moved last: the side to move while its promotion is pending, else the other.
pub open spec fn last_mover(s: GameState) -> Color {
    if s.promotion_pending is Some {
        s.current_turn
    } else {
        s.current_turn.other()
    }
}

/// Each color has exactly one king, and the side that moved last is not in check.
pub open spec fn sound(s: GameState) -> bool {
    &&& one_king(s.board, Color::White)
    &&& one_king(s.board, Color::Black)
    &&& !in_check(s.board, last_mover(s))
}

/// The two boards hold pieces on the same squares, of the same colors.
pub open spec fn same_colors(b1: Board, b2: Board) -> bool {
    forall|i: int, j: int|
        in_bounds(i, j) ==> ((#[trigger] b1[i][j]) is Some == b2[i][j] is Some) && (b1[i][j] is Some
            ==> b1[i][j]->Some_0.color == b2[i][j]->Some_0.color)
}

proof fn lemma_slides_same(b1: Board, b2: Board, c: Color, r: int, f: int, dr: int, df: int, tr: int, tf: int)
    requires
        same_colors(b1, b2),
    ensures
        crate::piece::slides(b1, c, r, f, dr, df, tr, tf) == crate::piece::slides(b2, c, r, f, dr, df, tr, tf),
{
    assert forall|k: int| crate::piece::ray_hit(b1, c, r, f, dr, df, k) == #[trigger] crate::piece::ray_hit(b2, c, r, f, dr, df, k) by {
        if crate::piece::clear_upto(b1, r, f, dr, df, k) {
            assert forall|j: int| 1 <= j < k implies #[trigger] is_empty(b2, crate::piece::line(r, dr, j), crate::piece::line(f, df, j)) by {
                assert(is_empty(b1, crate::piece::line(r, dr, j), crate::piece::line(f, df, j)));
            }
        }
        if crate::piece::clear_upto(b2, r, f, dr, df, k) {
            assert forall|j: int| 1 <= j < k implies #[trigger] is_empty(b1, crate::piece::line(r, dr, j), crate::piece::line(f, df, j)) by {
                assert(is_empty(b2, crate::piece::line(r, dr, j), crate::piece::line(f, df, j)));
            }
        }
    }
    if crate::piece::slides(b1, c, r, f, dr, df, tr, tf) {
        let k = choose|k: int| #[trigger] crate::piece::ray_hit(b1, c, r, f, dr, df, k) && tr == crate::piece::line(r, dr, k) && tf == crate::piece::line(f, df, k);
        assert(crate::piece::ray_hit(b2, c, r, f, dr, df, k));
    }
    if crate::piece::slides(b2, c, r, f, dr, df, tr, tf) {
        let k = choose|k: int| #[trigger] crate::piece::ray_hit(b2, c, r, f, dr, df, k) && tr == crate::piece::line(r, dr, k) && tf == crate::piece::line(f, df, k);
        assert(crate::piece::ray_hit(b1, c, r, f, dr, df, k));
    }
}

/// Onto an occupied square, what a piece reaches depends only on where pieces stand and
/// their colors.
proof fn lemma_reach_same(p: Piece, b1: Board, b2: Board, r: int, f: int, tr: int, tf: int)
    requires
        same_colors(b1, b2),
        in_bounds(tr, tf),
        b1[tr][tf] is Some,
    ensures
        reaches(p, b1, r, f, tr, tf) == reaches(p, b2, r, f, tr, tf),
{
    let c = p.color;
    lemma_slides_same(b1, b2, c, r, f, -1, -1, tr, tf);
    lemma_slides_same(b1, b2, c, r, f, -1, 1, tr, tf);
    lemma_slides_same(b1, b2, c, r, f, 1, -1, tr, tf);
    lemma_slides_same(b1, b2, c, r, f, 1, 1, tr, tf);
    lemma_slides_same(b1, b2, c, r, f, -1, 0, tr, tf);
    lemma_slides_same(b1, b2, c, r, f, 0, 1, tr, tf);
    lemma_slides_same(b1, b2, c, r, f, 1, 0, tr, tf);
    lemma_slides_same(b1, b2, c, r, f, 0, -1, tr, tf);
    assert(b2[tr][tf] is Some);
}

/// Changing only pieces of color `c` other than its kings, on squares that stay occupied by
/// color `c`, does not change whether `c` is in check.
proof fn lemma_check_same(b1: Board, b2: Board, c: Color)
    requires
        same_colors(b1, b2),
        forall|i: int, j: int| king_at(b1, i, j, c) == #[trigger] king_at(b2, i, j, c),
        forall|i: int, j: int|
            in_bounds(i, j) && (#[trigger] b1[i][j]) is Some && b1[i][j]->Some_0.color != c ==> b2[i][j] == b1[i][j],
    ensures
        in_check(b1, c) == in_check(b2, c),
{
    reveal(in_check);
    assert forall|r: int, f: int| #[trigger] first_king(b1, c, r, f) implies first_king(b2, c, r, f) && (attacked(b1, r, f, c) == attacked(b2, r, f, c)) by {
        assert(king_at(b1, r, f, c));
        assert forall|i: int, j: int| #[trigger] king_at(b2, i, j, c) implies !before(i, j, r, f) by {
            assert(king_at(b1, i, j, c));
        }
        if attacked(b1, r, f, c) {
            let (sr, sf) = choose|sr: int, sf: int| #[trigger] attacker(b1, sr, sf, r, f, c);
            lemma_reach_same(b1[sr][sf]->Some_0, b1, b2, sr, sf, r, f);
            assert(attacker(b2, sr, sf, r, f, c));
        }
        if attacked(b2, r, f, c) {
            let (sr, sf) = choose|sr: int, sf: int| #[trigger] attacker(b2, sr, sf, r, f, c);
            assert(b1[sr][sf] is Some);
            lemma_reach_same(b1[sr][sf]->Some_0, b1, b2, sr, sf, r, f);
            assert(attacker(b1, sr, sf, r, f, c));
        }
    }
    assert forall|r: int, f: int| first_king(b2, c, r, f) implies #[trigger] first_king(b1, c, r, f) by {
        assert(king_at(b2, r, f, c));
        assert forall|i: int, j: int| #[trigger] king_at(b1, i, j, c) implies !before(i, j, r, f) by {
            assert(king_at(b2, i, j, c));
        }
    }
    if in_check(b1, c) {
        let (r, f) = choose|r: int, f: int| #[trigger] first_king(b1, c, r, f) && attacked(b1, r, f, c);
        assert(first_king(b2, c, r, f) && attacked(b2, r, f, c));
    }
    if in_check(b2, c) {
        let (r, f) = choose|r: int, f: int| #[trigger] first_king(b2, c, r, f) && attacked(b2, r, f, c);
        assert(first_king(b1, c, r, f));
    }
}

proof fn lemma_one_king_same(b1: Board, b2: Board, c: Color)
    requires
        forall|i: int, j: int| king_at(b1, i, j, c) == #[trigger] king_at(b2, i, j, c),
    ensures
        one_king(b1, c) == one_king(b2, c),
{
    if one_king(b1, c) {
        let (r, f) = choose|r: int, f: int|
            #[trigger] king_at(b1, r, f, c) && forall|i: int, j: int| #[trigger]
                king_at(b1, i, j, c) ==> i == r && j == f;
        assert(king_at(b2, r, f, c));
        assert forall|i: int, j: int| #[trigger] king_at(b2, i, j, c) implies i == r && j == f by {
            assert(king_at(b1, i, j, c));
        }
    }
    if one_king(b2, c) {
        let (r, f) = choose|r: int, f: int|
            #[trigger] king_at(b2, r, f, c) && forall|i: int, j: int| #[trigger]
                king_at(b2, i, j, c) ==> i == r && j == f;
        assert(king_at(b1, r, f, c));
        assert forall|i: int, j: int| #[trigger] king_at(b1, i, j, c) implies i == r && j == f by {
            assert(king_at(b2, i, j, c));
        }
    }
}

/// What a reachable destination tells of the board.
proof fn lemma_reaches_facts(p: Piece, b: Board, r: int, f: int, tr: int, tf: int)
    requires
        in_bounds(r, f),
        reaches(p, b, r, f, tr, tf),
    ensures
        in_bounds(tr, tf),
        crate::piece::open_for(b, tr, tf, p.color),
        !(tr == r && tf == f),
        (p.piece_type == PieceType::Pawn && f != tf && b[tr][tf] is None) ==> crate::piece::enemy_pawn_at(b, r, tf, p.color),
        (p.piece_type == PieceType::King && tr == r && (tf == f + 2 || tf == f - 2)) ==> crate::piece::castle_reaches(p, b, r, f, tr, tf),
{
    let c = p.color;
    if p.piece_type == PieceType::Bishop || p.piece_type == PieceType::Rook || p.piece_type == PieceType::Queen {
        let dirs = seq![(-1int, -1int), (-1, 1), (1, -1), (1, 1), (-1, 0), (0, 1), (1, 0), (0, -1)];
        assert(exists|d: int| 0 <= d < 8 && crate::piece::slides(b, c, r, f, dirs[d].0, dirs[d].1, tr, tf));
        let d = choose|d: int| 0 <= d < 8 && crate::piece::slides(b, c, r, f, dirs[d].0, dirs[d].1, tr, tf);
        let (dr, df) = dirs[d];
        let k = choose|k: int| #[trigger] crate::piece::ray_hit(b, c, r, f, dr, df, k) && tr == crate::piece::line(r, dr, k) && tf == crate::piece::line(f, df, k);
    }
}

/// After a legal move in a sound position, each color still has exactly one king.
proof fn lemma_kings_after(s: GameState, fr: int, ff: int, tr: int, tf: int, c: Color)
    requires
        sound(s),
        s.promotion_pending is None,
        legal_move(s, fr, ff, tr, tf),
    ensures
        one_king(board_after(s, fr, ff, tr, tf), c),
{
    let b = s.board;
    let p = piece_on(b, fr, ff);
    let nb = board_after(s, fr, ff, tr, tf);
    let opp = p.color.other();
    lemma_reaches_facts(p, b, fr, ff, tr, tf);
    // the destination holds no king: the opponent's would be in check, against soundness
    assert(!king_at(b, tr, tf, Color::White) && !king_at(b, tr, tf, Color::Black)) by {
        if king_at(b, tr, tf, opp) {
            reveal(in_check);
            let (kr, kf) = choose|r: int, f: int|
                #[trigger] king_at(b, r, f, opp) && forall|i: int, j: int| #[trigger]
                    king_at(b, i, j, opp) ==> i == r && j == f;
            assert(kr == tr && kf == tf);
            assert(first_king(b, opp, tr, tf));
            assert(attacker(b, fr, ff, tr, tf, opp));
            assert(in_check(b, opp));
        }
    }
    let m = Some(moved(p));
    let b1 = set_square(b, tr, tf, m);
    let base = set_square(b1, fr, ff, None);
    lemma_set_square(b, tr, tf, m);
    lemma_set_square(b1, fr, ff, None);
    assert forall|i: int, j: int| in_bounds(i, j) implies #[trigger] king_at(nb, i, j, c) == ((king_at(b, i, j, c) && !(i == fr && j == ff))
        || (i == tr && j == tf && p.piece_type == PieceType::King && p.color == c)) by {
        if is_en_passant(s, fr, ff, tr, tf) {
            lemma_set_square(base, fr, tf, None);
        } else {
            let rf = rook_from(tf > ff);
            if is_castling(p, fr, ff, tr, tf) && base[fr][rf] is Some && piece_on(base, fr, rf).piece_type
                == PieceType::Rook && piece_on(base, fr, rf).color == p.color {
                let rt = rook_to(tf > ff);
                let b2 = set_square(base, fr, rt, Some(moved(piece_on(base, fr, rf))));
                lemma_set_square(base, fr, rt, Some(moved(piece_on(base, fr, rf))));
                lemma_set_square(b2, fr, rf, None);
            }
        }
    }
    let (kr, kf) = choose|r: int, f: int|
        #[trigger] king_at(b, r, f, c) && forall|i: int, j: int| #[trigger] king_at(b, i, j, c) ==> i == r && j == f;
    if p.piece_type == PieceType::King && p.color == c {
        assert(king_at(b, fr, ff, c));
        assert(king_at(nb, tr, tf, c));
        assert forall|i: int, j: int| #[trigger] king_at(nb, i, j, c) implies i == tr && j == tf by {}
    } else {
        assert(king_at(nb, kr, kf, c));
        assert forall|i: int, j: int| #[trigger] king_at(nb, i, j, c) implies i == kr && j == kf by {
            assert(king_at(b, i, j, c));
        }
    }
}

proof fn lemma_far_slide(b: Board, c: Color, r: int, f: int, dr: int, df: int)
    requires
        6 <= r < 8,
        0 <= f < 8,
        crate::piece::unit_dir(dr, df),
        crate::piece::slides(b, c, r, f, dr, df, 0, 4),
    ensures
        f == 4,
{
    let k = choose|k: int| #[trigger] crate::piece::ray_hit(b, c, r, f, dr, df, k) && 0 == crate::piece::line(r, dr, k) && 4 == crate::piece::line(f, df, k);
}

/// The initial position is sound: one king each, and Black (to move second) not in check.
proof fn lemma_initial_sound(s: GameState)
    requires
        forall|r: int, f: int| in_bounds(r, f) ==> #[trigger] s.board[r][f] == initial_square(r, f),
        s.current_turn == Color::White,
        s.promotion_pending is None,
    ensures
        sound(s),
{
    let b = s.board;
    assert(king_at(b, 7, 4, Color::White));
    assert forall|i: int, j: int| #[trigger] king_at(b, i, j, Color::White) implies i == 7 && j == 4 by {}
    assert(king_at(b, 0, 4, Color::Black));
    assert forall|i: int, j: int| #[trigger] king_at(b, i, j, Color::Black) implies i == 0 && j == 4 by {}
    reveal(in_check);
    assert forall|sr: int, sf: int| !#[trigger] attacker(b, sr, sf, 0, 4, Color::Black) by {
        if in_bounds(sr, sf) && b[sr][sf] is Some && b[sr][sf]->Some_0.color != Color::Black {
            let p = b[sr][sf]->Some_0;
            assert(sr == 6 || sr == 7);
            if reaches(p, b, sr, sf, 0, 4) {
                if p.piece_type == PieceType::Bishop || p.piece_type == PieceType::Rook || p.piece_type == PieceType::Queen {
                    if crate::piece::slides(b, p.color, sr, sf, -1, -1, 0, 4) { lemma_far_slide(b, p.color, sr, sf, -1, -1); }
                    if crate::piece::slides(b, p.color, sr, sf, -1, 1, 0, 4) { lemma_far_slide(b, p.color, sr, sf, -1, 1); }
                    if crate::piece::slides(b, p.color, sr, sf, 1, -1, 0, 4) { lemma_far_slide(b, p.color, sr, sf, 1, -1); }
                    if crate::piece::slides(b, p.color, sr, sf, 1, 1, 0, 4) { lemma_far_slide(b, p.color, sr, sf, 1, 1); }
                    if crate::piece::slides(b, p.color, sr, sf, -1, 0, 0, 4) { lemma_far_slide(b, p.color, sr, sf, -1, 0); }
                    if crate::piece::slides(b, p.color, sr, sf, 0, 1, 0, 4) { lemma_far_slide(b, p.color, sr, sf, 0, 1); }
                    if crate::piece::slides(b, p.color, sr, sf, 1, 0, 0, 4) { lemma_far_slide(b, p.color, sr, sf, 1, 0); }
                    if crate::piece::slides(b, p.color, sr, sf, 0, -1, 0, 4) { lemma_far_slide(b, p.color, sr, sf, 0, -1); }
                    assert(sf == 4);
                }
            }
        }
    }
    assert(!in_check(b, Color::Black));
}

} // verus!
