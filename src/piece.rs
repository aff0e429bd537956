use vstd::prelude::*;

verus! {

#[derive(Clone, Copy, PartialEq, Eq, Debug, Hash, Structural)]
pub enum PieceType {
    Pawn,
    Knight,
    Bishop,
    Rook,
    Queen,
    King,
}

#[derive(Clone, Copy, PartialEq, Eq, Debug, Hash, Structural)]
pub enum Color {
    White,
    Black,
}

impl Color {
    pub open spec fn other(self) -> Color {
        match self {
            Color::White => Color::Black,
            Color::Black => Color::White,
        }
    }

    pub fn opposite(&self) -> (r: Color)
        ensures
            r == self.other(),
    {
        match self {
            Color::White => Color::Black,
            Color::Black => Color::White,
        }
    }
}

#[derive(Clone, Copy, PartialEq, Eq, Debug, Structural)]
pub struct Piece {
    pub piece_type: PieceType,
    pub color: Color,
    pub has_moved: bool,
}

/// The grid, indexed `[rank][file]`; rank 0 is Black's back rank, rank 7 White's.
pub type Board = [[Option<Piece>; 8]; 8];

pub open spec fn in_bounds(r: int, f: int) -> bool {
    0 <= r < 8 && 0 <= f < 8
}

pub open spec fn is_empty(b: Board, r: int, f: int) -> bool {
    in_bounds(r, f) && b[r][f] is None
}

pub open spec fn holds_enemy(b: Board, r: int, f: int, c: Color) -> bool {
    in_bounds(r, f) && b[r][f] is Some && b[r][f]->Some_0.color != c
}

/// A square a piece of color `c` may land on: empty, or holding an opposing piece.
pub open spec fn open_for(b: Board, r: int, f: int, c: Color) -> bool {
    is_empty(b, r, f) || holds_enemy(b, r, f, c)
}

pub open spec fn enemy_pawn_at(b: Board, r: int, f: int, c: Color) -> bool {
    holds_enemy(b, r, f, c) && b[r][f]->Some_0.piece_type == PieceType::Pawn
}

pub open spec fn unmoved_rook_at(b: Board, r: int, f: int, c: Color) -> bool {
    in_bounds(r, f) && b[r][f] is Some && b[r][f]->Some_0.piece_type == PieceType::Rook
        && b[r][f]->Some_0.color == c && !b[r][f]->Some_0.has_moved
}

/// The rank step of a pawn of color `c`.
pub open spec fn forward(c: Color) -> int {
    if c == Color::White { -1 } else { 1 }
}

pub open spec fn pawn_start_rank(c: Color) -> int {
    if c == Color::White { 6 } else { 1 }
}

/// The rank a pawn of color `c` stands on when it may capture en passant.
pub open spec fn en_passant_rank(c: Color) -> int {
    if c == Color::White { 3 } else { 4 }
}

pub open spec fn home_rank(c: Color) -> int {
    if c == Color::White { 7 } else { 0 }
}

pub open spec fn promotion_rank(c: Color) -> int {
    if c == Color::White { 0 } else { 7 }
}

/// The coordinate `k` steps from `x` in direction `d` (one of -1, 0, 1).
pub open spec fn line(x: int, d: int, k: int) -> int {
    if d > 0 { x + k } else if d < 0 { x - k } else { x }
}

pub open spec fn unit_dir(dr: int, df: int) -> bool {
    -1 <= dr <= 1 && -1 <= df <= 1 && !(dr == 0 && df == 0)
}

/// Every square strictly between the origin and step `k` of the ray is empty.
pub open spec fn clear_upto(b: Board, r: int, f: int, dr: int, df: int, k: int) -> bool {
    forall|j: int| 1 <= j < k ==> #[trigger] is_empty(b, line(r, dr, j), line(f, df, j))
}

/// Step `k` of the ray from (r, f) is a destination for a sliding piece of color `c`.
pub open spec fn ray_hit(b: Board, c: Color, r: int, f: int, dr: int, df: int, k: int) -> bool {
    &&& 1 <= k
    &&& open_for(b, line(r, dr, k), line(f, df, k), c)
    &&& clear_upto(b, r, f, dr, df, k)
}

pub open spec fn slides(b: Board, c: Color, r: int, f: int, dr: int, df: int, tr: int, tf: int) -> bool {
    exists|k: int|
        #[trigger] ray_hit(b, c, r, f, dr, df, k) && tr == line(r, dr, k) && tf == line(f, df, k)
}

pub open spec fn diagonal_reaches(b: Board, c: Color, r: int, f: int, tr: int, tf: int) -> bool {
    ||| slides(b, c, r, f, -1, -1, tr, tf)
    ||| slides(b, c, r, f, -1, 1, tr, tf)
    ||| slides(b, c, r, f, 1, -1, tr, tf)
    ||| slides(b, c, r, f, 1, 1, tr, tf)
}

pub open spec fn straight_reaches(b: Board, c: Color, r: int, f: int, tr: int, tf: int) -> bool {
    ||| slides(b, c, r, f, -1, 0, tr, tf)
    ||| slides(b, c, r, f, 0, 1, tr, tf)
    ||| slides(b, c, r, f, 1, 0, tr, tf)
    ||| slides(b, c, r, f, 0, -1, tr, tf)
}

pub open spec fn pawn_reaches(p: Piece, b: Board, r: int, f: int, tr: int, tf: int) -> bool {
    let d = forward(p.color);
    ||| tr == r + d && tf == f && is_empty(b, tr, tf)
    ||| tr == r + 2 * d && tf == f && r == pawn_start_rank(p.color) && !p.has_moved
        && is_empty(b, r + d, f) && is_empty(b, tr, tf)
    ||| tr == r + d && (tf == f - 1 || tf == f + 1) && (holds_enemy(b, tr, tf, p.color) || (
    is_empty(b, tr, tf) && r == en_passant_rank(p.color) && enemy_pawn_at(b, r, tf, p.color)))
}

pub open spec fn knight_reaches(c: Color, b: Board, r: int, f: int, tr: int, tf: int) -> bool {
    let dr = tr - r;
    let df = tf - f;
    &&& ((dr == 1 || dr == -1) && (df == 2 || df == -2)) || ((dr == 2 || dr == -2) && (df == 1
        || df == -1))
    &&& open_for(b, tr, tf, c)
}

pub open spec fn king_step_reaches(c: Color, b: Board, r: int, f: int, tr: int, tf: int) -> bool {
    &&& unit_dir(tr - r, tf - f)
    &&& open_for(b, tr, tf, c)
}

/// The castling destinations of an unmoved king on its home square: the
/// corner rook is unmoved and every square between them is empty.
pub open spec fn castle_reaches(p: Piece, b: Board, r: int, f: int, tr: int, tf: int) -> bool {
    &&& !p.has_moved
    &&& r == home_rank(p.color)
    &&& f == 4
    &&& tr == r
    &&& {
        ||| tf == 6 && is_empty(b, r, 5) && is_empty(b, r, 6) && unmoved_rook_at(b, r, 7, p.color)
        ||| tf == 2 && is_empty(b, r, 1) && is_empty(b, r, 2) && is_empty(b, r, 3)
            && unmoved_rook_at(b, r, 0, p.color)
    }
}

/// The geometric candidates of piece `p` standing on (r, f): no check-safety.
pub open spec fn reaches(p: Piece, b: Board, r: int, f: int, tr: int, tf: int) -> bool {
    match p.piece_type {
        PieceType::Pawn => pawn_reaches(p, b, r, f, tr, tf),
        PieceType::Knight => knight_reaches(p.color, b, r, f, tr, tf),
        PieceType::Bishop => diagonal_reaches(b, p.color, r, f, tr, tf),
        PieceType::Rook => straight_reaches(b, p.color, r, f, tr, tf),
        PieceType::Queen => diagonal_reaches(b, p.color, r, f, tr, tf) || straight_reaches(
            b,
            p.color,
            r,
            f,
            tr,
            tf,
        ),
        PieceType::King => king_step_reaches(p.color, b, r, f, tr, tf) || castle_reaches(
            p,
            b,
            r,
            f,
            tr,
            tf,
        ),
    }
}

pub open spec fn symbol(t: PieceType, c: Color) -> char {
    match (t, c) {
        (PieceType::Pawn, Color::White) => '\u{2659}',
        (PieceType::Knight, Color::White) => '\u{2658}',
        (PieceType::Bishop, Color::White) => '\u{2657}',
        (PieceType::Rook, Color::White) => '\u{2656}',
        (PieceType::Queen, Color::White) => '\u{2655}',
        (PieceType::King, Color::White) => '\u{2654}',
        (PieceType::Pawn, Color::Black) => '\u{265F}',
        (PieceType::Knight, Color::Black) => '\u{265E}',
        (PieceType::Bishop, Color::Black) => '\u{265D}',
        (PieceType::Rook, Color::Black) => '\u{265C}',
        (PieceType::Queen, Color::Black) => '\u{265B}',
        (PieceType::King, Color::Black) => '\u{265A}',
    }
}

pub proof fn lemma_push_contains<T>(s: Seq<T>, x: T)
    ensures
        forall|t: T| #[trigger] s.push(x).contains(t) <==> (s.contains(t) || t == x),
        s.no_duplicates() && !s.contains(x) ==> s.push(x).no_duplicates(),
{
    if s.no_duplicates() && !s.contains(x) {
        assert forall|i: int, j: int| 0 <= i < s.push(x).len() && 0 <= j < s.push(x).len() && i != j implies s.push(x)[i] != s.push(x)[j] by {
            if i == s.len() {
                assert(s.contains(s[j]));
            } else if j == s.len() {
                assert(s.contains(s[i]));
            }
        }
    }
    assert forall|t: T| #[trigger] s.push(x).contains(t) <==> (s.contains(t) || t == x) by {
        if s.contains(t) {
            let i = choose|i: int| 0 <= i < s.len() && s[i] == t;
            assert(s.push(x)[i] == t);
        }
        if t == x {
            assert(s.push(x)[s.len() as int] == t);
        }
        if s.push(x).contains(t) {
            let i = choose|i: int| 0 <= i < s.push(x).len() && s.push(x)[i] == t;
            if i < s.len() {
                assert(s[i] == t);
            }
        }
    }
}

impl Piece {
    pub fn new(piece_type: PieceType, color: Color) -> (r: Piece)
        ensures
            r == (Piece { piece_type, color, has_moved: false }),
    {
        Piece { piece_type, color, has_moved: false }
    }

    /// Adds (r + dr, f + df) when it lies on the board and is empty or holds an opposing piece.
    fn add_step(
        &self,
        rank: usize,
        file: usize,
        dr: isize,
        df: isize,
        board: &Board,
        moves: &mut Vec<(usize, usize)>,
    )
        requires
            old(moves)@.no_duplicates(),
            forall|t: (usize, usize)|
                #![trigger old(moves)@.contains(t)]
                old(moves)@.contains(t) ==> !(t.0 == rank + dr && t.1 == file + df && open_for(*board, t.0 as int, t.1 as int, self.color)),
            in_bounds(rank as int, file as int),
            -2 <= dr <= 2,
            -2 <= df <= 2,
        ensures
            final(moves)@.no_duplicates(),
            forall|t: (usize, usize)|
                #![trigger final(moves)@.contains(t)]
                final(moves)@.contains(t) <==> (old(moves)@.contains(t) || (t.0 == rank + dr && t.1
                    == file + df && open_for(*board, t.0 as int, t.1 as int, self.color))),
    {
        let nr = rank as isize + dr;
        let nf = file as isize + df;
        if 0 <= nr && nr < 8 && 0 <= nf && nf < 8 {
            let tr = nr as usize;
            let tf = nf as usize;
            let open = match board[tr][tf] {
                Some(piece) => piece.color != self.color,
                None => true,
            };
            if open {
                moves.push((tr, tf));
                proof {
                    lemma_push_contains(old(moves)@, (tr, tf));
                }
            }
        }
    }


    /// Casts the ray from (rank, file) in direction (dr, df) until it leaves the board or
    /// meets a piece; the blocking square is added only when it holds an opposing piece.
    fn add_ray(
        &self,
        rank: usize,
        file: usize,
        dr: isize,
        df: isize,
        board: &Board,
        moves: &mut Vec<(usize, usize)>,
    )
        requires
            old(moves)@.no_duplicates(),
            forall|t: (usize, usize)|
                #![trigger old(moves)@.contains(t)]
                old(moves)@.contains(t) ==> !(slides(*board, self.color, rank as int, file as int, dr as int, df as int, t.0 as int, t.1 as int)),
            in_bounds(rank as int, file as int),
            unit_dir(dr as int, df as int),
        ensures
            final(moves)@.no_duplicates(),
            forall|t: (usize, usize)|
                #![trigger final(moves)@.contains(t)]
                final(moves)@.contains(t) <==> (old(moves)@.contains(t) || slides(
                    *board,
                    self.color,
                    rank as int,
                    file as int,
                    dr as int,
                    df as int,
                    t.0 as int,
                    t.1 as int,
                )),
    {
        let ghost r = rank as int;
        let ghost f = file as int;
        let ghost c = self.color;
        let mut k: usize = 1;
        let mut nr: isize = rank as isize + dr;
        let mut nf: isize = file as isize + df;
        loop
            invariant
                1 <= k <= 8,
                in_bounds(r, f),
                unit_dir(dr as int, df as int),
                r == rank,
                f == file,
                c == self.color,
                nr == line(r, dr as int, k as int),
                nf == line(f, df as int, k as int),
                clear_upto(*board, r, f, dr as int, df as int, k as int),
                moves@.no_duplicates(),
                forall|t: (usize, usize)|
                    #![trigger old(moves)@.contains(t)]
                    old(moves)@.contains(t) ==> !slides(*board, c, r, f, dr as int, df as int, t.0 as int, t.1 as int),
                forall|t: (usize, usize)|
                    #![trigger moves@.contains(t)]
                    moves@.contains(t) <==> (old(moves)@.contains(t) || exists|j: int|
                        1 <= j < k && t.0 == line(r, dr as int, j) && t.1 == line(f, df as int, j)),
            decreases 8 - k,
        {
            if nr < 0 || nr >= 8 || nf < 0 || nf >= 8 {
                proof {
                    assert forall|t: (usize, usize)|
                        #![trigger moves@.contains(t)]
                        moves@.contains(t) <==> (old(moves)@.contains(t) || slides(
                            *board,
                            c,
                            r,
                            f,
                            dr as int,
                            df as int,
                            t.0 as int,
                            t.1 as int,
                        )) by {
                        if exists|j: int|
                            1 <= j < k && t.0 == line(r, dr as int, j) && t.1 == line(
                                f,
                                df as int,
                                j,
                            ) {
                            let j = choose|j: int|
                                1 <= j < k && t.0 == line(r, dr as int, j) && t.1 == line(
                                    f,
                                    df as int,
                                    j,
                                );
                            assert(is_empty(*board, line(r, dr as int, j), line(f, df as int, j)));
                            assert(ray_hit(*board, c, r, f, dr as int, df as int, j));
                        }
                        if slides(*board, c, r, f, dr as int, df as int, t.0 as int, t.1 as int) {
                            let j = choose|j: int|
                                #[trigger] ray_hit(*board, c, r, f, dr as int, df as int, j)
                                    && t.0 == line(r, dr as int, j) && t.1 == line(f, df as int, j);
                            assert(1 <= j < k);
                        }
                    }
                }
                return;
            }
            let tr = nr as usize;
            let tf = nf as usize;
            let ghost before = moves@;
            match board[tr][tf] {
                Some(piece) => {
                    if piece.color != self.color {
                        proof {
                        assert(!before.contains((tr, tf))) by {
                            assert(ray_hit(*board, c, r, f, dr as int, df as int, k as int));
                            if exists|j: int|
                                1 <= j < k && tr == line(r, dr as int, j) && tf == line(f, df as int, j) {
                                let j = choose|j: int|
                                    1 <= j < k && tr == line(r, dr as int, j) && tf == line(f, df as int, j);
                            }
                            if before.contains((tr, tf)) {
                                assert(old(moves)@.contains((tr, tf)));
                            }
                        }
                        }
                        moves.push((tr, tf));
                        proof {
                            lemma_push_contains(before, (tr, tf));
                        }
                    }
                    proof {
                        assert forall|t: (usize, usize)|
                            #![trigger moves@.contains(t)]
                            moves@.contains(t) <==> (old(moves)@.contains(t) || slides(
                                *board,
                                c,
                                r,
                                f,
                                dr as int,
                                df as int,
                                t.0 as int,
                                t.1 as int,
                            )) by {
                            if exists|j: int|
                                1 <= j < k && t.0 == line(r, dr as int, j) && t.1 == line(
                                    f,
                                    df as int,
                                    j,
                                ) {
                                let j = choose|j: int|
                                    1 <= j < k && t.0 == line(r, dr as int, j) && t.1 == line(
                                        f,
                                        df as int,
                                        j,
                                    );
                                assert(is_empty(*board, line(r, dr as int, j), line(f, df as int, j)));
                                assert(ray_hit(*board, c, r, f, dr as int, df as int, j));
                            }
                            if t == (tr, tf) && piece.color != c {
                                assert(ray_hit(*board, c, r, f, dr as int, df as int, k as int));
                            }
                            if slides(*board, c, r, f, dr as int, df as int, t.0 as int, t.1 as int) {
                                let j = choose|j: int|
                                    #[trigger] ray_hit(*board, c, r, f, dr as int, df as int, j)
                                        && t.0 == line(r, dr as int, j) && t.1 == line(f, df as int, j);
                                if j > k {
                                    assert(is_empty(*board, line(r, dr as int, k as int), line(f, df as int, k as int)));
                                }
                                assert(j <= k);
                                if j < k {
                                    assert(before.contains(t));
                                }
                            }
                        }
                    }
                    return;
                },
                None => {
                    proof {
                        assert(!before.contains((tr, tf))) by {
                            assert(ray_hit(*board, c, r, f, dr as int, df as int, k as int));
                            if exists|j: int|
                                1 <= j < k && tr == line(r, dr as int, j) && tf == line(f, df as int, j) {
                                let j = choose|j: int|
                                    1 <= j < k && tr == line(r, dr as int, j) && tf == line(f, df as int, j);
                            }
                            if before.contains((tr, tf)) {
                                assert(old(moves)@.contains((tr, tf)));
                            }
                        }
                    }
                    moves.push((tr, tf));
                    proof {
                        lemma_push_contains(before, (tr, tf));
                        assert forall|t: (usize, usize)|
                            #![trigger moves@.contains(t)]
                            moves@.contains(t) <==> (old(moves)@.contains(t) || exists|j: int|
                                1 <= j < k + 1 && t.0 == line(r, dr as int, j) && t.1 == line(f, df as int, j)) by {
                            if t == (tr, tf) {
                                assert(1 <= k < k + 1 && t.0 == line(r, dr as int, k as int) && t.1 == line(f, df as int, k as int));
                            }
                            if exists|j: int|
                                1 <= j < k + 1 && t.0 == line(r, dr as int, j) && t.1 == line(f, df as int, j) {
                                let j = choose|j: int|
                                    1 <= j < k + 1 && t.0 == line(r, dr as int, j) && t.1 == line(f, df as int, j);
                                if j < k {
                                    assert(before.contains(t));
                                } else {
                                    assert(t == (tr, tf));
                                }
                            }
                        }
                        assert forall|j: int| 1 <= j < k + 1 implies #[trigger] is_empty(*board, line(r, dr as int, j), line(f, df as int, j)) by {
                            if j < k {
                                assert(is_empty(*board, line(r, dr as int, j), line(f, df as int, j)));
                            }
                        }
                    }
                },
            }
            k = k + 1;
            nr = nr + dr;
            nf = nf + df;
        }
    }

    fn add_diagonal_moves(&self, rank: usize, file: usize, board: &Board, moves: &mut Vec<(usize, usize)>)
        requires
            old(moves)@.no_duplicates(),
            forall|t: (usize, usize)|
                #![trigger old(moves)@.contains(t)]
                old(moves)@.contains(t) ==> !(diagonal_reaches(*board, self.color, rank as int, file as int, t.0 as int, t.1 as int)),
            in_bounds(rank as int, file as int),
        ensures
            final(moves)@.no_duplicates(),
            forall|t: (usize, usize)|
                #![trigger final(moves)@.contains(t)]
                final(moves)@.contains(t) <==> (old(moves)@.contains(t) || diagonal_reaches(
                    *board,
                    self.color,
                    rank as int,
                    file as int,
                    t.0 as int,
                    t.1 as int,
                )),
    {
        self.add_ray(rank, file, -1, -1, board, moves);
        self.add_ray(rank, file, -1, 1, board, moves);
        self.add_ray(rank, file, 1, -1, board, moves);
        self.add_ray(rank, file, 1, 1, board, moves);
    }

    fn add_straight_moves(&self, rank: usize, file: usize, board: &Board, moves: &mut Vec<(usize, usize)>)
        requires
            old(moves)@.no_duplicates(),
            forall|t: (usize, usize)|
                #![trigger old(moves)@.contains(t)]
                old(moves)@.contains(t) ==> !(straight_reaches(*board, self.color, rank as int, file as int, t.0 as int, t.1 as int)),
            in_bounds(rank as int, file as int),
        ensures
            final(moves)@.no_duplicates(),
            forall|t: (usize, usize)|
                #![trigger final(moves)@.contains(t)]
                final(moves)@.contains(t) <==> (old(moves)@.contains(t) || straight_reaches(
                    *board,
                    self.color,
                    rank as int,
                    file as int,
                    t.0 as int,
                    t.1 as int,
                )),
    {
        self.add_ray(rank, file, -1, 0, board, moves);
        self.add_ray(rank, file, 0, 1, board, moves);
        self.add_ray(rank, file, 1, 0, board, moves);
        self.add_ray(rank, file, 0, -1, board, moves);
    }

    fn add_knight_moves(&self, rank: usize, file: usize, board: &Board, moves: &mut Vec<(usize, usize)>)
        requires
            old(moves)@.no_duplicates(),
            forall|t: (usize, usize)|
                #![trigger old(moves)@.contains(t)]
                old(moves)@.contains(t) ==> !(knight_reaches(self.color, *board, rank as int, file as int, t.0 as int, t.1 as int)),
            in_bounds(rank as int, file as int),
        ensures
            final(moves)@.no_duplicates(),
            forall|t: (usize, usize)|
                #![trigger final(moves)@.contains(t)]
                final(moves)@.contains(t) <==> (old(moves)@.contains(t) || knight_reaches(
                    self.color,
                    *board,
                    rank as int,
                    file as int,
                    t.0 as int,
                    t.1 as int,
                )),
    {
        self.add_step(rank, file, -2, -1, board, moves);
        self.add_step(rank, file, -2, 1, board, moves);
        self.add_step(rank, file, -1, -2, board, moves);
        self.add_step(rank, file, -1, 2, board, moves);
        self.add_step(rank, file, 1, -2, board, moves);
        self.add_step(rank, file, 1, 2, board, moves);
        self.add_step(rank, file, 2, -1, board, moves);
        self.add_step(rank, file, 2, 1, board, moves);
    }

    fn add_king_steps(&self, rank: usize, file: usize, board: &Board, moves: &mut Vec<(usize, usize)>)
        requires
            old(moves)@.no_duplicates(),
            forall|t: (usize, usize)|
                #![trigger old(moves)@.contains(t)]
                old(moves)@.contains(t) ==> !(king_step_reaches(self.color, *board, rank as int, file as int, t.0 as int, t.1 as int)),
            in_bounds(rank as int, file as int),
        ensures
            final(moves)@.no_duplicates(),
            forall|t: (usize, usize)|
                #![trigger final(moves)@.contains(t)]
                final(moves)@.contains(t) <==> (old(moves)@.contains(t) || king_step_reaches(
                    self.color,
                    *board,
                    rank as int,
                    file as int,
                    t.0 as int,
                    t.1 as int,
                )),
    {
        self.add_step(rank, file, -1, -1, board, moves);
        self.add_step(rank, file, -1, 0, board, moves);
        self.add_step(rank, file, -1, 1, board, moves);
        self.add_step(rank, file, 0, -1, board, moves);
        self.add_step(rank, file, 0, 1, board, moves);
        self.add_step(rank, file, 1, -1, board, moves);
        self.add_step(rank, file, 1, 0, board, moves);
        self.add_step(rank, file, 1, 1, board, moves);
    }

    fn add_castling_moves(&self, rank: usize, file: usize, board: &Board, moves: &mut Vec<(usize, usize)>)
        requires
            old(moves)@.no_duplicates(),
            forall|t: (usize, usize)|
                #![trigger old(moves)@.contains(t)]
                old(moves)@.contains(t) ==> !(castle_reaches(*self, *board, rank as int, file as int, t.0 as int, t.1 as int)),
            in_bounds(rank as int, file as int),
        ensures
            final(moves)@.no_duplicates(),
            forall|t: (usize, usize)|
                #![trigger final(moves)@.contains(t)]
                final(moves)@.contains(t) <==> (old(moves)@.contains(t) || castle_reaches(
                    *self,
                    *board,
                    rank as int,
                    file as int,
                    t.0 as int,
                    t.1 as int,
                )),
    {
        let home: usize = match self.color {
            Color::White => 7,
            Color::Black => 0,
        };
        if self.has_moved || rank != home || file != 4 {
            return;
        }
        let ghost start = moves@;
        let kingside = board[home][5].is_none() && board[home][6].is_none() && match board[home][7] {
            Some(rook) => rook.piece_type == PieceType::Rook && rook.color == self.color && !rook.has_moved,
            None => false,
        };
        if kingside {
            moves.push((home, 6));
            proof {
                lemma_push_contains(start, (home, 6));
            }
        }
        let ghost mid = moves@;
        let queenside = board[home][1].is_none() && board[home][2].is_none() && board[home][3].is_none()
            && match board[home][0] {
            Some(rook) => rook.piece_type == PieceType::Rook && rook.color == self.color && !rook.has_moved,
            None => false,
        };
        if queenside {
            moves.push((home, 2));
            proof {
                lemma_push_contains(mid, (home, 2));
            }
        }
    }

    /// Adds the diagonal step of a pawn toward file `file + side`: onto an opposing piece,
    /// or onto an empty square beside which (same rank) an opposing pawn stands, from the
    /// en-passant rank.
    fn add_pawn_capture(
        &self,
        rank: usize,
        file: usize,
        side: isize,
        board: &Board,
        moves: &mut Vec<(usize, usize)>,
    )
        requires
            old(moves)@.no_duplicates(),
            forall|t: (usize, usize)|
                #![trigger old(moves)@.contains(t)]
                old(moves)@.contains(t) ==> !(t.0 == rank + forward(self.color) && t.1 == file + side && (holds_enemy(*board, t.0 as int, t.1 as int, self.color)
                    || (is_empty(*board, t.0 as int, t.1 as int) && rank == en_passant_rank(self.color) && enemy_pawn_at(*board, rank as int, t.1 as int, self.color)))),
            in_bounds(rank as int, file as int),
            side == -1 || side == 1,
        ensures
            final(moves)@.no_duplicates(),
            forall|t: (usize, usize)|
                #![trigger final(moves)@.contains(t)]
                final(moves)@.contains(t) <==> (old(moves)@.contains(t) || (t.0 == rank + forward(
                    self.color,
                ) && t.1 == file + side && (holds_enemy(*board, t.0 as int, t.1 as int, self.color)
                    || (is_empty(*board, t.0 as int, t.1 as int) && rank == en_passant_rank(
                    self.color,
                ) && enemy_pawn_at(*board, rank as int, t.1 as int, self.color))))),
    {
        let d: isize = match self.color {
            Color::White => -1,
            Color::Black => 1,
        };
        let ep_rank: usize = match self.color {
            Color::White => 3,
            Color::Black => 4,
        };
        let nr = rank as isize + d;
        let nf = file as isize + side;
        if 0 <= nr && nr < 8 && 0 <= nf && nf < 8 {
            let tr = nr as usize;
            let tf = nf as usize;
            let ok = match board[tr][tf] {
                Some(piece) => piece.color != self.color,
                None => rank == ep_rank && match board[rank][tf] {
                    Some(beside) => beside.piece_type == PieceType::Pawn && beside.color != self.color,
                    None => false,
                },
            };
            if ok {
                let ghost before = moves@;
                moves.push((tr, tf));
                proof {
                    lemma_push_contains(before, (tr, tf));
                }
            }
        }
    }

    fn add_pawn_moves(&self, rank: usize, file: usize, board: &Board, moves: &mut Vec<(usize, usize)>)
        requires
            old(moves)@.no_duplicates(),
            forall|t: (usize, usize)|
                #![trigger old(moves)@.contains(t)]
                old(moves)@.contains(t) ==> !(pawn_reaches(*self, *board, rank as int, file as int, t.0 as int, t.1 as int)),
            in_bounds(rank as int, file as int),
        ensures
            final(moves)@.no_duplicates(),
            forall|t: (usize, usize)|
                #![trigger final(moves)@.contains(t)]
                final(moves)@.contains(t) <==> (old(moves)@.contains(t) || pawn_reaches(
                    *self,
                    *board,
                    rank as int,
                    file as int,
                    t.0 as int,
                    t.1 as int,
                )),
    {
        let d: isize = match self.color {
            Color::White => -1,
            Color::Black => 1,
        };
        let start: usize = match self.color {
            Color::White => 6,
            Color::Black => 1,
        };
        let ghost first = moves@;
        let nr = rank as isize + d;
        if 0 <= nr && nr < 8 && board[nr as usize][file].is_none() {
            moves.push((nr as usize, file));
            proof {
                lemma_push_contains(first, (nr as usize, file));
            }
            if rank == start && !self.has_moved {
                let nr2 = rank as isize + 2 * d;
                if 0 <= nr2 && nr2 < 8 && board[nr2 as usize][file].is_none() {
                    let ghost second = moves@;
                    moves.push((nr2 as usize, file));
                    proof {
                        lemma_push_contains(second, (nr2 as usize, file));
                    }
                }
            }
        }
        self.add_pawn_capture(rank, file, -1, board, moves);
        self.add_pawn_capture(rank, file, 1, board, moves);
    }

    /// The geometric destination candidates of this piece standing on `position`:
    /// no check-safety, and no en-passant target, are taken into account.
    pub fn get_possible_moves(&self, position: (usize, usize), board: &Board) -> (moves: Vec<
        (usize, usize),
    >)
        requires
            in_bounds(position.0 as int, position.1 as int),
        ensures
            forall|t: (usize, usize)|
                #![trigger moves@.contains(t)]
                moves@.contains(t) <==> reaches(
                    *self,
                    *board,
                    position.0 as int,
                    position.1 as int,
                    t.0 as int,
                    t.1 as int,
                ),
            moves@.no_duplicates(),
    {
        let (rank, file) = position;
        let mut moves: Vec<(usize, usize)> = Vec::new();
        match self.piece_type {
            PieceType::Pawn => self.add_pawn_moves(rank, file, board, &mut moves),
            PieceType::Knight => self.add_knight_moves(rank, file, board, &mut moves),
            PieceType::Bishop => self.add_diagonal_moves(rank, file, board, &mut moves),
            PieceType::Rook => self.add_straight_moves(rank, file, board, &mut moves),
            PieceType::Queen => {
                self.add_diagonal_moves(rank, file, board, &mut moves);
                self.add_straight_moves(rank, file, board, &mut moves);
            },
            PieceType::King => {
                self.add_king_steps(rank, file, board, &mut moves);
                self.add_castling_moves(rank, file, board, &mut moves);
            },
        }
        moves
    }

    pub fn to_char(&self) -> (r: char)
        ensures
            r == symbol(self.piece_type, self.color),
    {
        match (self.piece_type, self.color) {
            (PieceType::Pawn, Color::White) => '\u{2659}',
            (PieceType::Knight, Color::White) => '\u{2658}',
            (PieceType::Bishop, Color::White) => '\u{2657}',
            (PieceType::Rook, Color::White) => '\u{2656}',
            (PieceType::Queen, Color::White) => '\u{2655}',
            (PieceType::King, Color::White) => '\u{2654}',
            (PieceType::Pawn, Color::Black) => '\u{265F}',
            (PieceType::Knight, Color::Black) => '\u{265E}',
            (PieceType::Bishop, Color::Black) => '\u{265D}',
            (PieceType::Rook, Color::Black) => '\u{265C}',
            (PieceType::Queen, Color::Black) => '\u{265B}',
            (PieceType::King, Color::Black) => '\u{265A}',
        }
    }
}

} // verus!