use vstd::prelude::*;

verus! {

/// The six chess piece kinds.
#[derive(Clone, Copy, Debug, PartialEq, Eq, Structural)]
pub enum PieceType {
    Pawn,
    Knight,
    Bishop,
    Rook,
    Queen,
    King,
}

/// The two sides.
#[derive(Clone, Copy, Debug, PartialEq, Eq, Structural)]
pub enum PieceColor {
    White,
    Black,
}

/// A chess piece: kind and color. Its position lives in the board entry
/// that carries it; kind and color never change once the board is set up.
#[derive(Clone, Copy, Debug, PartialEq, Eq, Structural)]
pub struct ChessPiece {
    pub piece_type: PieceType,
    pub color: PieceColor,
}

/// A piece together with its live position in world units. Squares are
/// 100 units wide; the board is centered on the origin.
#[derive(Clone, Copy, Debug, PartialEq, Eq, Structural)]
pub struct BoardPiece {
    pub piece: ChessPiece,
    pub x: i32,
    pub y: i32,
}

/// Bound on all world coordinates the board works with; keeps every
/// squared distance within `i64`.
pub const COORD_BOUND: i32 = 1_000_000;

/// World x coordinate of the center of the square in the given file.
pub open spec fn square_x_spec(file: int) -> int {
    file * 100 - 350
}

/// World y coordinate of the center of the square in the given rank.
pub open spec fn square_y_spec(rank: int) -> int {
    rank * 100 - 350
}

/// The standard starting occupant of a square: back ranks are Rook,
/// Knight, Bishop, Queen, King, Bishop, Knight, Rook; pawns fill ranks 1
/// and 6; Black sits on ranks 0-1 and White on ranks 6-7.
pub open spec fn initial_piece_spec(rank: int, file: int) -> Option<(PieceType, PieceColor)> {
    if rank == 0 || rank == 7 {
        let color = if rank == 0 {
            PieceColor::Black
        } else {
            PieceColor::White
        };
        if file == 0 || file == 7 {
            Some((PieceType::Rook, color))
        } else if file == 1 || file == 6 {
            Some((PieceType::Knight, color))
        } else if file == 2 || file == 5 {
            Some((PieceType::Bishop, color))
        } else if file == 3 {
            Some((PieceType::Queen, color))
        } else if file == 4 {
            Some((PieceType::King, color))
        } else {
            None
        }
    } else if rank == 1 {
        Some((PieceType::Pawn, PieceColor::Black))
    } else if rank == 6 {
        Some((PieceType::Pawn, PieceColor::White))
    } else {
        None
    }
}

/// Starting occupant of a square, as executable code.
pub fn get_initial_piece(rank: i32, file: i32) -> (r: Option<(PieceType, PieceColor)>)
    ensures
        r == initial_piece_spec(rank as int, file as int),
{
    if rank == 0 || rank == 7 {
        let color = if rank == 0 {
            PieceColor::Black
        } else {
            PieceColor::White
        };
        if file == 0 || file == 7 {
            Some((PieceType::Rook, color))
        } else if file == 1 || file == 6 {
            Some((PieceType::Knight, color))
        } else if file == 2 || file == 5 {
            Some((PieceType::Bishop, color))
        } else if file == 3 {
            Some((PieceType::Queen, color))
        } else if file == 4 {
            Some((PieceType::King, color))
        } else {
            None
        }
    } else if rank == 1 {
        Some((PieceType::Pawn, PieceColor::Black))
    } else if rank == 6 {
        Some((PieceType::Pawn, PieceColor::White))
    } else {
        None
    }
}

/// The starting pieces of the squares with index below `n`, in board scan
/// order (square index = rank * 8 + file), each at its square's center.
pub open spec fn initial_pieces_prefix(n: int) -> Seq<BoardPiece>
    decreases n,
{
    if n <= 0 {
        Seq::empty()
    } else {
        initial_pieces_prefix(n - 1) + (match initial_piece_spec((n - 1) / 8, (n - 1) % 8) {
            Some(pc) => seq![
                BoardPiece {
                    piece: ChessPiece { piece_type: pc.0, color: pc.1 },
                    x: square_x_spec((n - 1) % 8) as i32,
                    y: square_y_spec((n - 1) / 8) as i32,
                },
            ],
            None => Seq::empty(),
        })
    }
}

/// All 32 starting pieces, in board scan order.
pub open spec fn initial_board_pieces() -> Seq<BoardPiece> {
    initial_pieces_prefix(64)
}

/// A piece's coordinates are in range.
pub open spec fn piece_in_bounds(bp: BoardPiece) -> bool {
    -COORD_BOUND <= bp.x <= COORD_BOUND && -COORD_BOUND <= bp.y <= COORD_BOUND
}

/// Squared Euclidean distance between two world points.
pub open spec fn dist2_spec(ax: int, ay: int, bx: int, by: int) -> int {
    (ax - bx) * (ax - bx) + (ay - by) * (ay - by)
}

/// Index of the first piece of `s` (of the prefix below `n`) whose squared
/// distance to (x, y) is minimal; ties go to the earliest index, the
/// board's stable scan order.
pub open spec fn first_min_upto(s: Seq<BoardPiece>, x: int, y: int, n: int) -> int
    decreases n,
{
    if n <= 1 {
        0
    } else {
        let p = first_min_upto(s, x, y, n - 1);
        if dist2_spec(s[n - 1].x as int, s[n - 1].y as int, x, y) < dist2_spec(
            s[p].x as int,
            s[p].y as int,
            x,
            y,
        ) {
            n - 1
        } else {
            p
        }
    }
}

/// What `nearest_piece` returns: the first piece at minimal squared
/// distance, if that distance is strictly below `max_dist` squared.
pub open spec fn nearest_spec(s: Seq<BoardPiece>, x: int, y: int, max_dist: int) -> Option<int> {
    if s.len() == 0 {
        None
    } else {
        let m = first_min_upto(s, x, y, s.len() as int);
        if dist2_spec(s[m].x as int, s[m].y as int, x, y) < max_dist * max_dist {
            Some(m)
        } else {
            None
        }
    }
}

/// Squared distance between two bounded world points, as executable code.
fn sq_dist(ax: i32, ay: i32, bx: i32, by: i32) -> (d: i64)
    requires
        -COORD_BOUND <= ax <= COORD_BOUND,
        -COORD_BOUND <= ay <= COORD_BOUND,
        -COORD_BOUND <= bx <= COORD_BOUND,
        -COORD_BOUND <= by <= COORD_BOUND,
    ensures
        d as int == dist2_spec(ax as int, ay as int, bx as int, by as int),
        0 <= d <= 8_000_000_000_000i64,
{
    let dx: i64 = ax as i64 - bx as i64;
    let dy: i64 = ay as i64 - by as i64;
    proof {
        assert(dx * dx <= 4_000_000_000_000 && dx * dx >= 0) by (nonlinear_arith)
            requires
                -2_000_000 <= dx <= 2_000_000,
        ;
        assert(dy * dy <= 4_000_000_000_000 && dy * dy >= 0) by (nonlinear_arith)
            requires
                -2_000_000 <= dy <= 2_000_000,
        ;
    }
    dx * dx + dy * dy
}

/// An 8x8 chess board held as an arena of pieces with live positions,
/// indexed by stable identifiers (the indices into the arena).
pub struct Board {
    pieces: Vec<BoardPiece>,
}

impl Board {
    /// The board as the mathematical sequence of its piece entries, in
    /// creation (scan) order. Indices are the stable piece identifiers.
    pub closed spec fn view(&self) -> Seq<BoardPiece> {
        self.pieces@
    }

    /// All coordinates in range.
    pub open spec fn wf(&self) -> bool {
        forall|i: int| 0 <= i < self@.len() ==> piece_in_bounds(#[trigger] self@[i])
    }

    /// The piece entries, in stable identifier order.
    pub fn pieces(&self) -> (r: &Vec<BoardPiece>)
        ensures
            r@ == self@,
    {
        &self.pieces
    }

    /// How many pieces the board holds.
    pub fn len(&self) -> (n: usize)
        ensures
            n == self@.len(),
    {
        self.pieces.len()
    }

    /// Build the standard starting board: 32 pieces, each at the center
    /// of its starting square.
    pub fn setup_chess_board() -> (b: Board)
        ensures
            b@ == initial_board_pieces(),
            b.wf(),
    {
        let mut pieces: Vec<BoardPiece> = Vec::new();
        let mut idx: usize = 0;
        while idx < 64
            invariant
                idx <= 64,
                pieces@ == initial_pieces_prefix(idx as int),
                forall|i: int| 0 <= i < pieces@.len() ==> piece_in_bounds(#[trigger] pieces@[i]),
            decreases 64 - idx,
        {
            let rank: i32 = (idx / 8) as i32;
            let file: i32 = (idx % 8) as i32;
            if let Some((piece_type, color)) = get_initial_piece(rank, file) {
                let bp = BoardPiece {
                    piece: ChessPiece { piece_type, color },
                    x: file * 100 - 350,
                    y: rank * 100 - 350,
                };
                pieces.push(bp);
                assert(pieces@ =~= initial_pieces_prefix(idx + 1));
            } else {
                assert(pieces@ =~= initial_pieces_prefix(idx + 1));
            }
            idx = idx + 1;
        }
        Board { pieces }
    }

    /// An empty board, for sessions that lay out pieces one by one.
    pub fn new() -> (b: Board)
        ensures
            b@ =~= Seq::<BoardPiece>::empty(),
            b.wf(),
    {
        Board { pieces: Vec::new() }
    }

    /// Add a piece at a world position; its stable identifier is the next
    /// index.
    pub fn add_piece(&mut self, piece: ChessPiece, x: i32, y: i32)
        requires
            -COORD_BOUND <= x <= COORD_BOUND,
            -COORD_BOUND <= y <= COORD_BOUND,
        ensures
            final(self)@ == old(self)@.push(BoardPiece { piece, x, y }),
            old(self).wf() ==> final(self).wf(),
    {
        self.pieces.push(BoardPiece { piece, x, y });
        proof {
            if old(self).wf() {
                assert forall|k: int| 0 <= k < self@.len() implies piece_in_bounds(
                    #[trigger] self@[k],
                ) by {
                    if k < self@.len() - 1 {
                        assert(self@[k] == old(self)@[k]);
                    }
                }
            }
        }
    }

    /// The piece standing exactly on the given square's center, if any;
    /// the first in scan order if two overlap there.
    pub fn piece_at(&self, rank: i32, file: i32) -> (r: Option<ChessPiece>)
        requires
            0 <= rank < 8,
            0 <= file < 8,
        ensures
            r matches Some(p) ==> (exists|i: int|
                0 <= i < self@.len() && #[trigger] self@[i].x == square_x_spec(file as int)
                    && self@[i].y == square_y_spec(rank as int) && self@[i].piece == p
                    && (forall|j: int|
                    0 <= j < i ==> !(#[trigger] self@[j].x == square_x_spec(file as int)
                        && self@[j].y == square_y_spec(rank as int)))),
            r is None ==> (forall|i: int|
                0 <= i < self@.len() ==> !(#[trigger] self@[i].x == square_x_spec(file as int)
                    && self@[i].y == square_y_spec(rank as int))),
    {
        let sx: i32 = file * 100 - 350;
        let sy: i32 = rank * 100 - 350;
        let mut i: usize = 0;
        while i < self.pieces.len()
            invariant
                i <= self@.len(),
                sx as int == square_x_spec(file as int),
                sy as int == square_y_spec(rank as int),
                forall|j: int|
                    0 <= j < i ==> !(#[trigger] self@[j].x == square_x_spec(file as int)
                        && self@[j].y == square_y_spec(rank as int)),
            decreases self@.len() - i,
        {
            if self.pieces[i].x == sx && self.pieces[i].y == sy {
                return Some(self.pieces[i].piece);
            }
            i = i + 1;
        }
        None
    }

    /// Move the first piece standing on the `from` square to the center of
    /// the `to` square; overwrite-on-drop semantics, no legality check, and
    /// two pieces may end up sharing a square. Returns whether a piece was
    /// found on the `from` square.
    pub fn move_piece(&mut self, from_rank: i32, from_file: i32, to_rank: i32, to_file: i32) -> (r:
        bool)
        requires
            0 <= from_rank < 8,
            0 <= from_file < 8,
            0 <= to_rank < 8,
            0 <= to_file < 8,
        ensures
            r ==> (exists|i: int|
                0 <= i < old(self)@.len() && #[trigger] old(self)@[i].x == square_x_spec(
                    from_file as int,
                ) && old(self)@[i].y == square_y_spec(from_rank as int) && (forall|j: int|
                    0 <= j < i ==> !(#[trigger] old(self)@[j].x == square_x_spec(from_file as int)
                        && old(self)@[j].y == square_y_spec(from_rank as int))) && final(self)@
                    == old(self)@.update(
                    i,
                    BoardPiece {
                        piece: old(self)@[i].piece,
                        x: square_x_spec(to_file as int) as i32,
                        y: square_y_spec(to_rank as int) as i32,
                    },
                )),
            !r ==> final(self)@ == old(self)@ && (forall|i: int|
                0 <= i < old(self)@.len() ==> !(#[trigger] old(self)@[i].x == square_x_spec(
                    from_file as int,
                ) && old(self)@[i].y == square_y_spec(from_rank as int))),
            old(self).wf() ==> final(self).wf(),
    {
        let sx: i32 = from_file * 100 - 350;
        let sy: i32 = from_rank * 100 - 350;
        let tx: i32 = to_file * 100 - 350;
        let ty: i32 = to_rank * 100 - 350;
        let mut i: usize = 0;
        while i < self.pieces.len()
            invariant
                i <= self@.len(),
                self@ == old(self)@,
                0 <= to_rank < 8,
                0 <= to_file < 8,
                sx as int == square_x_spec(from_file as int),
                sy as int == square_y_spec(from_rank as int),
                tx as int == square_x_spec(to_file as int),
                ty as int == square_y_spec(to_rank as int),
                forall|j: int|
                    0 <= j < i ==> !(#[trigger] self@[j].x == square_x_spec(from_file as int)
                        && self@[j].y == square_y_spec(from_rank as int)),
            decreases self@.len() - i,
        {
            if self.pieces[i].x == sx && self.pieces[i].y == sy {
                let moved = BoardPiece { piece: self.pieces[i].piece, x: tx, y: ty };
                self.pieces.set(i, moved);
                proof {
                    if old(self).wf() {
                        assert forall|k: int| 0 <= k < self@.len() implies piece_in_bounds(
                            #[trigger] self@[k],
                        ) by {
                            if k != i {
                                assert(self@[k] == old(self)@[k]);
                            } else {
                                assert(self@[k] == moved);
                                assert(-350 <= tx <= 350 && -350 <= ty <= 350);
                            }
                        }
                    }
                }
                return true;
            }
            i = i + 1;
        }
        false
    }

    /// Set a piece's live position, as dragging does.
    pub fn set_piece_position(&mut self, i: usize, x: i32, y: i32)
        requires
            i < old(self)@.len(),
            -COORD_BOUND <= x <= COORD_BOUND,
            -COORD_BOUND <= y <= COORD_BOUND,
        ensures
            final(self)@ == old(self)@.update(
                i as int,
                BoardPiece { piece: old(self)@[i as int].piece, x, y },
            ),
            old(self).wf() ==> final(self).wf(),
    {
        let moved = BoardPiece { piece: self.pieces[i].piece, x, y };
        self.pieces.set(i, moved);
    }

    /// The piece nearest to the query point, by a linear scan in stable
    /// order; ties resolve to the earliest index. None if the nearest is
    /// at squared distance `max_dist * max_dist` or beyond, or the board
    /// is empty.
    pub fn nearest_piece(&self, x: i32, y: i32, max_dist: i32) -> (r: Option<usize>)
        requires
            self.wf(),
            -COORD_BOUND <= x <= COORD_BOUND,
            -COORD_BOUND <= y <= COORD_BOUND,
            0 <= max_dist <= COORD_BOUND,
        ensures
            r matches Some(i) ==> i < self@.len(),
            r matches Some(i) ==> Some(i as int) == nearest_spec(
                self@,
                x as int,
                y as int,
                max_dist as int,
            ),
            r is None ==> nearest_spec(self@, x as int, y as int, max_dist as int) is None,
    {
        if self.pieces.len() == 0 {
            return None;
        }
        let mut best_i: usize = 0;
        let mut best_d: i64 = sq_dist(self.pieces[0].x, self.pieces[0].y, x, y);
        let mut j: usize = 1;
        while j < self.pieces.len()
            invariant
                1 <= j <= self@.len(),
                self.wf(),
                -COORD_BOUND <= x <= COORD_BOUND,
                -COORD_BOUND <= y <= COORD_BOUND,
                best_i < j,
                best_i as int == first_min_upto(self@, x as int, y as int, j as int),
                best_d as int == dist2_spec(
                    self@[best_i as int].x as int,
                    self@[best_i as int].y as int,
                    x as int,
                    y as int,
                ),
            decreases self@.len() - j,
        {
            let d = sq_dist(self.pieces[j].x, self.pieces[j].y, x, y);
            if d < best_d {
                best_i = j;
                best_d = d;
            }
            j = j + 1;
        }
        let md: i64 = max_dist as i64;
        proof {
            assert(0 <= md * md <= 8_000_000_000_000i64) by (nonlinear_arith)
                requires
                    0 <= md <= 1_000_000,
            ;
        }
        let t2: i64 = md * md;
        if best_d < t2 {
            Some(best_i)
        } else {
            None
        }
    }
}

/// The canonical texture key a piece resolves to: the rendering
/// collaborator looks the sprite up by this string and simply omits it
/// when the key is missing.
pub open spec fn chess_texture_key_spec(color: PieceColor, t: PieceType) -> Seq<char> {
    match (color, t) {
        (PieceColor::White, PieceType::Pawn) => "chess/W_Pawn.png"@,
        (PieceColor::White, PieceType::Knight) => "chess/W_Knight.png"@,
        (PieceColor::White, PieceType::Bishop) => "chess/W_Bishop.png"@,
        (PieceColor::White, PieceType::Rook) => "chess/W_Rook.png"@,
        (PieceColor::White, PieceType::Queen) => "chess/W_Queen.png"@,
        (PieceColor::White, PieceType::King) => "chess/W_King.png"@,
        (PieceColor::Black, PieceType::Pawn) => "chess/B_Pawn.png"@,
        (PieceColor::Black, PieceType::Knight) => "chess/B_Knight.png"@,
        (PieceColor::Black, PieceType::Bishop) => "chess/B_Bishop.png"@,
        (PieceColor::Black, PieceType::Rook) => "chess/B_Rook.png"@,
        (PieceColor::Black, PieceType::Queen) => "chess/B_Queen.png"@,
        (PieceColor::Black, PieceType::King) => "chess/B_King.png"@,
    }
}

/// The canonical texture key of a piece, as executable code.
pub fn chess_texture_key(color: PieceColor, t: PieceType) -> (r: &'static str)
    ensures
        r@ == chess_texture_key_spec(color, t),
{
    match (color, t) {
        (PieceColor::White, PieceType::Pawn) => "chess/W_Pawn.png",
        (PieceColor::White, PieceType::Knight) => "chess/W_Knight.png",
        (PieceColor::White, PieceType::Bishop) => "chess/W_Bishop.png",
        (PieceColor::White, PieceType::Rook) => "chess/W_Rook.png",
        (PieceColor::White, PieceType::Queen) => "chess/W_Queen.png",
        (PieceColor::White, PieceType::King) => "chess/W_King.png",
        (PieceColor::Black, PieceType::Pawn) => "chess/B_Pawn.png",
        (PieceColor::Black, PieceType::Knight) => "chess/B_Knight.png",
        (PieceColor::Black, PieceType::Bishop) => "chess/B_Bishop.png",
        (PieceColor::Black, PieceType::Rook) => "chess/B_Rook.png",
        (PieceColor::Black, PieceType::Queen) => "chess/B_Queen.png",
        (PieceColor::Black, PieceType::King) => "chess/B_King.png",
    }
}

/// The first-minimum index really is minimal, and earlier indices are
/// strictly farther: the tie-break is the stable board scan order.
pub proof fn lemma_first_min_upto(s: Seq<BoardPiece>, x: int, y: int, n: int)
    requires
        1 <= n <= s.len(),
    ensures
        0 <= first_min_upto(s, x, y, n) < n,
        forall|j: int|
            0 <= j < n ==> dist2_spec(#[trigger] s[j].x as int, s[j].y as int, x, y) >= dist2_spec(
                s[first_min_upto(s, x, y, n)].x as int,
                s[first_min_upto(s, x, y, n)].y as int,
                x,
                y,
            ),
        forall|j: int|
            0 <= j < first_min_upto(s, x, y, n) ==> dist2_spec(
                #[trigger] s[j].x as int,
                s[j].y as int,
                x,
                y,
            ) > dist2_spec(
                s[first_min_upto(s, x, y, n)].x as int,
                s[first_min_upto(s, x, y, n)].y as int,
                x,
                y,
            ),
    decreases n,
{
    if n > 1 {
        lemma_first_min_upto(s, x, y, n - 1);
    }
}

} // verus!
