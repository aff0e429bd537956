use crate::board::{
    GameState, Move, applied, draw, has_any_legal, in_check, initial_square, legal_move, promoted,
    promotes, sound, stalemate, threefold,
};
use crate::network::{GameInfo, GameStatus, MoveInfo, NetworkMessage, promotion_choice, promotion_piece};
use crate::piece::{Color, Piece, PieceType, in_bounds};
use vstd::prelude::*;
use vstd::string::*;

verus! {

/// Seconds a session may go without activity before a player forfeits or it is swept.
pub const MAX_INACTIVE_SECS: u64 = 300;

/// Seconds a finished session stays open for a rematch.
pub const REMATCH_WINDOW_SECS: u64 = 60;

/// Entries the chat log keeps; older ones are dropped first.
pub const MAX_CHAT: usize = 100;

/// Whom an outgoing message goes to.
#[derive(Debug, Clone, Copy, PartialEq, Eq, Structural)]
pub enum Recipient {
    White,
    Black,
    /// Both players and every spectator.
    Everyone,
    /// Every spectator.
    Spectators,
    /// Both players and every spectator but the one on this connection.
    EveryoneBut(u64),
    /// One connection, by its id.
    Connection(u64),
}

#[derive(Debug)]
pub struct Outgoing {
    pub to: Recipient,
    pub message: NetworkMessage,
}

/// A player's seat: the connection bound to it and whether it is still open.
#[derive(Debug)]
pub struct Seat {
    pub conn: u64,
    pub name: String,
    pub connected: bool,
}

#[derive(Debug)]
pub struct Spectator {
    pub conn: u64,
    pub name: String,
}

#[derive(Debug)]
pub struct ChatEntry {
    pub sender: String,
    pub message: String,
    pub is_spectator: bool,
}

pub open spec fn entry_view(e: ChatEntry) -> (Seq<char>, Seq<char>, bool) {
    (e.sender@, e.message@, e.is_spectator)
}

pub open spec fn chat_view(v: Seq<ChatEntry>) -> Seq<(Seq<char>, Seq<char>, bool)> {
    v.map_values(|e: ChatEntry| entry_view(e))
}

/// The log once `e` is appended, the oldest entry dropped beyond `MAX_CHAT` entries.
pub open spec fn appended(log: Seq<(Seq<char>, Seq<char>, bool)>, e: (Seq<char>, Seq<char>, bool)) -> Seq<
    (Seq<char>, Seq<char>, bool),
> {
    let l = log.push(e);
    if l.len() > MAX_CHAT {
        l.drop_first()
    } else {
        l
    }
}

pub open spec fn cell_of(v: Option<Piece>) -> Option<(PieceType, Color)> {
    match v {
        Some(p) => Some((p.piece_type, p.color)),
        None => None,
    }
}

/// `m` is the full snapshot of game `g`.
pub open spec fn is_snapshot(m: NetworkMessage, g: GameState) -> bool {
    &&& m matches NetworkMessage::GameState { board, current_turn, promotion_pending, game_over }
    &&& forall|r: int, f: int| in_bounds(r, f) ==> #[trigger] board[r][f] == cell_of(g.board[r][f])
    &&& current_turn == g.current_turn
    &&& promotion_pending == match g.promotion_pending {
        Some(ps) => Some((ps.position.0, ps.position.1, ps.color)),
        None => None,
    }
    &&& game_over == g.game_over
}

pub open spec fn is_chat(m: NetworkMessage, e: (Seq<char>, Seq<char>, bool)) -> bool {
    m matches NetworkMessage::ChatMessage { sender, message, is_spectator } && sender@ == e.0
        && message@ == e.1 && is_spectator == e.2
}

pub open spec fn is_game_end(m: NetworkMessage, reason: Seq<char>) -> bool {
    m matches NetworkMessage::GameEnd { reason: r } && r@ == reason
}

pub open spec fn color_word(white: bool) -> Seq<char> {
    if white {
        "White"@
    } else {
        "Black"@
    }
}

pub open spec fn system_entry(text: Seq<char>) -> (Seq<char>, Seq<char>, bool) {
    ("System"@, text, true)
}

pub open spec fn side(white: bool) -> Color {
    if white {
        Color::White
    } else {
        Color::Black
    }
}

fn text(s: &str) -> (r: String)
    ensures
        r@ == s@,
{
    String::from_str(s)
}

fn join(a: &str, b: &str) -> (r: String)
    ensures
        r@ == a@ + b@,
{
    let mut s = String::from_str(a);
    s.append(b);
    s
}

fn color_name(white: bool) -> (r: &'static str)
    ensures
        r@ == color_word(white),
{
    if white {
        "White"
    } else {
        "Black"
    }
}

/// The full snapshot of a game: the grid of (type, color) pairs, the side to move, the pending
/// promotion and the game-over flag.
pub fn snapshot(game: &GameState) -> (m: NetworkMessage)
    ensures
        is_snapshot(m, *game),
{
    let mut board: [[Option<(PieceType, Color)>; 8]; 8] = [[None; 8]; 8];
    let mut r: usize = 0;
    while r < 8
        invariant
            r <= 8,
            forall|i: int, j: int|
                0 <= i < r && 0 <= j < 8 ==> #[trigger] board[i][j] == cell_of(game.board[i][j]),
        decreases 8 - r,
    {
        let mut f: usize = 0;
        while f < 8
            invariant
                r < 8,
                f <= 8,
                forall|i: int, j: int|
                    0 <= i < r && 0 <= j < 8 ==> #[trigger] board[i][j] == cell_of(game.board[i][j]),
                forall|j: int| 0 <= j < f ==> #[trigger] board[r as int][j] == cell_of(game.board[r as int][j]),
            decreases 8 - f,
        {
            board[r][f] = match game.board[r][f] {
                Some(p) => Some((p.piece_type, p.color)),
                None => None,
            };
            f = f + 1;
        }
        r = r + 1;
    }
    let promotion_pending = match game.promotion_pending {
        Some(ps) => Some((ps.position.0, ps.position.1, ps.color)),
        None => None,
    };
    NetworkMessage::GameState {
        board,
        current_turn: game.current_turn,
        promotion_pending,
        game_over: game.game_over,
    }
}

/// One hosted match.
pub struct Session {
    pub id: String,
    pub host_name: String,
    pub white: Option<Seat>,
    pub black: Option<Seat>,
    pub spectators: Vec<Spectator>,
    pub game: GameState,
    pub status: GameStatus,
    pub created_at: u64,
    pub last_activity: u64,
    pub chat_history: Vec<ChatEntry>,
    /// The color whose draw offer stands, if any.
    pub draw_offer: Option<Color>,
    pub rematch_white: bool,
    pub rematch_black: bool,
}

pub open spec fn seat_connected(s: Option<Seat>) -> bool {
    s is Some && s->Some_0.connected
}

impl Session {
    pub open spec fn wf(self) -> bool {
        &&& self.game.wf()
        &&& sound(self.game)
        &&& self.chat_history@.len() <= MAX_CHAT
        &&& self.white is Some
        &&& self.status != GameStatus::Waiting ==> self.black is Some
    }

    pub open spec fn chat(self) -> Seq<(Seq<char>, Seq<char>, bool)> {
        chat_view(self.chat_history@)
    }

    /// A session waiting for its second player, its creator seated as White.
    pub fn new(id: String, host_name: String, white_conn: u64, now: u64) -> (s: Session)
        ensures
            s.wf(),
            s.id@ == id@,
            s.host_name@ == host_name@,
            s.white matches Some(seat) && seat.conn == white_conn && seat.connected && seat.name@
                == host_name@,
            s.black is None,
            s.spectators@.len() == 0,
            s.status == GameStatus::Waiting,
            s.created_at == now && s.last_activity == now,
            s.chat_history@.len() == 0,
            s.draw_offer is None,
            !s.game.game_over,
            s.game.current_turn == Color::White,
            sound(s.game),
    {
        let name = host_name.clone();
        Session {
            id,
            host_name,
            white: Some(Seat { conn: white_conn, name, connected: true }),
            black: None,
            spectators: Vec::new(),
            game: GameState::new(),
            status: GameStatus::Waiting,
            created_at: now,
            last_activity: now,
            chat_history: Vec::new(),
            draw_offer: None,
            rematch_white: false,
            rematch_black: false,
        }
    }

    /// Appends to the chat log, dropping the oldest entry beyond `MAX_CHAT`.
    fn log_chat(&mut self, sender: String, message: String, is_spectator: bool)
        requires
            old(self).chat_history@.len() <= MAX_CHAT,
        ensures
            final(self).chat_history@.len() <= MAX_CHAT,
            final(self).chat() == appended(old(self).chat(), (sender@, message@, is_spectator)),
            *final(self) == (Session { chat_history: final(self).chat_history, ..*old(self) }),
    {
        let ghost before = self.chat_history@;
        self.chat_history.push(ChatEntry { sender, message, is_spectator });
        if self.chat_history.len() > MAX_CHAT {
            self.chat_history.remove(0);
        }
        proof {
            let e = (sender@, message@, is_spectator);
            assert(chat_view(before.push(ChatEntry { sender, message, is_spectator })) =~= chat_view(before).push(e));
            if before.len() + 1 > MAX_CHAT {
                assert(chat_view(self.chat_history@) =~= chat_view(before).push(e).drop_first());
            }
        }
    }

    fn log_system(&mut self, message: String)
        requires
            old(self).chat_history@.len() <= MAX_CHAT,
        ensures
            final(self).chat_history@.len() <= MAX_CHAT,
            final(self).chat() == appended(old(self).chat(), system_entry(message@)),
            *final(self) == (Session { chat_history: final(self).chat_history, ..*old(self) }),
    {
        self.log_chat(text("System"), message, true);
    }

    /// A chat line: logged, and sent verbatim to every participant.
    pub fn handle_chat(&mut self, sender: String, message: String, is_spectator: bool, now: u64) -> (out: Vec<Outgoing>)
        requires
            old(self).wf(),
        ensures
            final(self).wf(),
            final(self).chat() == appended(old(self).chat(), (sender@, message@, is_spectator)),
            *final(self) == (Session { chat_history: final(self).chat_history, last_activity: now, ..*old(self) }),
            out@.len() == 1,
            out@[0].to == Recipient::Everyone,
            is_chat(out@[0].message, (sender@, message@, is_spectator)),
    {
        let m = NetworkMessage::ChatMessage { sender: sender.clone(), message: message.clone(), is_spectator };
        self.log_chat(sender, message, is_spectator);
        self.last_activity = now;
        let mut out: Vec<Outgoing> = Vec::new();
        out.push(Outgoing { to: Recipient::Everyone, message: m });
        out
    }
}

impl Session {
    /// Seats a second player as Black: only while the session waits and the seat is free;
    /// otherwise nothing changes.
    pub fn seat_black(&mut self, conn: u64, player_name: String) -> (r: bool)
        requires
            old(self).wf(),
        ensures
            final(self).wf(),
            r == (old(self).status == GameStatus::Waiting && old(self).black is None),
            !r ==> *final(self) == *old(self),
            r ==> (final(self).black matches Some(seat) && seat.conn == conn && seat.connected
                && seat.name@ == player_name@),
            r ==> final(self).chat() == appended(
                old(self).chat(),
                system_entry(player_name@ + " joined as black"@),
            ),
            r ==> final(self).id == old(self).id,
            r ==> final(self).status == old(self).status && final(self).white == old(self).white
                && final(self).spectators == old(self).spectators && final(self).game == old(self).game,
    {
        if self.status != GameStatus::Waiting || self.black.is_some() {
            return false;
        }
        let notice = join(player_name.as_str(), " joined as black");
        self.black = Some(Seat { conn, name: player_name, connected: true });
        self.log_system(notice);
        true
    }

    /// Starts the match once both seats are taken: each player learns its color, and
    /// everyone gets the initial snapshot.
    pub fn start(&mut self, now: u64) -> (out: Vec<Outgoing>)
        requires
            old(self).wf(),
            old(self).white is Some,
            old(self).black is Some,
        ensures
            final(self).wf(),
            *final(self) == (Session { status: GameStatus::InProgress, last_activity: now, ..*old(self) }),
            out@.len() == 3,
            out@[0].to == Recipient::White,
            out@[0].message matches NetworkMessage::GameStart { is_white, game_id, opponent_name }
                && is_white && game_id@ == old(self).id@ && opponent_name@ == old(self).black->Some_0.name@,
            out@[1].to == Recipient::Black,
            out@[1].message matches NetworkMessage::GameStart { is_white, game_id, opponent_name }
                && !is_white && game_id@ == old(self).id@ && opponent_name@ == old(self).white->Some_0.name@,
            out@[2].to == Recipient::Everyone,
            is_snapshot(out@[2].message, old(self).game),
    {
        let mut out: Vec<Outgoing> = Vec::new();
        let white_name = match &self.white {
            Some(seat) => seat.name.clone(),
            None => String::new(),
        };
        let black_name = match &self.black {
            Some(seat) => seat.name.clone(),
            None => String::new(),
        };
        out.push(Outgoing {
            to: Recipient::White,
            message: NetworkMessage::GameStart { is_white: true, game_id: self.id.clone(), opponent_name: black_name },
        });
        out.push(Outgoing {
            to: Recipient::Black,
            message: NetworkMessage::GameStart { is_white: false, game_id: self.id.clone(), opponent_name: white_name },
        });
        out.push(Outgoing { to: Recipient::Everyone, message: snapshot(&self.game) });
        self.status = GameStatus::InProgress;
        self.last_activity = now;
        out
    }

    /// Binds a spectator, at any status: the others learn of it, and the newcomer gets the
    /// full snapshot, then the whole chat backlog as it stood, then its own join notice, which
    /// is logged.
    pub fn add_spectator(&mut self, conn: u64, name: String, now: u64) -> (out: Vec<Outgoing>)
        requires
            old(self).wf(),
        ensures
            final(self).wf(),
            final(self).spectators@.len() == old(self).spectators@.len() + 1,
            final(self).spectators@.drop_last() == old(self).spectators@,
            final(self).spectators@.last().conn == conn,
            final(self).spectators@.last().name@ == name@,
            final(self).chat() == appended(old(self).chat(), system_entry(name@ + " joined as spectator"@)),
            final(self).game == old(self).game,
            final(self).status == old(self).status,
            final(self).white == old(self).white,
            final(self).black == old(self).black,
            final(self).id == old(self).id,
            out@.len() == 3 + old(self).chat().len(),
            out@[0].to == Recipient::EveryoneBut(conn),
            out@[0].message matches NetworkMessage::SpectatorJoined { name: n } && n@ == name@,
            out@[1].to == Recipient::Connection(conn),
            is_snapshot(out@[1].message, old(self).game),
            forall|i: int|
                0 <= i < old(self).chat().len() ==> #[trigger] out@[i + 2].to == Recipient::Connection(conn)
                    && is_chat(out@[i + 2].message, old(self).chat()[i]),
            out@[2 + old(self).chat().len() as int].to == Recipient::Connection(conn),
            is_chat(out@[2 + old(self).chat().len() as int].message, system_entry(name@ + " joined as spectator"@)),
    {
        let mut out: Vec<Outgoing> = Vec::new();
        out.push(Outgoing {
            to: Recipient::EveryoneBut(conn),
            message: NetworkMessage::SpectatorJoined { name: name.clone() },
        });
        out.push(Outgoing { to: Recipient::Connection(conn), message: snapshot(&self.game) });
        let mut i: usize = 0;
        while i < self.chat_history.len()
            invariant
                i <= self.chat_history@.len(),
                out@.len() == 2 + i,
                out@[0].to == Recipient::EveryoneBut(conn),
                out@[0].message matches NetworkMessage::SpectatorJoined { name: n } && n@ == name@,
                out@[1].to == Recipient::Connection(conn),
                is_snapshot(out@[1].message, self.game),
                forall|j: int|
                    0 <= j < i ==> #[trigger] out@[j + 2].to == Recipient::Connection(conn)
                        && is_chat(out@[j + 2].message, self.chat()[j]),
            decreases self.chat_history@.len() - i,
        {
            let e = &self.chat_history[i];
            out.push(Outgoing {
                to: Recipient::Connection(conn),
                message: NetworkMessage::ChatMessage {
                    sender: e.sender.clone(),
                    message: e.message.clone(),
                    is_spectator: e.is_spectator,
                },
            });
            i = i + 1;
        }
        let notice = join(name.as_str(), " joined as spectator");
        out.push(Outgoing {
            to: Recipient::Connection(conn),
            message: NetworkMessage::ChatMessage {
                sender: text("System"),
                message: notice.clone(),
                is_spectator: true,
            },
        });
        self.log_system(notice);
        self.spectators.push(Spectator { conn, name });
        self.last_activity = now;
        out
    }

    /// Unbinds the spectator on connection `conn`, if any; the others learn of it.
    pub fn remove_spectator(&mut self, conn: u64, now: u64) -> (out: Vec<Outgoing>)
        requires
            old(self).wf(),
        ensures
            final(self).wf(),
            forall|i: int| 0 <= i < final(self).spectators@.len() ==> #[trigger] final(self).spectators@[i].conn != conn,
            (exists|i: int| 0 <= i < old(self).spectators@.len() && #[trigger] old(self).spectators@[i].conn == conn)
                <==> out@.len() == 1,
            out@.len() == 1 ==> out@[0].to == Recipient::Everyone && out@[0].message is SpectatorLeft,
            out@.len() == 0 ==> final(self).spectators@ == old(self).spectators@,
            final(self).game == old(self).game,
            final(self).status == old(self).status,
    {
        let mut kept: Vec<Spectator> = Vec::new();
        let mut left: Option<String> = None;
        let ghost all = self.spectators@;
        let mut i: usize = 0;
        while i < self.spectators.len()
            invariant
                i <= self.spectators@.len(),
                self.spectators@ == all,
                forall|j: int| 0 <= j < kept@.len() ==> #[trigger] kept@[j].conn != conn,
                left is Some <==> exists|j: int| 0 <= j < i && #[trigger] all[j].conn == conn,
                left is None ==> kept@ == all.subrange(0, i as int),
            decreases self.spectators@.len() - i,
        {
            let sp = &self.spectators[i];
            if sp.conn == conn {
                left = Some(sp.name.clone());
            } else {
                kept.push(Spectator { conn: sp.conn, name: sp.name.clone() });
                proof {
                    if left is None {
                        assert(kept@ =~= all.subrange(0, i + 1));
                    }
                }
            }
            i = i + 1;
        }
        proof {
            if left is None {
                assert(kept@ =~= all);
            }
        }
        self.spectators = kept;
        let mut out: Vec<Outgoing> = Vec::new();
        match left {
            Some(name) => {
                self.last_activity = now;
                out.push(Outgoing { to: Recipient::Everyone, message: NetworkMessage::SpectatorLeft { name } });
            },
            None => {},
        }
        out
    }
}

/// A move request can be carried out: with a promotion pending, it names a piece to promote
/// to; otherwise the move is legal.
pub open spec fn request_ok(g: GameState, from: (u8, u8), to: (u8, u8), promotion: Option<char>) -> bool {
    if g.promotion_pending is Some {
        promotion matches Some(c) && promotion_choice(c) is Some
    } else {
        legal_move(g, from.0 as int, from.1 as int, to.0 as int, to.1 as int)
    }
}

/// `after` is what carrying out the request leads to: the promotion; or the move, followed by
/// the promotion it calls for when the request names a piece.
pub open spec fn request_done(
    before: GameState,
    after: GameState,
    from: (u8, u8),
    to: (u8, u8),
    promotion: Option<char>,
) -> bool {
    let (fr, ff, tr, tf) = (from.0 as int, from.1 as int, to.0 as int, to.1 as int);
    if before.promotion_pending is Some {
        promoted(before, after, promotion_choice(promotion->Some_0)->Some_0)
    } else if promotes(before, fr, ff, tr, tf) && promotion is Some && promotion_choice(promotion->Some_0) is Some {
        exists|mid: GameState|
            applied(before, mid, fr, ff, tr, tf) && #[trigger] promoted(
                mid,
                after,
                promotion_choice(promotion->Some_0)->Some_0,
            )
    } else {
        applied(before, after, fr, ff, tr, tf)
    }
}

/// Carries out a move request from the presentation layer or the wire: board coordinates
/// and an optional promotion choice. Returns false, changing nothing, when it cannot be
/// carried out.
pub fn apply_move_request(game: &mut GameState, mv: &MoveInfo) -> (r: bool)
    requires
        old(game).wf(),
    ensures
        final(game).wf(),
        r == request_ok(*old(game), mv.from, mv.to, mv.promotion),
        !r ==> *final(game) == *old(game),
        r ==> request_done(*old(game), *final(game), mv.from, mv.to, mv.promotion),
        sound(*old(game)) ==> sound(*final(game)),
{
    if game.promotion_pending.is_some() {
        return match mv.promotion {
            Some(c) => match promotion_piece(c) {
                Some(kind) => game.promote_pawn(kind),
                None => false,
            },
            None => false,
        };
    }
    let from = (mv.from.0 as usize, mv.from.1 as usize);
    let to = (mv.to.0 as usize, mv.to.1 as usize);
    if !game.make_move(from, to) {
        return false;
    }
    let ghost mid = *game;
    if game.promotion_pending.is_some() {
        match mv.promotion {
            Some(c) => match promotion_piece(c) {
                Some(kind) => {
                    game.promote_pawn(kind);
                    assert(promoted(mid, *game, promotion_choice(c)->Some_0));
                },
                None => {},
            },
            None => {},
        }
    }
    true
}

/// Why the game in `g` has ended, when it has: checkmate, then the draw rules in turn.
pub open spec fn end_reason(g: GameState) -> Seq<char> {
    if in_check(g.board, g.current_turn) && !has_any_legal(g) {
        if g.current_turn == Color::White {
            "Black wins by checkmate"@
        } else {
            "White wins by checkmate"@
        }
    } else if stalemate(g) {
        "Draw by stalemate"@
    } else if threefold(g) {
        "Draw by threefold repetition"@
    } else if g.halfmove_clock >= 100 {
        "Draw by fifty-move rule"@
    } else {
        "Draw by insufficient material"@
    }
}

pub open spec fn game_finished(g: GameState) -> bool {
    crate::board::terminal(g)
}

proof fn lemma_game_over_irrelevant(g: GameState, over: bool)
    ensures
        game_finished(GameState { game_over: over, ..g }) == game_finished(g),
        end_reason(GameState { game_over: over, ..g }) == end_reason(g),
{
    let g2 = GameState { game_over: over, ..g };
    assert forall|fr: int, ff: int, tr: int, tf: int|
        legal_move(g2, fr, ff, tr, tf) == #[trigger] legal_move(g, fr, ff, tr, tf) by {}
    if has_any_legal(g) {
        let (fr, ff, tr, tf) = choose|fr: int, ff: int, tr: int, tf: int|
            #[trigger] legal_move(g, fr, ff, tr, tf);
        assert(legal_move(g2, fr, ff, tr, tf));
    }
    if has_any_legal(g2) {
        let (fr, ff, tr, tf) = choose|fr: int, ff: int, tr: int, tf: int|
            #[trigger] legal_move(g2, fr, ff, tr, tf);
        assert(legal_move(g, fr, ff, tr, tf));
    }
}

impl Session {
    /// Ends the match: the reason is logged and sent to everyone.
    fn finish(&mut self, reason: String, now: u64) -> (out: Outgoing)
        requires
            old(self).wf(),
            old(self).status == GameStatus::InProgress,
        ensures
            final(self).wf(),
            final(self).status == GameStatus::Completed,
            final(self).game == (GameState { game_over: true, ..old(self).game }),
            final(self).chat() == appended(old(self).chat(), system_entry(reason@)),
            final(self).last_activity == now,
            final(self).white == old(self).white,
            final(self).black == old(self).black,
            final(self).spectators == old(self).spectators,
            final(self).draw_offer == old(self).draw_offer,
            final(self).id == old(self).id,
            out.to == Recipient::Everyone,
            is_game_end(out.message, reason@),
    {
        let m = NetworkMessage::GameEnd { reason: reason.clone() };
        self.log_system(reason);
        self.status = GameStatus::Completed;
        self.game.game_over = true;
        self.last_activity = now;
        Outgoing { to: Recipient::Everyone, message: m }
    }

    /// A move request from a player: carried out only while the match runs and only from the
    /// side to move; then everyone gets the full snapshot, and the match ends on checkmate or
    /// a draw. Anything else is dropped without a trace.
    pub fn handle_move(&mut self, from_white: bool, mv: &MoveInfo, now: u64) -> (out: Vec<Outgoing>)
        requires
            old(self).wf(),
        ensures
            final(self).wf(),
            ({
                let handled = old(self).status == GameStatus::InProgress && side(from_white)
                    == old(self).game.current_turn && request_ok(old(self).game, mv.from, mv.to, mv.promotion);
                &&& !handled ==> *final(self) == *old(self) && out@.len() == 0
                &&& handled ==> {
                    let g = final(self).game;
                    let ended = g.promotion_pending is None && game_finished(g);
                    &&& request_done(old(self).game, GameState { game_over: old(self).game.game_over, ..g }, mv.from, mv.to, mv.promotion)
                    &&& final(self).draw_offer is None
                    &&& final(self).last_activity == now
                    &&& (final(self).status == GameStatus::Completed) == ended
                    &&& g.game_over == (old(self).game.game_over || ended)
                    &&& out@.len() == if ended { 2int } else { 1int }
                    &&& out@[0].to == Recipient::Everyone
                    &&& is_snapshot(out@[0].message, g)
                    &&& ended ==> out@[1].to == Recipient::Everyone && is_game_end(out@[1].message, end_reason(g))
                }
            }),
    {
        let mut out: Vec<Outgoing> = Vec::new();
        if self.status != GameStatus::InProgress {
            return out;
        }
        let mover = if from_white { Color::White } else { Color::Black };
        if mover != self.game.current_turn {
            return out;
        }
        if !apply_move_request(&mut self.game, mv) {
            return out;
        }
        let ghost moved = self.game;
        self.draw_offer = None;
        self.last_activity = now;
        let end = if self.game.promotion_pending.is_none() {
            self.end_reason_now()
        } else {
            None
        };
        match end {
            Some(reason) => {
                let m = self.finish(reason, now);
                proof {
                    lemma_game_over_irrelevant(moved, true);
                }
                out.push(Outgoing { to: Recipient::Everyone, message: snapshot(&self.game) });
                out.push(m);
            },
            None => {
                out.push(Outgoing { to: Recipient::Everyone, message: snapshot(&self.game) });
            },
        }
        out
    }

    /// The end reason of the game as it stands, if it has ended by checkmate or a draw.
    fn end_reason_now(&self) -> (r: Option<String>)
        ensures
            r is Some == game_finished(self.game),
            r is Some ==> r->Some_0@ == end_reason(self.game),
    {
        if self.game.is_checkmate() {
            let who = if self.game.current_turn == Color::White {
                "Black wins by checkmate"
            } else {
                "White wins by checkmate"
            };
            return Some(text(who));
        }
        if self.game.is_stalemate() {
            return Some(text("Draw by stalemate"));
        }
        if self.game.is_threefold_repetition() {
            return Some(text("Draw by threefold repetition"));
        }
        if self.game.is_fifty_move_rule() {
            return Some(text("Draw by fifty-move rule"));
        }
        if self.game.is_insufficient_material() {
            return Some(text("Draw by insufficient material"));
        }
        None
    }
}

pub open spec fn other_player(white: bool) -> Recipient {
    if white {
        Recipient::Black
    } else {
        Recipient::White
    }
}

pub open spec fn elapsed(since: u64, now: u64) -> int {
    if now >= since {
        now - since
    } else {
        0
    }
}

fn player_recipient(white: bool) -> (r: Recipient)
    ensures
        r == (if white { Recipient::White } else { Recipient::Black }),
{
    if white {
        Recipient::White
    } else {
        Recipient::Black
    }
}

impl Session {
    /// A draw offer while the match runs: it stands for the offering color, reaches the other
    /// player, and is logged.
    pub fn offer_draw(&mut self, from_white: bool, now: u64) -> (out: Vec<Outgoing>)
        requires
            old(self).wf(),
        ensures
            final(self).wf(),
            old(self).status != GameStatus::InProgress ==> *final(self) == *old(self) && out@.len() == 0,
            old(self).status == GameStatus::InProgress ==> {
                &&& final(self).draw_offer == Some(side(from_white))
                &&& final(self).chat() == appended(old(self).chat(), system_entry(color_word(from_white) + " player offered a draw"@))
                &&& final(self).game == old(self).game
                &&& final(self).status == old(self).status
                &&& out@.len() == 2
                &&& out@[0].to == other_player(from_white) && out@[0].message is DrawOffered
                &&& out@[1].to == Recipient::Everyone
                &&& is_chat(out@[1].message, system_entry(color_word(from_white) + " player offered a draw"@))
            },
    {
        let mut out: Vec<Outgoing> = Vec::new();
        if self.status != GameStatus::InProgress {
            return out;
        }
        self.draw_offer = Some(if from_white { Color::White } else { Color::Black });
        out.push(Outgoing { to: player_recipient(!from_white), message: NetworkMessage::DrawOffered });
        let line = join(color_name(from_white), " player offered a draw");
        let mut chat = self.handle_chat(text("System"), line, true, now);
        out.append(&mut chat);
        out
    }

    /// Accepting a draw: only while the match runs and the other color's offer stands; then
    /// both players learn of it and the match ends as agreed drawn.
    pub fn accept_draw(&mut self, from_white: bool, now: u64) -> (out: Vec<Outgoing>)
        requires
            old(self).wf(),
        ensures
            final(self).wf(),
            !(old(self).status == GameStatus::InProgress && old(self).draw_offer == Some(side(!from_white)))
                ==> *final(self) == *old(self) && out@.len() == 0,
            (old(self).status == GameStatus::InProgress && old(self).draw_offer == Some(side(!from_white))) ==> {
                &&& final(self).status == GameStatus::Completed
                &&& final(self).game == (GameState { game_over: true, ..old(self).game })
                &&& final(self).draw_offer is None
                &&& out@.len() == 4
                &&& out@[0].to == Recipient::White && out@[0].message is AcceptDraw
                &&& out@[1].to == Recipient::Black && out@[1].message is AcceptDraw
                &&& is_chat(out@[2].message, system_entry(color_word(from_white) + " player accepted the draw offer"@))
                &&& out@[3].to == Recipient::Everyone && is_game_end(out@[3].message, "Draw agreed"@)
            },
    {
        let mut out: Vec<Outgoing> = Vec::new();
        let offerer = if from_white { Color::Black } else { Color::White };
        let valid = self.status == GameStatus::InProgress && match self.draw_offer {
            Some(c) => c == offerer,
            None => false,
        };
        if !valid {
            return out;
        }
        self.draw_offer = None;
        out.push(Outgoing { to: Recipient::White, message: NetworkMessage::AcceptDraw });
        out.push(Outgoing { to: Recipient::Black, message: NetworkMessage::AcceptDraw });
        let line = join(color_name(from_white), " player accepted the draw offer");
        let mut chat = self.handle_chat(text("System"), line, true, now);
        out.append(&mut chat);
        let end = self.finish(text("Draw agreed"), now);
        out.push(end);
        out
    }

    /// Declining a draw: only when the other color's offer stands; the offer lapses and the
    /// offering player learns of it.
    pub fn decline_draw(&mut self, from_white: bool, now: u64) -> (out: Vec<Outgoing>)
        requires
            old(self).wf(),
        ensures
            final(self).wf(),
            old(self).draw_offer != Some(side(!from_white)) ==> *final(self) == *old(self) && out@.len() == 0,
            old(self).draw_offer == Some(side(!from_white)) ==> {
                &&& final(self).draw_offer is None
                &&& final(self).game == old(self).game
                &&& final(self).status == old(self).status
                &&& out@.len() == 2
                &&& out@[0].to == other_player(from_white) && out@[0].message is DeclineDraw
                &&& is_chat(out@[1].message, system_entry(color_word(from_white) + " player declined the draw offer"@))
            },
    {
        let mut out: Vec<Outgoing> = Vec::new();
        let offerer = if from_white { Color::Black } else { Color::White };
        let valid = match self.draw_offer {
            Some(c) => c == offerer,
            None => false,
        };
        if !valid {
            return out;
        }
        self.draw_offer = None;
        out.push(Outgoing { to: player_recipient(!from_white), message: NetworkMessage::DeclineDraw });
        let line = join(color_name(from_white), " player declined the draw offer");
        let mut chat = self.handle_chat(text("System"), line, true, now);
        out.append(&mut chat);
        out
    }

    /// Resigning while the match runs: logged, announced, and the match ends.
    pub fn resign(&mut self, from_white: bool, now: u64) -> (out: Vec<Outgoing>)
        requires
            old(self).wf(),
        ensures
            final(self).wf(),
            old(self).status != GameStatus::InProgress ==> *final(self) == *old(self) && out@.len() == 0,
            old(self).status == GameStatus::InProgress ==> {
                &&& final(self).status == GameStatus::Completed
                &&& final(self).game == (GameState { game_over: true, ..old(self).game })
                &&& out@.len() == 3
                &&& is_chat(out@[0].message, system_entry(color_word(from_white) + " player resigned"@))
                &&& out@[1].to == Recipient::Everyone && out@[1].message is Resign
                &&& out@[2].to == Recipient::Everyone && is_game_end(out@[2].message, color_word(from_white) + " resigned"@)
            },
    {
        let mut out: Vec<Outgoing> = Vec::new();
        if self.status != GameStatus::InProgress {
            return out;
        }
        let line = join(color_name(from_white), " player resigned");
        let mut chat = self.handle_chat(text("System"), line, true, now);
        out.append(&mut chat);
        out.push(Outgoing { to: Recipient::Everyone, message: NetworkMessage::Resign });
        let end = self.finish(join(color_name(from_white), " resigned"), now);
        out.push(end);
        out
    }

    /// Starts a new game in this session: fresh position, colors swapped when asked, chat
    /// log reset to one notice, and everyone told.
    pub fn reset_game(&mut self, swap_colors: bool, now: u64) -> (out: Vec<Outgoing>)
        requires
            old(self).wf(),
            old(self).black is Some,
        ensures
            final(self).wf(),
            final(self).status == GameStatus::InProgress,
            final(self).chat() == seq![system_entry("A new game has started"@)],
            swap_colors ==> final(self).white == old(self).black && final(self).black == old(self).white,
            !swap_colors ==> final(self).white == old(self).white && final(self).black == old(self).black,
            final(self).game.current_turn == Color::White,
            !final(self).game.game_over,
            forall|r: int, f: int| in_bounds(r, f) ==> #[trigger] final(self).game.board[r][f] == initial_square(r, f),
            final(self).game.white_can_castle_kingside && final(self).game.white_can_castle_queenside,
            final(self).game.black_can_castle_kingside && final(self).game.black_can_castle_queenside,
            final(self).game.en_passant_target is None,
            final(self).game.halfmove_clock == 0,
            final(self).game.fullmove_number == 1,
            final(self).game.promotion_pending is None,
            final(self).game.position_history@ == map![final(self).game.current_hash => 1u32],
            final(self).game.move_cache@ == Map::<u64, Vec<Move>>::empty(),
            final(self).draw_offer is None,
            !final(self).rematch_white && !final(self).rematch_black,
            out@.len() == 4,
            out@[0].to == Recipient::White,
            out@[0].message matches NetworkMessage::RematchAccepted { is_white } && is_white,
            out@[1].to == Recipient::Black,
            out@[1].message matches NetworkMessage::RematchAccepted { is_white } && !is_white,
            out@[2].to == Recipient::Spectators && is_chat(out@[2].message, system_entry("A new game has started"@)),
            out@[3].to == Recipient::Everyone && is_snapshot(out@[3].message, final(self).game),
    {
        self.game = GameState::new();
        self.status = GameStatus::InProgress;
        self.chat_history = Vec::new();
        self.log_system(text("A new game has started"));
        proof {
            assert(self.chat() =~= seq![system_entry("A new game has started"@)]);
        }
        if swap_colors {
            let w = self.white.take();
            let b = self.black.take();
            self.white = b;
            self.black = w;
        }
        self.draw_offer = None;
        self.rematch_white = false;
        self.rematch_black = false;
        self.last_activity = now;
        let mut out: Vec<Outgoing> = Vec::new();
        out.push(Outgoing { to: Recipient::White, message: NetworkMessage::RematchAccepted { is_white: true } });
        out.push(Outgoing { to: Recipient::Black, message: NetworkMessage::RematchAccepted { is_white: false } });
        out.push(Outgoing {
            to: Recipient::Spectators,
            message: NetworkMessage::ChatMessage {
                sender: text("System"),
                message: text("A new game has started"),
                is_spectator: true,
            },
        });
        out.push(Outgoing { to: Recipient::Everyone, message: snapshot(&self.game) });
        out
    }

    /// A rematch request: during the match it is passed on and logged; once the match is
    /// over it is recorded, and when both sides have asked a new game starts with colors
    /// swapped.
    pub fn request_rematch(&mut self, from_white: bool, now: u64) -> (out: Vec<Outgoing>)
        requires
            old(self).wf(),
        ensures
            final(self).wf(),
            old(self).status == GameStatus::Waiting ==> *final(self) == *old(self) && out@.len() == 0,
            old(self).status == GameStatus::InProgress ==> {
                &&& final(self).game == old(self).game
                &&& final(self).status == old(self).status
                &&& final(self).chat() == appended(old(self).chat(), system_entry(color_word(from_white) + " player requested a rematch"@))
                &&& out@.len() == 2
                &&& out@[0].to == other_player(from_white) && out@[0].message is RequestRematch
            },
            old(self).status == GameStatus::Completed ==> {
                let both = (from_white || old(self).rematch_white) && (!from_white || old(self).rematch_black);
                &&& both ==> final(self).status == GameStatus::InProgress && final(self).white == old(self).black
                    && final(self).black == old(self).white && !final(self).game.game_over
                    && final(self).game.current_turn == Color::White
                &&& !both ==> final(self).status == GameStatus::Completed && final(self).game == old(self).game
                    && (from_white ==> final(self).rematch_white) && (!from_white ==> final(self).rematch_black)
                    && out@.len() == 1 && out@[0].to == other_player(from_white) && out@[0].message is RequestRematch
            },
    {
        let mut out: Vec<Outgoing> = Vec::new();
        if self.status == GameStatus::Waiting {
            return out;
        }
        if self.status == GameStatus::InProgress {
            out.push(Outgoing { to: player_recipient(!from_white), message: NetworkMessage::RequestRematch });
            let line = join(color_name(from_white), " player requested a rematch");
            let mut chat = self.handle_chat(text("System"), line, true, now);
            out.append(&mut chat);
            return out;
        }
        if from_white {
            self.rematch_white = true;
        } else {
            self.rematch_black = true;
        }
        if self.rematch_white && self.rematch_black {
            return self.reset_game(true, now);
        }
        self.last_activity = now;
        out.push(Outgoing { to: player_recipient(!from_white), message: NetworkMessage::RequestRematch });
        out
    }

    /// The connection of a player's seat has failed: the seat stays, marked disconnected.
    pub fn player_disconnected(&mut self, white: bool)
        requires
            old(self).wf(),
        ensures
            final(self).wf(),
            white ==> !seat_connected(final(self).white) && final(self).black == old(self).black,
            !white ==> !seat_connected(final(self).black) && final(self).white == old(self).white,
            final(self).game == old(self).game,
            final(self).status == old(self).status,
            final(self).spectators == old(self).spectators,
            final(self).last_activity == old(self).last_activity,
    {
        if white {
            match self.white.take() {
                Some(seat) => {
                    self.white = Some(Seat { conn: seat.conn, name: seat.name, connected: false });
                },
                None => {},
            }
        } else {
            match self.black.take() {
                Some(seat) => {
                    self.black = Some(Seat { conn: seat.conn, name: seat.name, connected: false });
                },
                None => {},
            }
        }
    }

    /// One tick of a running match: with every participant gone it is over; with one player
    /// disconnected, the other connected, and no activity for longer than `MAX_INACTIVE_SECS`,
    /// the absent player forfeits, whichever side is to move.
    pub fn tick(&mut self, now: u64) -> (out: Vec<Outgoing>)
        requires
            old(self).wf(),
        ensures
            final(self).wf(),
            ({
                let s = *old(self);
                let white_on = seat_connected(s.white);
                let black_on = seat_connected(s.black);
                let abandoned = !white_on && !black_on && s.spectators@.len() == 0;
                let forfeit = white_on != black_on && elapsed(s.last_activity, now) > MAX_INACTIVE_SECS;
                &&& s.status != GameStatus::InProgress ==> *final(self) == s && out@.len() == 0
                &&& s.status == GameStatus::InProgress && abandoned ==> final(self).status == GameStatus::Completed && out@.len() == 0
                &&& s.status == GameStatus::InProgress && forfeit ==> {
                    &&& final(self).status == GameStatus::Completed
                    &&& final(self).game == (GameState { game_over: true, ..s.game })
                    &&& out@.len() == 1
                    &&& out@[0].to == Recipient::Everyone
                    &&& is_game_end(out@[0].message, color_word(!white_on) + " player forfeited the game"@)
                }
                &&& s.status == GameStatus::InProgress && !abandoned && !forfeit ==> *final(self) == s && out@.len() == 0
            }),
    {
        let mut out: Vec<Outgoing> = Vec::new();
        if self.status != GameStatus::InProgress {
            return out;
        }
        let white_on = match &self.white {
            Some(seat) => seat.connected,
            None => false,
        };
        let black_on = match &self.black {
            Some(seat) => seat.connected,
            None => false,
        };
        if !white_on && !black_on && self.spectators.len() == 0 {
            self.status = GameStatus::Completed;
            return out;
        }
        let idle = if now >= self.last_activity { now - self.last_activity } else { 0 };
        if white_on != black_on && idle > MAX_INACTIVE_SECS {
            let end = self.finish(join(color_name(!white_on), " player forfeited the game"), now);
            out.push(end);
        }
        out
    }

    /// The match is over and no rematch came within `REMATCH_WINDOW_SECS` of its end.
    pub fn rematch_expired(&self, now: u64) -> (r: bool)
        ensures
            r == (self.status == GameStatus::Completed && elapsed(self.last_activity, now)
                > REMATCH_WINDOW_SECS),
    {
        let idle = if now >= self.last_activity { now - self.last_activity } else { 0 };
        self.status == GameStatus::Completed && idle > REMATCH_WINDOW_SECS
    }

    /// The session may be swept: no spectator remains, and it is over or has been idle for
    /// longer than `MAX_INACTIVE_SECS`.
    pub fn is_inactive(&self, now: u64) -> (r: bool)
        ensures
            r == (self.spectators@.len() == 0 && (self.status == GameStatus::Completed || elapsed(
                self.last_activity,
                now,
            ) > MAX_INACTIVE_SECS)),
    {
        let idle = if now >= self.last_activity { now - self.last_activity } else { 0 };
        self.spectators.len() == 0 && (self.status == GameStatus::Completed || idle > MAX_INACTIVE_SECS)
    }

    pub open spec fn seated(self) -> int {
        (if self.white is Some { 1int } else { 0int }) + (if self.black is Some { 1int } else { 0int })
    }

    pub open spec fn watchers(self) -> int {
        if self.spectators@.len() > 255 { 255 } else { self.spectators@.len() as int }
    }

    pub fn player_count(&self) -> (r: u8)
        ensures
            r == self.seated(),
    {
        let mut count: u8 = 0;
        if self.white.is_some() {
            count = count + 1;
        }
        if self.black.is_some() {
            count = count + 1;
        }
        count
    }

    /// The number of spectators, capped at 255.
    pub fn spectator_count(&self) -> (r: u8)
        ensures
            r == self.watchers(),
    {
        if self.spectators.len() > 255 {
            255
        } else {
            self.spectators.len() as u8
        }
    }

    pub fn info(&self) -> (r: GameInfo)
        ensures
            r.game_id@ == self.id@,
            r.host_name@ == self.host_name@,
            r.status == self.status,
            r.player_count == Some(self.seated() as u8),
            r.spectator_count == self.watchers() as u8,
            r.created_at == self.created_at,
    {
        GameInfo {
            game_id: self.id.clone(),
            host_name: self.host_name.clone(),
            status: self.status,
            player_count: Some(self.player_count()),
            spectator_count: self.spectator_count(),
            created_at: self.created_at,
        }
    }
}

impl Session {
    /// A message from a spectator: only chat is taken; anything else is dropped.
    pub fn handle_spectator_message(&mut self, msg: NetworkMessage, now: u64) -> (out: Vec<Outgoing>)
        requires
            old(self).wf(),
        ensures
            final(self).wf(),
            !(msg is ChatMessage) ==> *final(self) == *old(self) && out@.len() == 0,
            msg matches NetworkMessage::ChatMessage { sender, message, is_spectator } ==> {
                &&& final(self).chat() == appended(old(self).chat(), (sender@, message@, is_spectator))
                &&& out@.len() == 1 && out@[0].to == Recipient::Everyone
                &&& is_chat(out@[0].message, (sender@, message@, is_spectator))
            },
    {
        match msg {
            NetworkMessage::ChatMessage { sender, message, is_spectator } => self.handle_chat(
                sender,
                message,
                is_spectator,
                now,
            ),
            _ => Vec::new(),
        }
    }

    /// A message from a player. Moves count only from the side to move (see `handle_move`);
    /// chat, draw, resignation and rematch messages are taken from either side at any time;
    /// anything else is dropped.
    pub fn handle_player_message(&mut self, from_white: bool, msg: NetworkMessage, now: u64) -> (out: Vec<
        Outgoing,
    >)
        requires
            old(self).wf(),
        ensures
            final(self).wf(),
            !(msg is Move || msg is ChatMessage || msg is OfferDraw || msg is AcceptDraw
                || msg is DeclineDraw || msg is Resign || msg is RequestRematch) ==> *final(self)
                == *old(self) && out@.len() == 0,
            msg matches NetworkMessage::Move { from, to, promotion } ==> {
                let handled = old(self).status == GameStatus::InProgress && side(from_white)
                    == old(self).game.current_turn && request_ok(old(self).game, from, to, promotion);
                &&& !handled ==> *final(self) == *old(self) && out@.len() == 0
                &&& handled ==> request_done(
                    old(self).game,
                    GameState { game_over: old(self).game.game_over, ..final(self).game },
                    from,
                    to,
                    promotion,
                ) && is_snapshot(out@[0].message, final(self).game)
            },
            msg matches NetworkMessage::ChatMessage { sender, message, is_spectator } ==> final(self).chat() == appended(old(self).chat(), (sender@, message@, is_spectator)),
            msg is Resign ==> (old(self).status == GameStatus::InProgress ==> final(self).status
                == GameStatus::Completed && final(self).game.game_over) && (old(self).status
                != GameStatus::InProgress ==> *final(self) == *old(self)),
            msg is OfferDraw ==> final(self).draw_offer == if old(self).status == GameStatus::InProgress {
                Some(side(from_white))
            } else {
                old(self).draw_offer
            },
            msg is AcceptDraw ==> (old(self).status == GameStatus::InProgress && old(self).draw_offer
                == Some(side(!from_white))) == (final(self).status == GameStatus::Completed
                && old(self).status != GameStatus::Completed),
            msg is DeclineDraw && old(self).draw_offer == Some(side(!from_white)) ==> final(self).draw_offer is None,
            msg is RequestRematch && old(self).status == GameStatus::Completed && old(self).rematch_white
                && !from_white ==> final(self).status == GameStatus::InProgress,
            msg is RequestRematch && old(self).status == GameStatus::Completed && old(self).rematch_black
                && from_white ==> final(self).status == GameStatus::InProgress,
    {
        match msg {
            NetworkMessage::Move { from, to, promotion } => {
                let mv = MoveInfo { from, to, promotion };
                self.handle_move(from_white, &mv, now)
            },
            NetworkMessage::ChatMessage { sender, message, is_spectator } => self.handle_chat(
                sender,
                message,
                is_spectator,
                now,
            ),
            NetworkMessage::OfferDraw => self.offer_draw(from_white, now),
            NetworkMessage::AcceptDraw => self.accept_draw(from_white, now),
            NetworkMessage::DeclineDraw => self.decline_draw(from_white, now),
            NetworkMessage::Resign => self.resign(from_white, now),
            NetworkMessage::RequestRematch => self.request_rematch(from_white, now),
            _ => Vec::new(),
        }
    }
}

/// `info` is what the session list reports of `s`.
pub open spec fn describes(info: GameInfo, s: Session) -> bool {
    &&& info.game_id@ == s.id@
    &&& info.host_name@ == s.host_name@
    &&& info.status == s.status
    &&& info.player_count == Some(s.seated() as u8)
    &&& info.spectator_count == s.watchers() as u8
    &&& info.created_at == s.created_at
}

/// Why a connection could not be bound to a session.
#[derive(Debug, Clone, Copy, PartialEq, Eq, Structural)]
pub enum SessionError {
    /// No session has that id.
    NotFound,
    /// The session takes no more players.
    Unavailable,
}

/// The session (by id) and the role a connection was bound to.
#[derive(Debug)]
pub enum Binding {
    White(String),
    Black(String),
    Spectator(String),
}

/// What negotiating one message of a fresh connection led to.
#[derive(Debug)]
pub struct Negotiated {
    pub bound: Option<Binding>,
    pub out: Vec<Outgoing>,
}

/// The sessions that run at one time, each under its own id.
pub struct Registry {
    pub sessions: Vec<Session>,
}

/// Relies on uuid::Uuid::new_v4 and the hyphenated form its Display writes: a random
/// identifier of 36 characters.
#[verifier::external_body]
fn new_session_id() -> (r: String)
    ensures
        r@.len() == 36,
{
    uuid::Uuid::new_v4().to_string()
}

impl Registry {
    pub open spec fn wf(self) -> bool {
        &&& forall|i: int| 0 <= i < self.sessions@.len() ==> #[trigger] self.sessions@[i].wf()
        &&& forall|i: int, j: int|
            0 <= i < self.sessions@.len() && 0 <= j < self.sessions@.len() && i != j
                ==> #[trigger] self.sessions@[i].id@ != #[trigger] self.sessions@[j].id@
    }

    pub open spec fn has_id(self, id: Seq<char>) -> bool {
        exists|i: int| 0 <= i < self.sessions@.len() && #[trigger] self.sessions@[i].id@ == id
    }

    pub fn new() -> (r: Registry)
        ensures
            r.wf(),
            r.sessions@.len() == 0,
    {
        Registry { sessions: Vec::new() }
    }

    /// The index of the session with id `id`.
    pub fn find(&self, id: &str) -> (r: Option<usize>)
        ensures
            match r {
                Some(i) => i < self.sessions@.len() && self.sessions@[i as int].id@ == id@,
                None => !self.has_id(id@),
            },
    {
        let key = String::from_str(id);
        let mut i: usize = 0;
        while i < self.sessions.len()
            invariant
                i <= self.sessions@.len(),
                key@ == id@,
                forall|j: int| 0 <= j < i ==> #[trigger] self.sessions@[j].id@ != id@,
            decreases self.sessions@.len() - i,
        {
            if self.sessions[i].id == key {
                return Some(i);
            }
            i = i + 1;
        }
        None
    }

    /// Opens a session under `id`, its creator seated as White; false, changing nothing,
    /// when the id is taken.
    pub fn open_session(&mut self, id: String, host_name: String, conn: u64, now: u64) -> (r: bool)
        requires
            old(self).wf(),
        ensures
            final(self).wf(),
            r == !old(self).has_id(id@),
            !r ==> final(self).sessions@ == old(self).sessions@,
            r ==> final(self).sessions@.drop_last() == old(self).sessions@,
            r ==> {
                let s = final(self).sessions@.last();
                &&& final(self).sessions@.len() == old(self).sessions@.len() + 1
                &&& s.id@ == id@
                &&& s.host_name@ == host_name@
                &&& s.status == GameStatus::Waiting
                &&& s.white matches Some(seat) && seat.conn == conn
                &&& s.black is None
            },
    {
        match self.find(id.as_str()) {
            Some(_) => false,
            None => {
                let session = Session::new(id, host_name, conn, now);
                let ghost before = self.sessions@;
                self.sessions.push(session);
                proof {
                    assert(self.sessions@.drop_last() =~= before);
                }
                true
            },
        }
    }

    /// Creates a session under a freshly drawn 36-character id; `None` only when the id drawn
    /// is already taken, which needs a session whose id has 36 characters.
    pub fn create_game(&mut self, host_name: String, conn: u64, now: u64) -> (r: Option<String>)
        requires
            old(self).wf(),
        ensures
            final(self).wf(),
            r is None ==> final(self).sessions@ == old(self).sessions@,
            r is None ==> exists|i: int|
                0 <= i < old(self).sessions@.len() && (#[trigger] old(self).sessions@[i]).id@.len() == 36,
            (forall|i: int| 0 <= i < old(self).sessions@.len() ==> (#[trigger] old(self).sessions@[i]).id@.len() != 36)
                ==> r is Some,
            r matches Some(id) ==> id@.len() == 36 && !old(self).has_id(id@)
                && final(self).sessions@.len() == old(self).sessions@.len() + 1
                && final(self).sessions@.drop_last() == old(self).sessions@
                && final(self).sessions@.last().id@ == id@
                && final(self).sessions@.last().host_name@ == host_name@
                && final(self).sessions@.last().status == GameStatus::Waiting
                && (final(self).sessions@.last().white matches Some(seat) && seat.conn == conn),
    {
        let id = new_session_id();
        if self.open_session(id.clone(), host_name, conn, now) {
            Some(id)
        } else {
            None
        }
    }

    /// Seats a player as Black in the session `game_id` and starts its match. Rejected,
    /// changing nothing, when no such session exists, or it is not waiting, or its Black
    /// seat is taken.
    pub fn join_game(&mut self, game_id: &str, player_name: String, conn: u64, now: u64) -> (r: Result<
        Vec<Outgoing>,
        SessionError,
    >)
        requires
            old(self).wf(),
        ensures
            final(self).wf(),
            final(self).sessions@.len() == old(self).sessions@.len(),
            r == Err::<Vec<Outgoing>, SessionError>(SessionError::NotFound) <==> !old(self).has_id(game_id@),
            r is Err ==> final(self).sessions@ == old(self).sessions@,
            forall|i: int|
                0 <= i < old(self).sessions@.len() && #[trigger] old(self).sessions@[i].id@ == game_id@ ==> {
                    let s = old(self).sessions@[i];
                    let t = final(self).sessions@[i];
                    &&& (r == Err::<Vec<Outgoing>, SessionError>(SessionError::Unavailable)) == !(
                    s.status == GameStatus::Waiting && s.black is None)
                    &&& r is Ok ==> t.status == GameStatus::InProgress && (t.black matches Some(
                        seat,
                    ) && seat.conn == conn && seat.name@ == player_name@)
                    &&& r is Ok ==> t.id@ == s.id@ && t.game == s.game
                },
            forall|i: int|
                0 <= i < old(self).sessions@.len() && old(self).sessions@[i].id@ != game_id@
                    ==> #[trigger] final(self).sessions@[i] == old(self).sessions@[i],
    {
        let i = match self.find(game_id) {
            Some(i) => i,
            None => return Err(SessionError::NotFound),
        };
        let ghost before = self.sessions@;
        let mut session = self.sessions.remove(i);
        if !session.seat_black(conn, player_name) {
            self.sessions.insert(i, session);
            proof {
                assert(self.sessions@ =~= before);
            }
            return Err(SessionError::Unavailable);
        }
        let out = session.start(now);
        self.sessions.insert(i, session);
        proof {
            assert forall|j: int| 0 <= j < before.len() && j != i implies #[trigger] self.sessions@[j] == before[j] by {}
        }
        Ok(out)
    }

    /// Binds a spectator to the session `game_id`, at any status (see `Session::add_spectator`).
    pub fn spectate_game(&mut self, game_id: &str, name: String, conn: u64, now: u64) -> (r: Result<
        Vec<Outgoing>,
        SessionError,
    >)
        requires
            old(self).wf(),
        ensures
            final(self).wf(),
            final(self).sessions@.len() == old(self).sessions@.len(),
            r is Err <==> !old(self).has_id(game_id@),
            r is Err ==> r == Err::<Vec<Outgoing>, SessionError>(SessionError::NotFound) && final(self).sessions@ == old(self).sessions@,
            forall|i: int|
                0 <= i < old(self).sessions@.len() && #[trigger] old(self).sessions@[i].id@ == game_id@ ==> {
                    let s = old(self).sessions@[i];
                    let t = final(self).sessions@[i];
                    &&& t.spectators@.len() == s.spectators@.len() + 1
                    &&& t.spectators@.last().conn == conn
                    &&& t.game == s.game
                    &&& t.status == s.status
                    &&& r matches Ok(out) && out@.len() == 3 + s.chat().len()
                        && out@[1].to == Recipient::Connection(conn) && is_snapshot(out@[1].message, s.game)
                        && (forall|k: int| 0 <= k < s.chat().len() ==> #[trigger] out@[k + 2].to == Recipient::Connection(conn)
                            && is_chat(out@[k + 2].message, s.chat()[k]))
                },
            forall|i: int|
                0 <= i < old(self).sessions@.len() && old(self).sessions@[i].id@ != game_id@
                    ==> #[trigger] final(self).sessions@[i] == old(self).sessions@[i],
    {
        let i = match self.find(game_id) {
            Some(i) => i,
            None => return Err(SessionError::NotFound),
        };
        let ghost before = self.sessions@;
        let mut session = self.sessions.remove(i);
        let out = session.add_spectator(conn, name, now);
        self.sessions.insert(i, session);
        proof {
            assert forall|j: int| 0 <= j < before.len() && j != i implies #[trigger] self.sessions@[j] == before[j] by {}
        }
        Ok(out)
    }

    /// What the session list reports, one entry per session, in order.
    pub fn game_list(&self) -> (r: Vec<GameInfo>)
        ensures
            r@.len() == self.sessions@.len(),
            forall|i: int| 0 <= i < r@.len() ==> #[trigger] describes(r@[i], self.sessions@[i]),
    {
        let mut r: Vec<GameInfo> = Vec::new();
        let mut i: usize = 0;
        while i < self.sessions.len()
            invariant
                i <= self.sessions@.len(),
                r@.len() == i,
                forall|j: int| 0 <= j < i ==> #[trigger] describes(r@[j], self.sessions@[j]),
            decreases self.sessions@.len() - i,
        {
            let info = self.sessions[i].info();
            let ghost before = r@;
            r.push(info);
            proof {
                assert forall|j: int| 0 <= j < i + 1 implies #[trigger] describes(r@[j], self.sessions@[j]) by {
                    if j < i {
                        assert(r@[j] == before[j]);
                    }
                }
            }
            i = i + 1;
        }
        r
    }

    /// Removes every session that `Session::is_inactive` reports at `now`, keeping the order of
    /// the others; returns how many went.
    pub fn sweep(&mut self, now: u64) -> (removed: usize)
        requires
            old(self).wf(),
        ensures
            final(self).wf(),
            forall|k: int|
                0 <= k < final(self).sessions@.len() ==> old(self).sessions@.contains(
                    #[trigger] final(self).sessions@[k],
                ) && still_active(final(self).sessions@[k], now),
            forall|j: int|
                0 <= j < old(self).sessions@.len() && still_active(#[trigger] old(self).sessions@[j], now)
                    ==> final(self).sessions@.contains(old(self).sessions@[j]),
            removed == old(self).sessions@.len() - final(self).sessions@.len(),
    {
        let ghost all = self.sessions@;
        let ghost mut idx: Seq<int> = Seq::empty();
        let mut kept: Vec<Session> = Vec::new();
        let total = self.sessions.len();
        let mut i: usize = 0;
        while self.sessions.len() > 0
            invariant
                i + self.sessions@.len() == total,
                total == all.len(),
                self.sessions@ == all.subrange(i as int, total as int),
                kept@.len() == idx.len(),
                kept@.len() <= i,
                forall|k: int| 0 <= k < idx.len() ==> 0 <= #[trigger] idx[k] < i && kept@[k] == all[idx[k]],
                forall|k1: int, k2: int| 0 <= k1 < k2 < idx.len() ==> #[trigger] idx[k1] < #[trigger] idx[k2],
                forall|k: int| 0 <= k < kept@.len() ==> still_active(#[trigger] kept@[k], now),
                forall|j: int|
                    0 <= j < i && still_active(#[trigger] all[j], now) ==> exists|k: int|
                        0 <= k < idx.len() && idx[k] == j,
            decreases self.sessions@.len(),
        {
            let s = self.sessions.remove(0);
            let ghost old_idx = idx;
            proof {
                assert(s == all[i as int]);
            }
            if !s.is_inactive(now) {
                kept.push(s);
                proof {
                    idx = idx.push(i as int);
                }
            }
            proof {
                assert(self.sessions@ =~= all.subrange(i + 1, total as int));
                assert forall|j: int| 0 <= j < i + 1 && still_active(#[trigger] all[j], now) implies exists|k: int|
                    0 <= k < idx.len() && idx[k] == j by {
                    if j == i {
                        assert(idx[idx.len() - 1] == j);
                    } else {
                        let k = choose|k: int| 0 <= k < old_idx.len() && old_idx[k] == j;
                        assert(idx[k] == j);
                    }
                }
            }
            i = i + 1;
        }
        proof {
            assert forall|k: int| 0 <= k < kept@.len() implies all.contains(#[trigger] kept@[k]) by {
                assert(all[idx[k]] == kept@[k]);
            }
            assert forall|j: int| 0 <= j < all.len() && still_active(#[trigger] all[j], now) implies kept@.contains(all[j]) by {
                let k = choose|k: int| 0 <= k < idx.len() && idx[k] == j;
                assert(kept@[k] == all[j]);
            }
            assert forall|a: int, b: int|
                0 <= a < kept@.len() && 0 <= b < kept@.len() && a != b implies #[trigger] kept@[a].id@ != #[trigger] kept@[b].id@ by {
                if a < b {
                    assert(idx[a] < idx[b]);
                } else {
                    assert(idx[b] < idx[a]);
                }
            }
            assert forall|k: int| 0 <= k < kept@.len() implies #[trigger] kept@[k].wf() by {
                assert(all[idx[k]] == kept@[k]);
            }
        }
        let removed = total - kept.len();
        self.sessions = kept;
        removed
    }
}

/// The session is kept by a sweep at `now` (see `Session::is_inactive`).
pub open spec fn still_active(s: Session, now: u64) -> bool {
    !(s.spectators@.len() == 0 && (s.status == GameStatus::Completed || elapsed(s.last_activity, now)
        > MAX_INACTIVE_SECS))
}

impl Registry {
    /// One message of a connection not yet bound to a session. Only CreateGame, JoinGame,
    /// SpectateGame, RequestGameList and Heartbeat are taken; a rejected request, or any
    /// other message, changes nothing and binds nothing.
    pub fn negotiate(&mut self, conn: u64, msg: NetworkMessage, now: u64) -> (r: Negotiated)
        requires
            old(self).wf(),
        ensures
            final(self).wf(),
            !(msg is CreateGame || msg is JoinGame || msg is SpectateGame || msg is RequestGameList
                || msg is Heartbeat) ==> final(self).sessions@ == old(self).sessions@ && r.bound is None
                && r.out@.len() == 0,
            msg is CreateGame ==> (r.bound is Some <==> final(self).sessions@.len() == old(self).sessions@.len() + 1),
            msg is CreateGame && (forall|i: int| 0 <= i < old(self).sessions@.len() ==> (#[trigger] old(self).sessions@[i]).id@.len() != 36)
                ==> r.bound is Some,
            msg is CreateGame && r.bound is Some ==> (r.bound matches Some(Binding::White(id)) && id@ == final(self).sessions@.last().id@
                && r.out@.len() == 1 && r.out@[0].to == Recipient::Connection(conn)
                && (r.out@[0].message matches NetworkMessage::GameCreated { game_id } && game_id@ == id@)),
            msg matches NetworkMessage::JoinGame { game_id, player_name } ==> (r.bound is Some <==> (exists|i: int|
                0 <= i < old(self).sessions@.len() && #[trigger] old(self).sessions@[i].id@ == game_id@
                    && old(self).sessions@[i].status == GameStatus::Waiting && old(self).sessions@[i].black is None)),
            msg matches NetworkMessage::JoinGame { game_id, player_name } ==> (r.bound is None ==> final(self).sessions@ == old(self).sessions@ && r.out@.len() == 0),
            msg matches NetworkMessage::JoinGame { game_id, player_name } ==> (r.bound is Some ==> (r.bound matches Some(Binding::Black(id)) && id@ == game_id@)),
            msg matches NetworkMessage::SpectateGame { game_id, spectator_name } ==> {
                &&& r.bound is Some <==> old(self).has_id(game_id@)
                &&& r.bound is None ==> final(self).sessions@ == old(self).sessions@ && r.out@.len() == 0
                &&& r.bound is Some ==> (r.bound matches Some(Binding::Spectator(id)) && id@ == game_id@)
            },
            msg is RequestGameList ==> final(self).sessions@ == old(self).sessions@ && r.bound is None
                && r.out@.len() == 1 && r.out@[0].to == Recipient::Connection(conn)
                && (r.out@[0].message matches NetworkMessage::GameList { available_games }
                    && available_games@.len() == old(self).sessions@.len()
                    && forall|i: int| 0 <= i < available_games@.len() ==> #[trigger] describes(available_games@[i], old(self).sessions@[i])),
            msg is Heartbeat ==> final(self).sessions@ == old(self).sessions@ && r.bound is None
                && r.out@.len() == 1 && r.out@[0].to == Recipient::Connection(conn) && r.out@[0].message is Heartbeat,
    {
        let mut out: Vec<Outgoing> = Vec::new();
        match msg {
            NetworkMessage::CreateGame { player_name } => {
                match self.create_game(player_name, conn, now) {
                    Some(id) => {
                        out.push(Outgoing {
                            to: Recipient::Connection(conn),
                            message: NetworkMessage::GameCreated { game_id: id.clone() },
                        });
                        Negotiated { bound: Some(Binding::White(id)), out }
                    },
                    None => Negotiated { bound: None, out },
                }
            },
            NetworkMessage::JoinGame { game_id, player_name } => {
                match self.join_game(game_id.as_str(), player_name, conn, now) {
                    Ok(started) => {
                        proof {
                            assert(old(self).has_id(game_id@));
                            let i = choose|i: int| 0 <= i < old(self).sessions@.len() && #[trigger] old(self).sessions@[i].id@ == game_id@;
                            assert(old(self).sessions@[i].status == GameStatus::Waiting && old(self).sessions@[i].black is None);
                        }
                        Negotiated { bound: Some(Binding::Black(game_id)), out: started }
                    },
                    Err(e) => {
                        proof {
                            if exists|i: int|
                                0 <= i < old(self).sessions@.len() && #[trigger] old(self).sessions@[i].id@ == game_id@
                                    && old(self).sessions@[i].status == GameStatus::Waiting && old(self).sessions@[i].black is None {
                                let i = choose|i: int|
                                    0 <= i < old(self).sessions@.len() && #[trigger] old(self).sessions@[i].id@ == game_id@
                                        && old(self).sessions@[i].status == GameStatus::Waiting && old(self).sessions@[i].black is None;
                                assert(old(self).has_id(game_id@));
                                assert(e != SessionError::NotFound);
                                assert(e == SessionError::Unavailable);
                                assert(false);
                            }
                        }
                        Negotiated { bound: None, out }
                    },
                }
            },
            NetworkMessage::SpectateGame { game_id, spectator_name } => {
                match self.spectate_game(game_id.as_str(), spectator_name, conn, now) {
                    Ok(replay) => Negotiated { bound: Some(Binding::Spectator(game_id)), out: replay },
                    Err(_) => Negotiated { bound: None, out },
                }
            },
            NetworkMessage::RequestGameList => {
                out.push(Outgoing {
                    to: Recipient::Connection(conn),
                    message: NetworkMessage::GameList { available_games: self.game_list() },
                });
                Negotiated { bound: None, out }
            },
            NetworkMessage::Heartbeat => {
                out.push(Outgoing { to: Recipient::Connection(conn), message: NetworkMessage::Heartbeat });
                Negotiated { bound: None, out }
            },
            _ => Negotiated { bound: None, out },
        }
    }
}

} // verus!