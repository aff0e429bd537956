use crate::piece::{Color, PieceType};
use vstd::prelude::*;

verus! {

/// One message of the wire protocol; on the wire, one JSON text per line.
#[derive(Debug)]
pub enum NetworkMessage {
    Move { from: (u8, u8), to: (u8, u8), promotion: Option<char> },
    GameStart { is_white: bool, game_id: String, opponent_name: String },
    GameEnd { reason: String },
    GameState {
        board: [[Option<(PieceType, Color)>; 8]; 8],
        current_turn: Color,
        promotion_pending: Option<(usize, usize, Color)>,
        game_over: bool,
    },
    CreateGame { player_name: String },
    JoinGame { game_id: String, player_name: String },
    SpectateGame { game_id: String, spectator_name: String },
    GameCreated { game_id: String },
    GameList { available_games: Vec<GameInfo> },
    RequestGameList,
    OfferDraw,
    AcceptDraw,
    DeclineDraw,
    Resign,
    RequestRematch,
    RematchAccepted { is_white: bool },
    DrawOffered,
    Heartbeat,
    ChatMessage { sender: String, message: String, is_spectator: bool },
    SpectatorJoined { name: String },
    SpectatorLeft { name: String },
    ConnectionStatus { connected: bool, message: String },
}

/// What the session list reports of one session.
#[derive(Debug, Clone)]
pub struct GameInfo {
    pub game_id: String,
    pub host_name: String,
    pub status: GameStatus,
    pub player_count: Option<u8>,
    pub spectator_count: u8,
    pub created_at: u64,
}

#[derive(Debug, Clone, Copy, PartialEq, Eq, Structural)]
pub enum GameStatus {
    Waiting,
    InProgress,
    Completed,
}

#[derive(Debug, Clone, Copy, PartialEq, Eq, Structural)]
pub enum ClientRole {
    Player { is_white: bool },
    Spectator,
}

/// A move request as the presentation layer hands it over.
#[derive(Debug, Clone, Copy)]
pub struct MoveInfo {
    pub from: (u8, u8),
    pub to: (u8, u8),
    pub promotion: Option<char>,
}

pub const NEWLINE: u8 = 10;

/// The index of the first newline byte of `s`, if any.
pub open spec fn first_newline(s: Seq<u8>) -> Option<int> {
    if exists|i: int| 0 <= i < s.len() && s[i] == NEWLINE {
        Some(
            choose|i: int|
                0 <= i < s.len() && s[i] == NEWLINE && forall|j: int| 0 <= j < i ==> s[j] != NEWLINE,
        )
    } else {
        None
    }
}

/// Takes the first complete frame (the bytes before the first newline) off the front of
/// `buffer`, newline included; `None`, leaving `buffer` as it is, when no newline has come yet.
pub fn take_frame(buffer: &mut Vec<u8>) -> (frame: Option<Vec<u8>>)
    ensures
        match first_newline(old(buffer)@) {
            Some(i) => frame is Some && frame->Some_0@ == old(buffer)@.subrange(0, i)
                && final(buffer)@ == old(buffer)@.subrange(i + 1, old(buffer)@.len() as int),
            None => frame is None && final(buffer)@ == old(buffer)@,
        },
{
    let mut i: usize = 0;
    while i < buffer.len()
        invariant
            i <= buffer@.len(),
            buffer@ == old(buffer)@,
            forall|j: int| 0 <= j < i ==> buffer@[j] != NEWLINE,
        decreases buffer@.len() - i,
    {
        if buffer[i] == NEWLINE {
            let ghost s = old(buffer)@;
            proof {
                let k = choose|k: int|
                    0 <= k < s.len() && s[k] == NEWLINE && forall|j: int| 0 <= j < k ==> s[j] != NEWLINE;
                assert(0 <= i < s.len() && s[i as int] == NEWLINE && forall|j: int|
                    0 <= j < i ==> s[j] != NEWLINE);
                assert(k == i) by {
                    if k < i {
                        assert(s[k] != NEWLINE);
                    }
                    if k > i {
                        assert(s[i as int] != NEWLINE);
                    }
                }
            }
            let mut frame: Vec<u8> = Vec::new();
            let mut j: usize = 0;
            while j < i
                invariant
                    j <= i,
                    i < buffer@.len(),
                    buffer@ == s,
                    frame@ == s.subrange(0, j as int),
                decreases i - j,
            {
                frame.push(buffer[j]);
                j = j + 1;
                assert(frame@ =~= s.subrange(0, j as int));
            }
            let mut rest: Vec<u8> = Vec::new();
            let mut k: usize = i + 1;
            while k < buffer.len()
                invariant
                    i < k <= buffer@.len(),
                    buffer@ == s,
                    rest@ == s.subrange(i + 1, k as int),
                decreases buffer@.len() - k,
            {
                rest.push(buffer[k]);
                k = k + 1;
                assert(rest@ =~= s.subrange(i + 1, k as int));
            }
            *buffer = rest;
            return Some(frame);
        }
        i = i + 1;
    }
    None
}

pub open spec fn promotion_choice(c: char) -> Option<PieceType> {
    if c == 'Q' {
        Some(PieceType::Queen)
    } else if c == 'R' {
        Some(PieceType::Rook)
    } else if c == 'B' {
        Some(PieceType::Bishop)
    } else if c == 'N' {
        Some(PieceType::Knight)
    } else {
        None
    }
}

/// The piece a promotion letter names: Q, R, B or N.
pub fn promotion_piece(c: char) -> (r: Option<PieceType>)
    ensures
        r == promotion_choice(c),
{
    if c == 'Q' {
        Some(PieceType::Queen)
    } else if c == 'R' {
        Some(PieceType::Rook)
    } else if c == 'B' {
        Some(PieceType::Bishop)
    } else if c == 'N' {
        Some(PieceType::Knight)
    } else {
        None
    }
}

/// Reconnection attempts a client makes before it gives up.
pub const RECONNECT_ATTEMPTS: u32 = 3;

/// The pause after the first failed reconnection attempt; it doubles after each further one.
pub const BACKOFF_BASE_MS: u64 = 500;

/// Seconds of silence after which a client sends a heartbeat.
pub const HEARTBEAT_INTERVAL_SECS: u64 = 30;

pub open spec fn backoff(attempt: nat) -> nat
    decreases attempt,
{
    if attempt <= 1 {
        BACKOFF_BASE_MS as nat
    } else {
        2 * backoff((attempt - 1) as nat)
    }
}

/// The pause after failed reconnection attempt `attempt` (counted from 1): exponential
/// backoff; `None` once the last attempt has failed and reconnection is given up.
pub fn reconnect_backoff_ms(attempt: u32) -> (r: Option<u64>)
    ensures
        r == if 1 <= attempt < RECONNECT_ATTEMPTS {
            Some(backoff(attempt as nat) as u64)
        } else {
            None::<u64>
        },
{
    if attempt < 1 || attempt >= RECONNECT_ATTEMPTS {
        return None;
    }
    let mut delay: u64 = BACKOFF_BASE_MS;
    let mut i: u32 = 1;
    while i < attempt
        invariant
            1 <= i <= attempt,
            attempt < RECONNECT_ATTEMPTS,
            delay == backoff(i as nat),
            delay <= 1000,
        decreases attempt - i,
    {
        delay = delay * 2;
        i = i + 1;
    }
    Some(delay)
}

/// A client that has sent and heard nothing for longer than `HEARTBEAT_INTERVAL_SECS` sends
/// a heartbeat.
pub fn heartbeat_due(last_heartbeat: u64, now: u64) -> (r: bool)
    ensures
        r == (now >= last_heartbeat && now - last_heartbeat > HEARTBEAT_INTERVAL_SECS),
{
    now >= last_heartbeat && now - last_heartbeat > HEARTBEAT_INTERVAL_SECS
}

} // verus!
