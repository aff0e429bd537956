// A chess rules engine and the decision logic of a multiplayer session server.
//
// piece:   pieces, the board, and per-piece move candidates
// zobrist: the key table of the position hash
// board:   the game state: legal moves, special moves, hashing, check and draw detection
// network: the wire protocol's messages, line framing, and client reconnection rules
// server:  sessions (turn order, draws, resignation, rematch, forfeit, chat) and the registry
pub mod piece;
pub mod zobrist;
pub mod board;
pub mod network;
pub mod server;
