use chess::board::GameState;
use chess::network::{heartbeat_due, promotion_piece, reconnect_backoff_ms, take_frame, MoveInfo};
use chess::piece::{Color, Piece, PieceType};
use chess::server::apply_move_request;

fn play(state: &mut GameState, moves: &[((usize, usize), (usize, usize))]) {
    for (from, to) in moves {
        assert!(state.make_move(*from, *to), "move {:?} -> {:?} rejected", from, to);
    }
}

#[test]
fn double_pawn_push_from_initial_position() {
    let mut state = GameState::new();
    assert!(state.make_move((6, 4), (4, 4)));
    assert_eq!(state.current_turn, Color::Black);
    assert_eq!(state.halfmove_clock, 0);
    assert_eq!(state.en_passant_target, Some((5, 4)));
    assert!(state.board[6][4].is_none());
    assert_eq!(state.board[4][4].unwrap().piece_type, PieceType::Pawn);
}

#[test]
fn kingside_castling_moves_rook_and_clears_rights() {
    let mut state = GameState::new();
    play(
        &mut state,
        &[
            ((6, 4), (4, 4)),
            ((1, 4), (3, 4)),
            ((7, 6), (5, 5)),
            ((0, 1), (2, 2)),
            ((7, 5), (4, 2)),
            ((0, 5), (3, 2)),
        ],
    );
    assert!(state.make_move((7, 4), (7, 6)));
    let king = state.board[7][6].unwrap();
    let rook = state.board[7][5].unwrap();
    assert_eq!(king.piece_type, PieceType::King);
    assert_eq!(rook.piece_type, PieceType::Rook);
    assert!(state.board[7][4].is_none());
    assert!(state.board[7][7].is_none());
    assert!(!state.white_can_castle_kingside);
    assert!(!state.white_can_castle_queenside);
    assert!(state.black_can_castle_kingside);
    assert_eq!(state.current_turn, Color::Black);
}

#[test]
fn castling_through_an_occupied_square_is_rejected() {
    let mut state = GameState::new();
    assert!(!state.make_move((7, 4), (7, 6)));
    assert_eq!(state.current_turn, Color::White);
    assert!(state.white_can_castle_kingside);
}

fn reach_black_promotion(state: &mut GameState) {
    play(
        state,
        &[
            ((6, 7), (4, 7)),
            ((1, 6), (3, 6)),
            ((4, 7), (3, 6)),
            ((1, 7), (3, 7)),
            ((6, 0), (5, 0)),
            ((3, 7), (4, 7)),
            ((5, 0), (4, 0)),
            ((4, 7), (5, 7)),
            ((4, 0), (3, 0)),
            ((5, 7), (6, 7)),
            ((3, 0), (2, 0)),
        ],
    );
}

#[test]
fn black_promotion_suspends_turn_until_choice() {
    let mut state = GameState::new();
    reach_black_promotion(&mut state);
    assert!(state.make_move((6, 7), (7, 6)));
    assert_eq!(state.current_turn, Color::Black);
    assert!(!state.is_game_over());
    assert!(state.promotion_pending.is_some());
    // no other move while the choice is pending
    assert!(!state.make_move((1, 0), (2, 0)));
    assert!(state.promote_pawn(PieceType::Queen));
    assert_eq!(state.current_turn, Color::White);
    let queen = state.board[7][6].unwrap();
    assert_eq!(queen.piece_type, PieceType::Queen);
    assert_eq!(queen.color, Color::Black);
    assert!(state.promotion_pending.is_none());
}

#[test]
fn promotion_to_king_or_pawn_is_refused() {
    let mut state = GameState::new();
    reach_black_promotion(&mut state);
    assert!(state.make_move((6, 7), (7, 6)));
    assert!(!state.promote_pawn(PieceType::King));
    assert!(!state.promote_pawn(PieceType::Pawn));
    assert!(state.promotion_pending.is_some());
    assert!(state.promote_pawn(PieceType::Knight));
}

#[test]
fn promote_without_pending_is_refused() {
    let mut state = GameState::new();
    assert!(!state.promote_pawn(PieceType::Queen));
    assert_eq!(state.current_turn, Color::White);
}

#[test]
fn move_request_carries_promotion_choice() {
    let mut state = GameState::new();
    reach_black_promotion(&mut state);
    let mv = MoveInfo { from: (6, 7), to: (7, 6), promotion: Some('N') };
    assert!(apply_move_request(&mut state, &mv));
    assert_eq!(state.board[7][6].unwrap().piece_type, PieceType::Knight);
    assert_eq!(state.current_turn, Color::White);
}

#[test]
fn knight_shuffle_reaches_threefold_repetition() {
    let mut state = GameState::new();
    let start = state.current_hash;
    let shuffle = [((7, 6), (5, 5)), ((0, 6), (2, 5)), ((5, 5), (7, 6)), ((2, 5), (0, 6))];
    play(&mut state, &shuffle);
    assert_eq!(state.current_hash, start);
    assert!(!state.is_threefold_repetition());
    play(&mut state, &shuffle);
    assert_eq!(state.current_hash, start);
    assert!(state.is_threefold_repetition());
    assert!(state.is_draw());
}

#[test]
fn move_leaving_king_in_check_is_rejected() {
    let mut state = GameState::new();
    play(&mut state, &[((6, 4), (4, 4)), ((1, 4), (3, 4)), ((6, 3), (5, 3)), ((0, 5), (4, 1))]);
    assert!(state.is_in_check(Color::White));
    assert!(!state.make_move((6, 0), (5, 0)));
    // blocking with the pawn is legal
    assert!(state.make_move((6, 2), (5, 2)));
    assert!(!state.is_in_check(Color::White));
}

#[test]
fn en_passant_removes_pawn_beside_origin() {
    let mut state = GameState::new();
    play(&mut state, &[((6, 4), (4, 4)), ((1, 0), (2, 0)), ((4, 4), (3, 4)), ((1, 3), (3, 3))]);
    assert_eq!(state.en_passant_target, Some((2, 3)));
    assert!(state.make_move((3, 4), (2, 3)));
    assert!(state.board[3][3].is_none());
    assert_eq!(state.board[2][3].unwrap().color, Color::White);
    assert_eq!(state.halfmove_clock, 0);
}

#[test]
fn diagonal_pawn_step_without_target_is_rejected() {
    let mut state = GameState::new();
    play(
        &mut state,
        &[((6, 4), (4, 4)), ((1, 3), (3, 3)), ((4, 4), (3, 4)), ((0, 1), (2, 2)), ((6, 0), (5, 0)), ((1, 5), (3, 5))],
    );
    // the f-pawn double step gives a target on f6; d5 is beside the pawn but no target
    assert!(!state.make_move((3, 4), (2, 3)));
    assert!(state.make_move((3, 4), (2, 5)));
}

#[test]
fn illegal_destination_is_rejected() {
    let mut state = GameState::new();
    assert!(!state.make_move((6, 4), (3, 4)));
    assert!(!state.make_move((7, 1), (5, 1)));
    assert!(!state.make_move((1, 4), (3, 4)));
    assert!(!state.make_move((8, 0), (5, 0)));
    assert!(!state.make_move((7, 4), (7, 4)));
    assert_eq!(state.current_turn, Color::White);
}

#[test]
fn legal_move_queries_repeat_and_cache_clears() {
    let mut state = GameState::new();
    let first = state.get_all_legal_moves();
    let second = state.get_all_legal_moves();
    assert_eq!(first, second);
    assert_eq!(first.len(), 20);
    assert!(!state.move_cache.is_empty());
    assert!(state.make_move((6, 4), (4, 4)));
    assert!(state.move_cache.is_empty());
    assert_eq!(state.get_all_legal_moves().len(), 20);
}

#[test]
fn fools_mate_is_checkmate() {
    let mut state = GameState::new();
    play(&mut state, &[((6, 5), (5, 5)), ((1, 4), (3, 4)), ((6, 6), (4, 6)), ((0, 3), (4, 7))]);
    assert!(state.is_checkmate());
    assert!(!state.is_stalemate());
    assert!(state.get_all_legal_moves().is_empty());
}

#[test]
fn fifty_move_rule_at_one_hundred_half_moves() {
    let mut state = GameState::new();
    state.halfmove_clock = 99;
    assert!(!state.is_fifty_move_rule());
    state.halfmove_clock = 100;
    assert!(state.is_fifty_move_rule());
}

#[test]
fn halfmove_clock_counts_quiet_moves() {
    let mut state = GameState::new();
    play(&mut state, &[((7, 6), (5, 5)), ((0, 6), (2, 5))]);
    assert_eq!(state.halfmove_clock, 2);
    assert_eq!(state.fullmove_number, 2);
}

fn bare_board(state: &mut GameState) {
    for rank in 0..8 {
        for file in 0..8 {
            state.board[rank][file] = None;
        }
    }
    state.board[7][4] = Some(Piece::new(PieceType::King, Color::White));
    state.board[0][4] = Some(Piece::new(PieceType::King, Color::Black));
}

#[test]
fn insufficient_material_heuristic() {
    let mut state = GameState::new();
    assert!(!state.is_insufficient_material());
    bare_board(&mut state);
    assert!(state.is_insufficient_material());
    state.board[4][4] = Some(Piece::new(PieceType::Knight, Color::White));
    assert!(state.is_insufficient_material());
    state.board[4][4] = Some(Piece::new(PieceType::Rook, Color::White));
    assert!(!state.is_insufficient_material());
    // bishops on squares of one shade
    state.board[4][4] = Some(Piece::new(PieceType::Bishop, Color::White));
    state.board[2][2] = Some(Piece::new(PieceType::Bishop, Color::Black));
    assert!(state.is_insufficient_material());
    // and on squares of both shades
    state.board[2][2] = None;
    state.board[2][3] = Some(Piece::new(PieceType::Bishop, Color::Black));
    assert!(!state.is_insufficient_material());
}

#[test]
fn piece_candidates_at_start() {
    let state = GameState::new();
    let knight = state.board[7][6].unwrap();
    let mut moves = knight.get_possible_moves((7, 6), &state.board);
    moves.sort();
    assert_eq!(moves, vec![(5, 5), (5, 7)]);
    let pawn = state.board[6][0].unwrap();
    let mut moves = pawn.get_possible_moves((6, 0), &state.board);
    moves.sort();
    assert_eq!(moves, vec![(4, 0), (5, 0)]);
    let rook = state.board[7][0].unwrap();
    assert!(rook.get_possible_moves((7, 0), &state.board).is_empty());
}

#[test]
fn queen_rays_stop_at_pieces() {
    let mut state = GameState::new();
    bare_board(&mut state);
    state.board[4][3] = Some(Piece::new(PieceType::Queen, Color::White));
    state.board[4][6] = Some(Piece::new(PieceType::Pawn, Color::Black));
    state.board[6][3] = Some(Piece::new(PieceType::Pawn, Color::White));
    let queen = state.board[4][3].unwrap();
    let moves = queen.get_possible_moves((4, 3), &state.board);
    assert!(moves.contains(&(4, 6)));
    assert!(!moves.contains(&(4, 7)));
    assert!(moves.contains(&(5, 3)));
    assert!(!moves.contains(&(6, 3)));
    assert!(moves.contains(&(0, 7)));
    assert_eq!(moves.len(), 24);
}

#[test]
fn symbols_and_colors() {
    assert_eq!(Piece::new(PieceType::King, Color::White).to_char(), '\u{2654}');
    assert_eq!(Piece::new(PieceType::Pawn, Color::Black).to_char(), '\u{265F}');
    assert_eq!(Color::White.opposite(), Color::Black);
    assert_eq!(Color::Black.opposite(), Color::White);
}

#[test]
fn frames_split_at_newline() {
    let mut buffer = b"abc\ndef".to_vec();
    assert_eq!(take_frame(&mut buffer), Some(b"abc".to_vec()));
    assert_eq!(buffer, b"def".to_vec());
    assert_eq!(take_frame(&mut buffer), None);
    assert_eq!(buffer, b"def".to_vec());
    let mut empty = b"\n".to_vec();
    assert_eq!(take_frame(&mut empty), Some(Vec::new()));
    assert!(empty.is_empty());
}

#[test]
fn promotion_letters() {
    assert_eq!(promotion_piece('Q'), Some(PieceType::Queen));
    assert_eq!(promotion_piece('N'), Some(PieceType::Knight));
    assert_eq!(promotion_piece('K'), None);
}

#[test]
fn reconnect_backoff_doubles_then_gives_up() {
    assert_eq!(reconnect_backoff_ms(1), Some(500));
    assert_eq!(reconnect_backoff_ms(2), Some(1000));
    assert_eq!(reconnect_backoff_ms(3), None);
    assert_eq!(reconnect_backoff_ms(0), None);
    assert!(!heartbeat_due(100, 130));
    assert!(heartbeat_due(100, 131));
    assert!(!heartbeat_due(100, 50));
}

#[test]
fn moved_pawn_has_single_step_only() {
    let p = Piece { piece_type: PieceType::Pawn, color: Color::White, has_moved: true };
    let mut board = [[None; 8]; 8];
    board[6][0] = Some(p);
    assert_eq!(p.get_possible_moves((6, 0), &board), vec![(5, 0)]);
}

#[test]
fn checkmate_reports_game_over() {
    let mut state = GameState::new();
    assert!(!state.is_game_over());
    play(&mut state, &[((6, 5), (5, 5)), ((1, 4), (3, 4)), ((6, 6), (4, 6)), ((0, 3), (4, 7))]);
    assert!(state.is_game_over());
    assert!(!state.game_over);
}
