use vstd::prelude::*;
use crate::api::models::{
    LegalMovesRequest, LegalMovesResponse, MakeMoveRequest, MakeMoveResponse, MoveHistoryEntry,
    NewGameResponse, UndoMoveRequest, UndoMoveResponse,
};
use crate::chess::board::{
    Board, Position, square_of_name, position_name, letter_of, standard_rows, str_len_bytes,
};
use crate::chess::game::{Game, GameStatus, played, undone, move_outcome, undo_outcome};
use crate::chess::moves::{Move, generate_legal_moves, piece_targets, move_text, writable_promotion};
use crate::chess::piece::{Color, PieceType, fen_char_of};
use crate::text::{str_chars, chars_eq, push_str_chars, string_from_chars};

verus! {

/// Why a request to the game API is refused.
#[derive(Clone, Copy, PartialEq, Eq, Structural, Debug)]
pub enum ApiError {
    BadRequest,
    InternalServerError,
}

/// What `str::to_lowercase` gives for a text: Unicode lower-case mapping, independent of locale
/// (a capital sigma maps by its context, as final or not).
pub uninterp spec fn unicode_lowercase(s: Seq<char>) -> Seq<char>;

/// Trusted: `str::to_lowercase`; its result is named `unicode_lowercase` of the argument.
#[verifier::external_body]
fn lowercase(s: &str) -> (r: String)
    ensures
        r@ == unicode_lowercase(s@),
{
    s.to_lowercase()
}

/// The colour a lower-cased player name means: "black" is black, anything else white.
pub open spec fn color_of_lowercase(lower: Seq<char>) -> Color {
    if lower == "black"@ {
        Color::Black
    } else {
        Color::White
    }
}

/// The colour a lower-cased player name means.
pub fn color_from_lowercase(lower: &str) -> (r: Color)
    ensures
        r == color_of_lowercase(lower@),
{
    if chars_eq(&str_chars(lower), &str_chars("black")) {
        Color::Black
    } else {
        Color::White
    }
}

/// The colour a player name means, in any letter case; unknown names mean white.
pub fn parse_color(color: &str) -> (r: Color)
    ensures
        r == color_of_lowercase(unicode_lowercase(color@)),
{
    let lower = lowercase(color);
    color_from_lowercase(lower.as_str())
}

/// The promotion piece a lower-cased letter asks for.
pub open spec fn promotion_of_lowercase(lower: Seq<char>) -> Option<PieceType> {
    if lower == "q"@ {
        Some(PieceType::Queen)
    } else if lower == "r"@ {
        Some(PieceType::Rook)
    } else if lower == "b"@ {
        Some(PieceType::Bishop)
    } else if lower == "n"@ {
        Some(PieceType::Knight)
    } else {
        None
    }
}

/// The promotion piece a lower-cased letter asks for; `None` for any other text.
pub fn promotion_from_lowercase(lower: &str) -> (r: Option<PieceType>)
    ensures
        r == promotion_of_lowercase(lower@),
{
    let v = str_chars(lower);
    if chars_eq(&v, &str_chars("q")) {
        Some(PieceType::Queen)
    } else if chars_eq(&v, &str_chars("r")) {
        Some(PieceType::Rook)
    } else if chars_eq(&v, &str_chars("b")) {
        Some(PieceType::Bishop)
    } else if chars_eq(&v, &str_chars("n")) {
        Some(PieceType::Knight)
    } else {
        None
    }
}

/// The word the frontend shows for a game status.
pub open spec fn status_text(status: GameStatus) -> Seq<char> {
    match status {
        GameStatus::Active => "active"@,
        GameStatus::Check => "check"@,
        GameStatus::Checkmate => "checkmate"@,
        GameStatus::Stalemate => "stalemate"@,
        GameStatus::Draw => "draw"@,
    }
}

/// The word the frontend shows for a game status.
pub fn game_status_to_string(status: &GameStatus) -> (r: String)
    ensures
        r@ == status_text(*status),
{
    let mut v: Vec<char> = Vec::new();
    match status {
        GameStatus::Active => push_str_chars(&mut v, "active"),
        GameStatus::Check => push_str_chars(&mut v, "check"),
        GameStatus::Checkmate => push_str_chars(&mut v, "checkmate"),
        GameStatus::Stalemate => push_str_chars(&mut v, "stalemate"),
        GameStatus::Draw => push_str_chars(&mut v, "draw"),
    }
    assert(v@ =~= status_text(*status));
    string_from_chars(&v)
}

/// The square a request names, read as `Position::from_algebraic` reads it.
pub open spec fn named_square(s: Seq<char>) -> Option<Position> {
    if str_len_bytes(s) == 2 {
        square_of_name(s)
    } else {
        None
    }
}

/// A square name `Position::from_algebraic` can read without failing: two bytes only as two
/// characters.
pub open spec fn readable_name(s: Seq<char>) -> bool {
    str_len_bytes(s) == 2 ==> s.len() == 2
}

/// The frontend's letters for every square of a board.
pub open spec fn letters_hold(a: [[Option<char>; 8]; 8], v: Seq<Seq<Option<crate::chess::piece::Piece>>>) -> bool {
    forall|rank: int, file: int|
        0 <= rank < 8 && 0 <= file < 8 ==> #[trigger] a@[rank]@[file] == letter_of(v[rank][file])
}

fn square_names(squares: &Vec<Position>) -> (r: Vec<String>)
    ensures
        r@.len() == squares@.len(),
        forall|i: int| 0 <= i < r@.len() ==> #[trigger] r@[i]@ == position_name(squares@[i]),
{
    let mut out: Vec<String> = Vec::new();
    let mut i: usize = 0;
    while i < squares.len()
        invariant
            i <= squares@.len(),
            out@.len() == i,
            forall|j: int| 0 <= j < i ==> #[trigger] out@[j]@ == position_name(squares@[j]),
        decreases squares@.len() - i,
    {
        out.push(squares[i].to_algebraic());
        i = i + 1;
    }
    out
}

/// The moves of the piece on the requested square of the requested position, by square name.
/// Refused when the square name is not a square.
pub fn legal_moves(request: LegalMovesRequest) -> (r: Result<LegalMovesResponse, ApiError>)
    requires
        readable_name(request.square@),
    ensures
        match named_square(request.square@) {
            None => r == Err::<LegalMovesResponse, ApiError>(ApiError::BadRequest),
            Some(pos) => r matches Ok(resp) && {
                let board = crate::chess::board::board_of_letters(request.position);
                let t = piece_targets(board, pos);
                &&& resp.moves@.len() == t.len()
                &&& forall|i: int| 0 <= i < t.len() ==> #[trigger] resp.moves@[i]@ == position_name(t[i])
            },
        },
{
    let board = Board::from_array(request.position);
    let position = match Position::from_algebraic(request.square.as_str()) {
        Some(p) => p,
        None => return Err(ApiError::BadRequest),
    };
    let color = parse_color(request.current_player.as_str());
    let moves = generate_legal_moves(&board, position, color);
    proof {
        assert(board@ =~= crate::chess::board::board_of_letters(request.position));
    }
    Ok(LegalMovesResponse { moves: square_names(&moves) })
}

/// Plays a requested move in the server's game. Refused, with the game unchanged, when a square
/// name is not a square, the promotion letter is not one of q, r, b, n (in any case), or the game
/// refuses the move.
pub fn make_move(game: &mut Game, request: MakeMoveRequest) -> (r: Result<MakeMoveResponse, ApiError>)
    requires
        readable_name(request.from@),
        readable_name(request.to@),
    ensures
        ({
            let promo = match request.promotion {
                Some(p) => match promotion_of_lowercase(unicode_lowercase(p@)) {
                    Some(t) => Some(Some(t)),
                    None => None,
                },
                None => Some(None),
            };
            if named_square(request.from@) is None || named_square(request.to@) is None
                || promo is None {
                r == Err::<MakeMoveResponse, ApiError>(ApiError::BadRequest) && *final(game)
                    == *old(game)
            } else {
                let m = Move {
                    from: named_square(request.from@)->0,
                    to: named_square(request.to@)->0,
                    promotion: promo->0,
                };
                let res = move_outcome(old(game).board@, old(game).current_player, m);
                &&& played(*old(game), *final(game), m, res)
                &&& res is Err ==> r == Err::<MakeMoveResponse, ApiError>(ApiError::BadRequest)
                &&& res is Ok ==> (r matches Ok(resp) && {
                    &&& letters_hold(resp.new_position, final(game).board@)
                    &&& resp.game_status@ == status_text(final(game).status)
                    &&& resp.is_check == (final(game).status == GameStatus::Check)
                    &&& resp.is_checkmate == (final(game).status == GameStatus::Checkmate)
                    &&& resp.is_draw == (final(game).status == GameStatus::Draw
                        || final(game).status == GameStatus::Stalemate)
                    &&& resp.move_notation@ == move_text(m)
                })
            }
        }),
{
    let from = match Position::from_algebraic(request.from.as_str()) {
        Some(p) => p,
        None => return Err(ApiError::BadRequest),
    };
    let to = match Position::from_algebraic(request.to.as_str()) {
        Some(p) => p,
        None => return Err(ApiError::BadRequest),
    };
    let mut chess_move = Move::new(from, to);
    if let Some(promotion) = &request.promotion {
        let lower = lowercase(promotion.as_str());
        match promotion_from_lowercase(lower.as_str()) {
            Some(t) => {
                chess_move.promotion = Some(t);
            },
            None => return Err(ApiError::BadRequest),
        }
    }
    let result = game.make_move(&chess_move);
    if result.is_err() {
        return Err(ApiError::BadRequest);
    }
    let is_check = game.status == GameStatus::Check;
    let is_checkmate = game.status == GameStatus::Checkmate;
    let is_draw = game.status == GameStatus::Draw || game.status == GameStatus::Stalemate;
    let response = MakeMoveResponse {
        new_position: game.board.to_array(),
        game_status: game_status_to_string(&game.status),
        is_check,
        is_checkmate,
        is_draw,
        move_notation: chess_move.to_algebraic(),
    };
    Ok(response)
}

/// Starts a new game in the server's game slot.
pub fn new_game(game: &mut Game) -> (r: NewGameResponse)
    ensures
        final(game).board@ == standard_rows(),
        final(game).current_player == Color::White,
        final(game).status == GameStatus::Active,
        final(game).move_history@.len() == 0,
        letters_hold(r.position, standard_rows()),
        r.current_player@ == "white"@,
        r.game_status@ == "active"@,
{
    *game = Game::new();
    let mut white: Vec<char> = Vec::new();
    push_str_chars(&mut white, "white");
    let mut active: Vec<char> = Vec::new();
    push_str_chars(&mut active, "active");
    assert(white@ =~= "white"@);
    assert(active@ =~= "active"@);
    NewGameResponse {
        position: game.board.to_array(),
        current_player: string_from_chars(&white),
        game_status: string_from_chars(&active),
    }
}

/// The frontend's record of one move, on the board as it stands: the letter of the piece on the
/// move's source square (empty text if none), "q" for any promotion, and the move's notation.
pub open spec fn entry_holds(e: MoveHistoryEntry, v: Seq<Seq<Option<crate::chess::piece::Piece>>>, m: Move) -> bool {
    &&& e.from@ == position_name(m.from)
    &&& e.to@ == position_name(m.to)
    &&& e.piece@ == match crate::chess::board::cell(v, m.from) {
        Some(p) => seq![fen_char_of(p)],
        None => Seq::empty(),
    }
    &&& e.capture is None
    &&& match m.promotion {
        Some(_) => e.promotion matches Some(s) && s@ == "q"@,
        None => e.promotion is None,
    }
    &&& e.check is None
    &&& e.checkmate is None
    &&& e.notation@ == move_text(m)
}

fn history_entry(board: &Board, m: &Move) -> (r: MoveHistoryEntry)
    requires
        writable_promotion(m.promotion),
    ensures
        entry_holds(r, board@, *m),
{
    let mut piece: Vec<char> = Vec::new();
    if let Some(p) = board.get_piece(m.from) {
        piece.push(p.to_fen_char());
    }
    let promotion = match m.promotion {
        Some(_) => {
            let mut q: Vec<char> = Vec::new();
            push_str_chars(&mut q, "q");
            assert(q@ =~= "q"@);
            Some(string_from_chars(&q))
        },
        None => None,
    };
    assert(piece@ =~= match crate::chess::board::cell(board@, m.from) {
        Some(p) => seq![fen_char_of(p)],
        None => Seq::<char>::empty(),
    });
    MoveHistoryEntry {
        from: m.from.to_algebraic(),
        to: m.to.to_algebraic(),
        piece: string_from_chars(&piece),
        capture: None,
        promotion,
        check: None,
        checkmate: None,
        notation: m.to_algebraic(),
    }
}

/// Takes back the last move of the server's game. Refused when the game refuses; the game then
/// changes as `Game::undo_move` says. The answer lists the remaining moves.
pub fn undo_move(game: &mut Game, request: UndoMoveRequest) -> (r: Result<UndoMoveResponse, ApiError>)
    requires
        forall|i: int|
            0 <= i < old(game).move_history@.len() ==> writable_promotion(
                (#[trigger] old(game).move_history@[i]).0.promotion,
            ),
    ensures
        ({
            let res = undo_outcome(*old(game));
            &&& undone(*old(game), *final(game), res)
            &&& res is Err ==> r == Err::<UndoMoveResponse, ApiError>(ApiError::BadRequest)
            &&& res is Ok ==> (r matches Ok(resp) && {
                &&& letters_hold(resp.new_position, final(game).board@)
                &&& resp.new_move_history@.len() == final(game).move_history@.len()
                &&& forall|i: int|
                    0 <= i < resp.new_move_history@.len() ==> entry_holds(
                        #[trigger] resp.new_move_history@[i],
                        final(game).board@,
                        final(game).move_history@[i].0,
                    )
                &&& resp.current_player@ == (if final(game).current_player == Color::White {
                    "white"@
                } else {
                    "black"@
                })
                &&& resp.game_status@ == status_text(final(game).status)
            })
        }),
{
    let res = game.undo_move();
    if res.is_err() {
        return Err(ApiError::BadRequest);
    }
    let ghost hist0 = old(game).move_history@;
    assert(forall|i: int| 0 <= i < game.move_history@.len() ==> #[trigger] game.move_history@[i] == hist0[i]);
    let mut entries: Vec<MoveHistoryEntry> = Vec::new();
    let mut i: usize = 0;
    while i < game.move_history.len()
        invariant
            i <= game.move_history@.len(),
            game.move_history@.len() < hist0.len(),
            forall|j: int| 0 <= j < game.move_history@.len() ==> #[trigger] game.move_history@[j] == hist0[j],
            forall|j: int| 0 <= j < hist0.len() ==> writable_promotion((#[trigger] hist0[j]).0.promotion),
            entries@.len() == i,
            forall|j: int|
                0 <= j < i ==> entry_holds(#[trigger] entries@[j], game.board@, game.move_history@[j].0),
        decreases game.move_history@.len() - i,
    {
        let entry = history_entry(&game.board, &game.move_history[i].0);
        entries.push(entry);
        i = i + 1;
    }
    let mut player: Vec<char> = Vec::new();
    if game.current_player == Color::White {
        push_str_chars(&mut player, "white");
    } else {
        push_str_chars(&mut player, "black");
    }
    Ok(UndoMoveResponse {
        new_position: game.board.to_array(),
        new_move_history: entries,
        current_player: string_from_chars(&player),
        game_status: game_status_to_string(&game.status),
    })
}

} // verus!
