use vstd::prelude::*;
use crate::evaluation::{Evaluator, eval_score};
use crate::fen::{debug_text, fen_parse, fen_error_text, fen_position, lemma_fen_ep_on_board};
use crate::legal::{gen_ok, uci_move, lemma_uci_move_legal};
use crate::makemove::{move_result, same_but_hash};
use crate::movegen::{Move, ep_ok, uci_text};
use crate::position::Position;
use crate::search::{Search, SearchLimits, deepening, depth_limit, next_age};
use crate::text::{
    str_chars, chars_eq, push_all, push_str_chars, push_signed, push_dec, string_from_chars,
    split_whitespace, ws_fields, vecs_hold, parse_uint, parse_uint_chars, join_spaced,
    signed_dec,
};

verus! {

/// What a command asks to be shown.
pub enum UciOutput {
    /// A line of text.
    Line(String),
}

/// A UCI engine: a search and the position it plays from.
pub struct UciEngine {
    search: Search,
    position: Position,
}

/// Whether a word equals a literal.
fn word_is(w: &Vec<char>, lit: &str) -> (r: bool)
    ensures
        r == (w@ == lit@),
{
    let l = str_chars(lit);
    chars_eq(w, &l)
}

fn text_line(s: &str) -> (r: UciOutput)
    ensures
        r matches UciOutput::Line(t) && t@ == s@,
{
    UciOutput::Line(string_from_chars(&str_chars(s)))
}

/// The limits a `go` command's arguments set, from the default limits on.
pub open spec fn go_limits(args: Seq<Seq<char>>, i: nat, l: SearchLimits) -> SearchLimits
    decreases args.len() + 1 - i,
{
    if i >= args.len() {
        l
    } else {
        let a = args[i as int];
        let has_next = i + 1 < args.len();
        if a == "infinite"@ {
            go_limits(args, i + 1, SearchLimits { infinite: true, max_depth: None, max_time_ms: None, ..l })
        } else if a == "depth"@ {
            if has_next {
                let l2 = match parse_uint(args[i + 1int], 255) {
                    Some(v) => SearchLimits { max_depth: Some(v as u8), ..l },
                    None => l,
                };
                go_limits(args, i + 2, l2)
            } else {
                go_limits(args, i + 1, l)
            }
        } else if a == "movetime"@ {
            if has_next {
                let l2 = match parse_uint(args[i + 1int], u64::MAX as nat) {
                    Some(v) => SearchLimits { max_time_ms: Some(v as u64), ..l },
                    None => l,
                };
                go_limits(args, i + 2, l2)
            } else {
                go_limits(args, i + 1, l)
            }
        } else if a == "nodes"@ {
            if has_next {
                let l2 = match parse_uint(args[i + 1int], u64::MAX as nat) {
                    Some(v) => SearchLimits { max_nodes: Some(v as u64), ..l },
                    None => l,
                };
                go_limits(args, i + 2, l2)
            } else {
                go_limits(args, i + 1, l)
            }
        } else if a == "wtime"@ || a == "btime"@ || a == "winc"@ || a == "binc"@ || a == "movestogo"@ {
            go_limits(args, i + 2, l)
        } else {
            go_limits(args, i + 1, l)
        }
    }
}

/// The index of the first "moves" word at or after `i`.
pub open spec fn moves_word_from(words: Seq<Seq<char>>, i: int) -> Option<int>
    decreases words.len() - i,
{
    if i < 0 || i >= words.len() {
        None
    } else if words[i] == "moves"@ {
        Some(i)
    } else {
        moves_word_from(words, i + 1)
    }
}

/// Play the UCI moves `words[j..]` from `p`, stopping with a line at the first word that is not
/// a legal move (or once a move counter has no room left).
pub open spec fn play_uci_words(words: Seq<Seq<char>>, j: int, p: Position, lines: Seq<Seq<char>>) -> (Position, Seq<Seq<char>>)
    decreases words.len() - j,
{
    if j < 0 || j >= words.len() {
        (p, lines)
    } else if p.halfmove_clock >= 65535 || p.fullmove_number >= 65535 {
        (p, lines.push("Invalid move: "@ + words[j]))
    } else {
        match uci_move(words[j], p) {
            None => (p, lines.push("Invalid move: "@ + words[j])),
            Some(mv) => match move_result(p, mv) {
                None => (p, lines.push("Illegal move: "@ + words[j])),
                Some(np) => play_uci_words(words, j + 1, np.rehashed(), lines),
            },
        }
    }
}

/// The moves part of a `position` command, when `idx` points at a "moves" word.
pub open spec fn play_moves_part(words: Seq<Seq<char>>, idx: Option<int>, p: Position, lines: Seq<Seq<char>>) -> (Position, Seq<Seq<char>>) {
    match idx {
        Some(i) => if 0 <= i < words.len() && words[i] == "moves"@ {
            play_uci_words(words, i + 1, p, lines)
        } else {
            (p, lines)
        },
        None => (p, lines),
    }
}

/// What a `position` command (`words[0]` being "position") makes of the current position `cur`:
/// the new position and the lines shown.
pub open spec fn position_command(words: Seq<Seq<char>>, cur: Position) -> (Position, Seq<Seq<char>>) {
    if words.len() < 2 {
        (cur, Seq::empty())
    } else if words[1] == "startpos"@ {
        play_moves_part(words, Some(2), Position::start_layout(0).rehashed(), Seq::empty())
    } else if words[1] == "fen"@ {
        let mi = moves_word_from(words, 1);
        let fen_end = match mi {
            Some(m) => m,
            None => words.len() as int,
        };
        match fen_parse(join_spaced(words.subrange(2, fen_end))) {
            Ok(d) => play_moves_part(words, mi, fen_position(d), Seq::empty()),
            Err(e) => play_moves_part(words, mi, cur, seq!["Error parsing FEN: "@ + fen_error_text(e)]),
        }
    } else {
        (cur, seq!["Invalid position command"@])
    }
}

/// The move a `go` command shows for `pos`, searched by `s` under `limits` with no time or node
/// limit: iterative deepening over the table as `s` holds it; none when the move counter has
/// no room left.
pub open spec fn go_move(s: Search, pos: Position, limits: SearchLimits) -> Option<Move> {
    if pos.fullmove_number >= 65535 - 64 {
        None
    } else {
        deepening(
            s.table().slots(),
            s.table().size(),
            next_age(s.table().age()),
            pos,
            1,
            depth_limit(limits),
            0,
            None,
        )
    }
}

/// The line that ends a `go` command.
pub open spec fn bestmove_text(m: Option<Move>) -> Seq<char> {
    "bestmove "@ + match m {
        Some(mv) => uci_text(mv),
        None => "0000"@,
    }
}

/// The limits of a `go` command's words (the first word being "go").
pub open spec fn go_command_limits(words: Seq<Seq<char>>) -> SearchLimits {
    go_limits(words.subrange(1, words.len() as int), 0, default_limits())
}

/// Whether `out` is `before` followed by the lines `lines`.
pub open spec fn shows_lines(before: Seq<UciOutput>, out: Seq<UciOutput>, lines: Seq<Seq<char>>) -> bool {
    &&& out.len() == before.len() + lines.len()
    &&& forall|k: int| 0 <= k < before.len() ==> #[trigger] out[k] == before[k]
    &&& forall|k: int| 0 <= k < lines.len() ==> #[trigger] line_is(out[before.len() + k], lines[k])
}

/// The words held by a list of character vectors.
pub open spec fn words_of(v: Seq<Vec<char>>) -> Seq<Seq<char>> {
    v.map_values(|w: Vec<char>| w@)
}

/// The first words the engine answers to.
pub open spec fn known_command(w: Seq<char>) -> bool {
    ||| w == "quit"@
    ||| w == "eval"@
    ||| w == "isready"@
    ||| w == "uci"@
    ||| w == "ucinewgame"@
    ||| w == "position"@
    ||| w == "go"@
    ||| w == "stop"@
    ||| w == "d"@
    ||| w == "display"@
}

/// Whether an output is the line `s`.
pub open spec fn line_is(o: UciOutput, s: Seq<char>) -> bool {
    o matches UciOutput::Line(t) && t@ == s
}

/// Whether `added` are the lines the engine identifies itself with, ending in "uciok".
pub open spec fn uci_id_lines(added: Seq<UciOutput>) -> bool {
    &&& added.len() == 4
    &&& line_is(added[0], "id name ChessEngine"@)
    &&& line_is(added[1], "id author Rust Chess Framework"@)
    &&& line_is(added[2], "option name Hash type spin default 64 min 1 max 4096"@)
    &&& line_is(added[3], "uciok"@)
}

pub open spec fn default_limits() -> SearchLimits {
    SearchLimits { max_depth: Some(10), max_time_ms: None, max_nodes: None, infinite: false }
}

impl UciEngine {
    /// The search is in shape and the position's en passant square is on the board.
    pub closed spec fn wf(self) -> bool {
        &&& self.search.wf()
        &&& ep_ok(self.position)
    }

    /// The position the engine plays from.
    pub closed spec fn current(self) -> Position {
        self.position
    }

    /// The search the engine runs.
    pub closed spec fn searcher(self) -> Search {
        self.search
    }

    pub fn new() -> (r: UciEngine)
        ensures
            r.wf(),
            r.current() == Position::start_layout(r.current().hash),
    {
        UciEngine { search: Search::default(), position: Position::startpos() }
    }

    /// The position the engine plays from.
    pub fn position(&self) -> (r: &Position)
        ensures
            *r == self.current(),
    {
        &self.position
    }

    /// Handle one command, appending what it shows to `out`; false when the engine should
    /// quit.
    #[verifier::rlimit(60)]
    pub fn handle_command(&mut self, command: &str, out: &mut Vec<UciOutput>) -> (keep: bool)
        requires
            old(self).wf(),
        ensures
            final(self).wf(),
            keep == !(ws_fields(command@).len() > 0 && ws_fields(command@)[0] == "quit"@),
            ws_fields(command@).len() == 0 ==> final(out)@ == old(out)@ && final(self).current()
                == old(self).current(),
            ws_fields(command@).len() > 0 && ws_fields(command@)[0] == "isready"@ ==> final(out)@.len()
                == old(out)@.len() + 1 && (final(out)@.last() matches UciOutput::Line(t) && t@
                == "readyok"@),
            ws_fields(command@).len() > 0 && ws_fields(command@)[0] == "eval"@ ==> final(out)@.len()
                == old(out)@.len() + 1 && (final(out)@.last() matches UciOutput::Line(t) && t@
                == "Evaluation: "@ + signed_dec(eval_score(old(self).current())) + " centipawns"@),
            ws_fields(command@).len() > 0 && (ws_fields(command@)[0] == "d"@ || ws_fields(command@)[0]
                == "display"@) ==> final(out)@.len() == old(out)@.len() + 1 && (final(out)@.last() matches UciOutput::Line(t)
                && t@ == debug_text(old(self).current())) && final(self).current() == old(self).current(),
            ws_fields(command@).len() > 0 && ws_fields(command@)[0] == "uci"@ ==> final(out)@.subrange(
                0,
                old(out)@.len() as int,
            ) == old(out)@ && uci_id_lines(final(out)@.subrange(old(out)@.len() as int, final(out)@.len() as int))
                && final(self).current() == old(self).current(),
            ws_fields(command@).len() > 0 && ws_fields(command@)[0] == "ucinewgame"@ ==> final(out)@
                == old(out)@ && final(self).current() == Position::start_layout(final(self).current().hash),
            ws_fields(command@).len() > 0 && ws_fields(command@)[0] == "stop"@ ==> final(out)@ == old(out)@
                && final(self).current() == old(self).current(),
            ws_fields(command@).len() > 0 && ws_fields(command@)[0] == "go"@ ==> final(self).current()
                == old(self).current() && final(out)@.len() > old(out)@.len() && (final(out)@.last() matches UciOutput::Line(t)
                && t@.len() >= 9 && t@.subrange(0, 9) == "bestmove "@),
            ws_fields(command@).len() > 0 && ws_fields(command@)[0] == "go"@ && go_command_limits(
                ws_fields(command@),
            ).max_time_ms is None && go_command_limits(ws_fields(command@)).max_nodes is None ==> line_is(
                final(out)@.last(),
                bestmove_text(go_move(old(self).searcher(), old(self).current(), go_command_limits(ws_fields(command@)))),
            ),
            ws_fields(command@).len() > 0 && ws_fields(command@)[0] == "go"@ && old(self).current().fullmove_number
                < 65535 - 64 ==> final(self).searcher().search_limits() == go_command_limits(ws_fields(command@)),
            ws_fields(command@).len() > 0 && ws_fields(command@)[0] == "position"@ ==> final(self).current()
                == position_command(ws_fields(command@), old(self).current()).0 && shows_lines(
                old(out)@,
                final(out)@,
                position_command(ws_fields(command@), old(self).current()).1,
            ),
            ws_fields(command@).len() > 0 && !known_command(ws_fields(command@)[0]) ==> final(out)@.len()
                == old(out)@.len() + 1 && final(out)@.drop_last() == old(out)@ && line_is(
                final(out)@.last(),
                "Unknown command: "@ + command@,
            ) && final(self).current() == old(self).current(),
    {
        proof {
            reveal_strlit("quit");
            reveal_strlit("isready");
            reveal_strlit("eval");
            reveal_strlit("uci");
            reveal_strlit("ucinewgame");
            reveal_strlit("position");
            reveal_strlit("go");
            reveal_strlit("stop");
            reveal_strlit("d");
            reveal_strlit("display");
        }
        let chars = str_chars(command);
        let parts = split_whitespace(&chars);
        let ghost ws = ws_fields(command@);
        if parts.len() == 0 {
            return true;
        }
        assert(parts@[0]@ == ws[0]);
        let head = &parts[0];
        if word_is(head, "quit") {
            assert("quit"@[0] != "eval"@[0] && "quit"@[0] != "isready"@[0] && "quit"@[0] != "stop"@[0]);
            return false;
        }
        if word_is(head, "eval") {
            assert("eval"@[0] != "stop"@[0]);
            let eval = Evaluator::evaluate(&self.position);
            let mut v: Vec<char> = Vec::new();
            push_str_chars(&mut v, "Evaluation: ");
            push_signed(&mut v, eval as i64);
            push_str_chars(&mut v, " centipawns");
            out.push(UciOutput::Line(string_from_chars(&v)));
            return true;
        }
        if word_is(head, "isready") {
            assert("isready"@[0] != "d"@[0] && "isready"@[0] != "display"@[0]);
            out.push(text_line("readyok"));
            return true;
        }
        if word_is(head, "uci") {
            out.push(text_line("id name ChessEngine"));
            out.push(text_line("id author Rust Chess Framework"));
            out.push(text_line("option name Hash type spin default 64 min 1 max 4096"));
            out.push(text_line("uciok"));
        } else if word_is(head, "ucinewgame") {
            self.search.clear();
            self.position = Position::startpos();
        } else if word_is(head, "position") {
            proof {
                assert(words_of(parts@) =~= ws);
            }
            self.handle_position(&parts, out);
        } else if word_is(head, "go") {
            proof {
                assert(words_of(parts@) =~= ws);
            }
            self.handle_go(&parts, out);
        } else if word_is(head, "stop") {
            self.search.stop();
        } else if word_is(head, "d") || word_is(head, "display") {
            out.push(UciOutput::Line(self.position.debug_string()));
        } else {
            let mut v: Vec<char> = Vec::new();
            push_str_chars(&mut v, "Unknown command: ");
            push_str_chars(&mut v, command);
            out.push(UciOutput::Line(string_from_chars(&v)));
        }
        true
    }

    /// `position startpos|fen <fen> [moves <move>...]`.
    fn handle_position(&mut self, parts: &Vec<Vec<char>>, out: &mut Vec<UciOutput>)
        requires
            old(self).wf(),
            parts@.len() >= 1,
        ensures
            final(self).wf(),
            final(self).search == old(self).search,
            final(self).position == position_command(words_of(parts@), old(self).position).0,
            shows_lines(old(out)@, final(out)@, position_command(words_of(parts@), old(self).position).1),
    {
        let ghost words = words_of(parts@);
        let ghost cur = self.position;
        assert(forall|k: int| 0 <= k < parts@.len() ==> #[trigger] words[k] == parts@[k]@);
        if parts.len() < 2 {
            return;
        }
        let mut move_index: Option<usize> = None;
        let ghost mut lines: Seq<Seq<char>> = Seq::empty();
        let ghost mut start: Position = cur;
        proof {
            reveal_strlit("startpos");
            reveal_strlit("fen");
            reveal_strlit("moves");
        }
        if word_is(&parts[1], "startpos") {
            self.position = Position::startpos();
            move_index = Some(2);
            proof {
                start = self.position;
            }
        } else if word_is(&parts[1], "fen") {
            let mut i: usize = 1;
            while i < parts.len()
                invariant_except_break
                    move_index is None,
                invariant
                    1 <= i <= parts@.len(),
                    words == words_of(parts@),
                    forall|k: int| 0 <= k < parts@.len() ==> #[trigger] words[k] == parts@[k]@,
                    moves_word_from(words, 1) == moves_word_from(words, i as int),
                    words[1] == "fen"@,
                ensures
                    move_index matches Some(m) ==> 2 <= m < parts@.len(),
                    moves_word_from(words, 1) == match move_index {
                        Some(m) => Some(m as int),
                        None => None,
                    },
                decreases parts@.len() - i,
            {
                proof {
                    reveal_strlit("fen");
                    reveal_strlit("moves");
                }
                if word_is(&parts[i], "moves") {
                    move_index = Some(i);
                    break;
                }
                i = i + 1;
            }
            let fen_end: usize = match move_index {
                Some(m) => m,
                None => parts.len(),
            };
            let mut fen: Vec<char> = Vec::new();
            let mut k: usize = 2;
            while k < fen_end
                invariant
                    2 <= k <= fen_end,
                    fen_end <= parts@.len(),
                    words == words_of(parts@),
                    forall|k2: int| 0 <= k2 < parts@.len() ==> #[trigger] words[k2] == parts@[k2]@,
                    fen@ == join_spaced(words.subrange(2, k as int)),
                decreases fen_end - k,
            {
                let ghost before = fen@;
                if k > 2 {
                    fen.push(' ');
                }
                push_all(&mut fen, &parts[k]);
                proof {
                    let sub = words.subrange(2, k + 1);
                    assert(sub.drop_last() =~= words.subrange(2, k as int));
                    assert(sub.last() == parts@[k as int]@);
                    if k == 2 {
                        assert(fen@ =~= sub[0]);
                    } else {
                        assert(fen@ =~= join_spaced(sub.drop_last()) + seq![' '] + sub.last());
                    }
                }
                k = k + 1;
            }
            let fen_text = string_from_chars(&fen);
            match Position::from_fen(fen_text.as_str()) {
                Ok(pos) => {
                    proof {
                        lemma_fen_ep_on_board(fen_text@);
                    }
                    self.position = pos;
                    proof {
                        start = pos;
                    }
                },
                Err(e) => {
                    let mut v: Vec<char> = Vec::new();
                    push_str_chars(&mut v, "Error parsing FEN: ");
                    push_str_chars(&mut v, e.as_str());
                    out.push(UciOutput::Line(string_from_chars(&v)));
                    proof {
                        lines = lines.push(v@);
                    }
                },
            }
        } else {
            out.push(text_line("Invalid position command"));
            proof {
                lines = lines.push("Invalid position command"@);
            }
            assert(shows_lines(old(out)@, out@, lines));
            return;
        }
        let ghost whole = play_moves_part(words, match move_index {
            Some(m) => Some(m as int),
            None => None,
        }, start, lines);
        assert(whole == position_command(words, cur));
        assert(shows_lines(old(out)@, out@, lines));
        if let Some(idx) = move_index {
            if idx < parts.len() && word_is(&parts[idx], "moves") {
                let mut j: usize = idx + 1;
                while j < parts.len()
                    invariant_except_break
                        whole == play_uci_words(words, j as int, self.position, lines),
                    invariant
                        idx < j <= parts@.len(),
                        self.wf(),
                        self.search == old(self).search,
                        words == words_of(parts@),
                        forall|k2: int| 0 <= k2 < parts@.len() ==> #[trigger] words[k2] == parts@[k2]@,
                        whole == position_command(words, cur),
                        shows_lines(old(out)@, out@, lines),
                    ensures
                        whole == (self.position, lines),
                    decreases parts@.len() - j,
                {
                    let move_str = string_from_chars(&parts[j]);
                    if self.position.halfmove_clock >= 65535 || self.position.fullmove_number >= 65535 {
                        let mut v: Vec<char> = Vec::new();
                        push_str_chars(&mut v, "Invalid move: ");
                        push_all(&mut v, &parts[j]);
                        out.push(UciOutput::Line(string_from_chars(&v)));
                        proof {
                            reveal_strlit("Invalid move: ");
                            lines = lines.push(v@);
                        }
                        assert(shows_lines(old(out)@, out@, lines));
                        break;
                    }
                    match Move::from_uci(move_str.as_str(), &self.position) {
                        Some(mv) => {
                            proof {
                                lemma_uci_move_legal(move_str@, self.position);
                                crate::perft::lemma_legal_member(self.position, mv);
                                crate::perft::lemma_child_ok(self.position, mv);
                            }
                            let ghost before = self.position;
                            if self.position.make_move(mv).is_err() {
                                let mut v: Vec<char> = Vec::new();
                                push_str_chars(&mut v, "Illegal move: ");
                                push_all(&mut v, &parts[j]);
                                out.push(UciOutput::Line(string_from_chars(&v)));
                                proof {
                                    lines = lines.push(v@);
                                }
                                assert(shows_lines(old(out)@, out@, lines));
                                break;
                            }
                            proof {
                                assert(same_but_hash(self.position, move_result(before, mv).unwrap()));
                            }
                        },
                        None => {
                            let mut v: Vec<char> = Vec::new();
                            push_str_chars(&mut v, "Invalid move: ");
                            push_all(&mut v, &parts[j]);
                            out.push(UciOutput::Line(string_from_chars(&v)));
                            proof {
                                lines = lines.push(v@);
                            }
                            assert(shows_lines(old(out)@, out@, lines));
                            break;
                        },
                    }
                    j = j + 1;
                }
            }
        }
    }

    /// The search limits of a `go` command's arguments (`parts[1..]`).
    fn go_limits_of(parts: &Vec<Vec<char>>) -> (r: SearchLimits)
        requires
            parts@.len() >= 1,
        ensures
            r == go_limits(words_of(parts@).subrange(1, parts@.len() as int), 0, default_limits()),
    {
        let ghost args = words_of(parts@).subrange(1, parts@.len() as int);
        let mut limits = SearchLimits::default();
        let mut i: usize = 1;
        while i < parts.len()
            invariant
                1 <= i <= parts@.len(),
                args == words_of(parts@).subrange(1, parts@.len() as int),
                go_limits(args, 0, default_limits()) == go_limits(args, (i - 1) as nat, limits),
            decreases parts@.len() - i,
        {
            proof {
                reveal_strlit("infinite");
                reveal_strlit("depth");
                reveal_strlit("movetime");
                reveal_strlit("nodes");
                reveal_strlit("wtime");
                reveal_strlit("btime");
                reveal_strlit("winc");
                reveal_strlit("binc");
                reveal_strlit("movestogo");
            }
            let a = &parts[i];
            assert(args[i - 1] == a@);
            let ghost l0 = limits;
            let ghost i0 = i;
            if word_is(a, "infinite") {
                limits.infinite = true;
                limits.max_depth = None;
                limits.max_time_ms = None;
                i = i + 1;
            } else if word_is(a, "depth") {
                if i + 1 < parts.len() {
                    assert(args[i as int] == parts@[i + 1]@);
                    if let Some(depth) = parse_uint_chars(&parts[i + 1], 255) {
                        assert(depth <= 255);
                        limits.max_depth = Some(depth as u8);
                    }
                    i = i + 2;
                    } else {
                    i = i + 1;
                    }
            } else if word_is(a, "movetime") {
                if i + 1 < parts.len() {
                    assert(args[i as int] == parts@[i + 1]@);
                    if let Some(ms) = parse_uint_chars(&parts[i + 1], u64::MAX) {
                        limits.max_time_ms = Some(ms);
                    }
                    i = i + 2;
                } else {
                    i = i + 1;
                }
            } else if word_is(a, "nodes") {
                if i + 1 < parts.len() {
                    assert(args[i as int] == parts@[i + 1]@);
                    if let Some(nodes) = parse_uint_chars(&parts[i + 1], u64::MAX) {
                        limits.max_nodes = Some(nodes);
                    }
                    i = i + 2;
                } else {
                    i = i + 1;
                }
            } else if word_is(a, "wtime") || word_is(a, "btime") || word_is(a, "winc") || word_is(a, "binc")
                || word_is(a, "movestogo") {
                if i + 1 < parts.len() {
                    i = i + 2;
                } else {
                    assert(go_limits(args, (i0 + 1) as nat, l0) == l0);
                    i = parts.len();
                }
            } else {
                i = i + 1;
            }
        }
        limits
    }

    /// `go [depth N] [movetime MS] [nodes N] [infinite]`: search and show the progress lines
    /// and the best move (`0000` when there is none).
    fn handle_go(&mut self, parts: &Vec<Vec<char>>, out: &mut Vec<UciOutput>)
        requires
            old(self).wf(),
            parts@.len() >= 1,
        ensures
            final(self).wf(),
            final(self).current() == old(self).current(),
            final(out)@.len() > old(out)@.len(),
            final(out)@.subrange(0, old(out)@.len() as int) == old(out)@,
            final(out)@.last() matches UciOutput::Line(t) && t@.len() >= 9 && t@.subrange(0, 9)
                == "bestmove "@,
            old(self).position.fullmove_number < 65535 - 64 ==> final(self).search.search_limits()
                == go_command_limits(words_of(parts@)),
            ({
                let limits = go_command_limits(words_of(parts@));
                limits.max_time_ms is None && limits.max_nodes is None ==> line_is(
                    final(out)@.last(),
                    bestmove_text(go_move(old(self).search, old(self).position, limits)),
                )
            }),
    {
        proof {
            reveal_strlit("bestmove ");
            reveal_strlit("bestmove 0000");
        }
        proof {
            reveal_strlit("0000");
            assert("bestmove 0000"@ =~= bestmove_text(None));
        }
        let limits = Self::go_limits_of(parts);
        if self.position.fullmove_number >= 65535 - 64 {
            out.push(text_line("bestmove 0000"));
            return;
        }
        let found = self.search.search(&self.position, limits);
        let info = self.search.info();
        let ghost out0 = out@;
        let mut k: usize = 0;
        while k < info.len()
            invariant
                k <= info@.len(),
                out@.len() == out0.len() + k,
                out@.subrange(0, out0.len() as int) == out0,
            decreases info@.len() - k,
        {
            out.push(UciOutput::Line(info[k].to_line()));
            k = k + 1;
            assert(out@.subrange(0, out0.len() as int) =~= out0);
        }
        match found {
            Some(best_move) => {
                let mut v: Vec<char> = Vec::new();
                push_str_chars(&mut v, "bestmove ");
                let ghost head = v@;
                let u = best_move.to_uci();
                push_str_chars(&mut v, u.as_str());
                assert(v@.subrange(0, 9) =~= head);
                assert(v@ =~= "bestmove "@ + uci_text(best_move));
                out.push(UciOutput::Line(string_from_chars(&v)));
            },
            None => out.push(text_line("bestmove 0000")),
        }
    }
}

impl Default for UciEngine {
    fn default() -> (r: UciEngine)
        ensures
            r.wf(),
    {
        UciEngine::new()
    }
}

} // verus!
