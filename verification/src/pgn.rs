use vstd::prelude::*;
use crate::legal::{legal_moves, gen_ok, uci_move};
use crate::makemove::{move_result, move_safe, same_but_hash};
use crate::movegen::{Move, MoveGen, MoveList, MoveType, is_capture_type, is_promotion_type, promotion_of, ep_ok};
use crate::position::{Color, PieceType, Position, opp};
use crate::text::{
    str_chars, push_all, push_str_chars, string_from_chars, chars_eq, dec, push_dec, is_ws,
    is_whitespace, ascii_char, trim, trim_char, remove_all, contains_seq, find_char, ws_fields,
    sep_split, vecs_hold, unicode_alphanumeric, is_alphanumeric, is_digit,
    trim_chars, trim_char_chars, remove_pattern, contains_pattern, find_char_index, slice_chars,
    split_whitespace, split_at_char,
};

verus! {

/// A game: tag pairs (each name at most once when built by `set_header`), moves in SAN, result.
pub struct PGNGame {
    pub headers: Vec<(String, String)>,
    pub moves: Vec<String>,
    pub result: String,
}

/// The contents of a game as character sequences.
pub struct PgnView {
    pub headers: Seq<(Seq<char>, Seq<char>)>,
    pub moves: Seq<Seq<char>>,
    pub result: Seq<char>,
}

pub open spec fn headers_view(h: Seq<(String, String)>) -> Seq<(Seq<char>, Seq<char>)> {
    h.map_values(|p: (String, String)| (p.0@, p.1@))
}

pub open spec fn strings_view(m: Seq<String>) -> Seq<Seq<char>> {
    m.map_values(|s: String| s@)
}

impl View for PGNGame {
    type V = PgnView;

    open spec fn view(&self) -> PgnView {
        PgnView { headers: headers_view(self.headers@), moves: strings_view(self.moves@), result: self.result@ }
    }
}

/// The index of the first tag named `k`.
pub open spec fn first_key(h: Seq<(Seq<char>, Seq<char>)>, k: Seq<char>) -> Option<int>
    decreases h.len(),
{
    if h.len() == 0 {
        None
    } else if h[0].0 == k {
        Some(0)
    } else {
        match first_key(h.drop_first(), k) {
            Some(i) => Some(i + 1),
            None => None,
        }
    }
}

/// The value of the first tag named `k`.
pub open spec fn lookup(h: Seq<(Seq<char>, Seq<char>)>, k: Seq<char>) -> Option<Seq<char>> {
    match first_key(h, k) {
        Some(i) => Some(h[i].1),
        None => None,
    }
}

/// Setting a tag: the value of an existing tag of that name is replaced, otherwise the tag is
/// appended.
pub open spec fn header_set(h: Seq<(Seq<char>, Seq<char>)>, k: Seq<char>, v: Seq<char>) -> Seq<(Seq<char>, Seq<char>)> {
    match first_key(h, k) {
        Some(i) => h.update(i, (k, v)),
        None => h.push((k, v)),
    }
}

pub open spec fn new_game_view() -> PgnView {
    PgnView { headers: Seq::empty(), moves: Seq::empty(), result: "*"@ }
}

proof fn lemma_first_key_bounds(h: Seq<(Seq<char>, Seq<char>)>, k: Seq<char>)
    ensures
        first_key(h, k) matches Some(i) ==> 0 <= i < h.len() && h[i].0 == k && forall|j: int| 0 <= j < i ==> h[j].0 != k,
        first_key(h, k) is None ==> forall|j: int| 0 <= j < h.len() ==> h[j].0 != k,
    decreases h.len(),
{
    if h.len() > 0 {
        lemma_first_key_bounds(h.drop_first(), k);
        assert forall|j: int| 0 < j < h.len() implies h[j] == h.drop_first()[j - 1] by {}
    }
}

proof fn lemma_first_key_char(h: Seq<(Seq<char>, Seq<char>)>, k: Seq<char>, i: int)
    requires
        0 <= i < h.len(),
        h[i].0 == k,
        forall|j: int| 0 <= j < i ==> h[j].0 != k,
    ensures
        first_key(h, k) == Some(i),
    decreases h.len(),
{
    if i > 0 {
        assert forall|j: int| 0 <= j < i - 1 implies h.drop_first()[j].0 != k by {
            assert(h.drop_first()[j] == h[j + 1]);
        }
        lemma_first_key_char(h.drop_first(), k, i - 1);
    }
}

proof fn lemma_no_key(h: Seq<(Seq<char>, Seq<char>)>, k: Seq<char>)
    requires
        forall|j: int| 0 <= j < h.len() ==> h[j].0 != k,
    ensures
        first_key(h, k) is None,
    decreases h.len(),
{
    if h.len() > 0 {
        assert forall|j: int| 0 <= j < h.len() - 1 implies h.drop_first()[j].0 != k by {
            assert(h.drop_first()[j] == h[j + 1]);
        }
        lemma_no_key(h.drop_first(), k);
    }
}

/// Reading a tag after setting it gives the value set.
pub proof fn lemma_get_after_set(h: Seq<(Seq<char>, Seq<char>)>, k: Seq<char>, v: Seq<char>)
    ensures
        lookup(header_set(h, k, v), k) == Some(v),
{
    lemma_first_key_bounds(h, k);
    let h2 = header_set(h, k, v);
    match first_key(h, k) {
        Some(i) => {
            assert forall|j: int| 0 <= j < i implies h2[j].0 != k by {}
            lemma_first_key_char(h2, k, i);
        },
        None => {
            assert forall|j: int| 0 <= j < h.len() implies h2[j].0 != k by {}
            lemma_first_key_char(h2, k, h.len() as int);
        },
    }
}

/// Setting one tag leaves the value of every other tag as it was.
pub proof fn lemma_set_keeps_others(h: Seq<(Seq<char>, Seq<char>)>, k: Seq<char>, v: Seq<char>, other: Seq<char>)
    requires
        other != k,
    ensures
        lookup(header_set(h, k, v), other) == lookup(h, other),
{
    lemma_first_key_bounds(h, k);
    lemma_first_key_bounds(h, other);
    let h2 = header_set(h, k, v);
    match first_key(h, other) {
        Some(i) => {
            assert forall|j: int| 0 <= j < i implies h2[j].0 != other by {}
            lemma_first_key_char(h2, other, i);
        },
        None => {
            assert forall|j: int| 0 <= j < h2.len() implies h2[j].0 != other by {}
            lemma_no_key(h2, other);
        },
    }
}

// ---------------------------------------------------------------------------------------------
// Writing PGN text.

/// The seven tags written first, in order.
pub open spec fn roster() -> Seq<Seq<char>> {
    seq!["Event"@, "Site"@, "Date"@, "Round"@, "White"@, "Black"@, "Result"@]
}

/// A tag line: `[Name "value"]` and a line break.
pub open spec fn tag_line(k: Seq<char>, v: Seq<char>) -> Seq<char> {
    seq!['['] + k + seq![' ', '"'] + v + seq!['"', ']', '\n']
}

/// The roster tags among the first `n`, each with its value or `?`.
pub open spec fn roster_text(h: Seq<(Seq<char>, Seq<char>)>, n: nat) -> Seq<char>
    decreases n,
{
    if n == 0 {
        Seq::empty()
    } else {
        let k = roster()[n - 1];
        roster_text(h, (n - 1) as nat) + tag_line(
            k,
            match lookup(h, k) {
                Some(v) => v,
                None => seq!['?'],
            },
        )
    }
}

/// The tags outside the roster among the first `n`, in order.
pub open spec fn other_tags_text(h: Seq<(Seq<char>, Seq<char>)>, n: nat) -> Seq<char>
    decreases n,
{
    if n == 0 {
        Seq::empty()
    } else {
        other_tags_text(h, (n - 1) as nat) + if roster().contains(h[n - 1].0) {
            Seq::empty()
        } else {
            tag_line(h[n - 1].0, h[n - 1].1)
        }
    }
}

/// Bytes of a character in UTF-8.
pub open spec fn utf8_len(c: char) -> nat {
    if (c as u32) < 0x80 {
        1
    } else if (c as u32) < 0x800 {
        2
    } else if (c as u32) < 0x10000 {
        3
    } else {
        4
    }
}

/// Bytes of a text in UTF-8.
pub open spec fn utf8_bytes(s: Seq<char>) -> nat
    decreases s.len(),
{
    if s.len() == 0 {
        0
    } else {
        utf8_bytes(s.drop_last()) + utf8_len(s.last())
    }
}

/// The move text after the first `n` moves: the lines written so far and the line in
/// progress. A move number starts each white move; a line is written out once it passes 70
/// bytes after a black move.
pub open spec fn movetext_scan(moves: Seq<Seq<char>>, n: nat) -> (Seq<char>, Seq<char>)
    decreases n,
{
    if n == 0 {
        (Seq::empty(), Seq::empty())
    } else {
        let (done, cur) = movetext_scan(moves, (n - 1) as nat);
        let i = n - 1;
        let numbered = if i % 2 == 0 {
            cur + dec((i / 2 + 1) as nat) + seq!['.', ' ']
        } else {
            cur
        };
        let cur2 = numbered + moves[i] + seq![' '];
        if utf8_bytes(cur2) > 70 && i % 2 == 1 {
            (done + cur2 + seq!['\n'], Seq::empty())
        } else {
            (done, cur2)
        }
    }
}

/// The PGN text of a game.
pub open spec fn pgn_text(g: PgnView) -> Seq<char> {
    let (done, cur) = movetext_scan(g.moves, g.moves.len());
    roster_text(g.headers, 7) + other_tags_text(g.headers, g.headers.len()) + seq!['\n'] + done + cur
        + g.result + seq!['\n']
}

fn char_utf8_len(c: char) -> (r: usize)
    ensures
        r == utf8_len(c),
{
    let u = c as u32;
    if u < 0x80 {
        1
    } else if u < 0x800 {
        2
    } else if u < 0x10000 {
        3
    } else {
        4
    }
}

/// The UTF-8 length of the characters, at most `usize::MAX`.
fn utf8_count(v: &Vec<char>) -> (r: usize)
    ensures
        r == (if utf8_bytes(v@) > usize::MAX { usize::MAX as nat } else { utf8_bytes(v@) }),
{
    let mut acc: usize = 0;
    let mut i: usize = 0;
    while i < v.len()
        invariant
            i <= v@.len(),
            acc == (if utf8_bytes(v@.subrange(0, i as int)) > usize::MAX {
                usize::MAX as nat
            } else {
                utf8_bytes(v@.subrange(0, i as int))
            }),
        decreases v@.len() - i,
    {
        assert(v@.subrange(0, i + 1).drop_last() =~= v@.subrange(0, i as int));
        acc = acc.saturating_add(char_utf8_len(v[i]));
        i = i + 1;
    }
    assert(v@.subrange(0, i as int) =~= v@);
    acc
}

fn push_tag_line(out: &mut Vec<char>, k: &Vec<char>, v: &Vec<char>)
    ensures
        final(out)@ == old(out)@ + tag_line(k@, v@),
{
    out.push('[');
    push_all(out, k);
    out.push(' ');
    out.push('"');
    push_all(out, v);
    out.push('"');
    out.push(']');
    out.push('\n');
    assert(out@ =~= old(out)@ + tag_line(k@, v@));
}

impl PGNGame {
    pub fn new() -> (r: PGNGame)
        ensures
            r@ == new_game_view(),
    {
        let mut result = String::new();
        result.append("*");
        let r = PGNGame { headers: Vec::new(), moves: Vec::new(), result };
        assert(headers_view(r.headers@) =~= Seq::empty());
        assert(strings_view(r.moves@) =~= Seq::empty());
        assert(r.result@ =~= "*"@);
        r
    }

    /// Set a tag, replacing the value of an existing tag of the same name.
    pub fn set_header(&mut self, key: String, value: String)
        ensures
            final(self)@.headers == header_set(old(self)@.headers, key@, value@),
            final(self)@.moves == old(self)@.moves,
            final(self)@.result == old(self)@.result,
    {
        let ghost h = old(self)@.headers;
        let mut i: usize = 0;
        while i < self.headers.len()
            invariant
                i <= self.headers@.len(),
                self@.headers == h,
                self@ == old(self)@,
                forall|j: int| 0 <= j < i ==> h[j].0 != key@,
            decreases self.headers@.len() - i,
        {
            if self.headers[i].0 == key {
                proof {
                    assert(h[i as int].0 == key@);
                    lemma_first_key_char(h, key@, i as int);
                }
                self.headers.set(i, (key, value));
                assert(headers_view(self.headers@) =~= header_set(h, key@, value@));
                return;
            }
            i = i + 1;
        }
        proof {
            lemma_no_key(h, key@);
        }
        self.headers.push((key, value));
        assert(headers_view(self.headers@) =~= header_set(h, key@, value@));
    }

    /// The value of a tag.
    pub fn get_header(&self, key: &str) -> (r: Option<&String>)
        ensures
            match r {
                Some(v) => lookup(self@.headers, key@) == Some(v@),
                None => lookup(self@.headers, key@) is None,
            },
    {
        let ghost h = self@.headers;
        let k = str_chars(key);
        let mut i: usize = 0;
        while i < self.headers.len()
            invariant
                i <= self.headers@.len(),
                h == self@.headers,
                k@ == key@,
                forall|j: int| 0 <= j < i ==> h[j].0 != key@,
            decreases self.headers@.len() - i,
        {
            let name = str_chars(self.headers[i].0.as_str());
            if chars_eq(&name, &k) {
                proof {
                    lemma_first_key_char(h, key@, i as int);
                }
                return Some(&self.headers[i].1);
            }
            i = i + 1;
        }
        proof {
            lemma_no_key(h, key@);
        }
        None
    }

    pub fn add_move(&mut self, san: String)
        ensures
            final(self)@.moves == old(self)@.moves.push(san@),
            final(self)@.headers == old(self)@.headers,
            final(self)@.result == old(self)@.result,
    {
        self.moves.push(san);
        assert(strings_view(self.moves@) =~= old(self)@.moves.push(san@));
    }

    /// The game as PGN text: the seven roster tags (`?` when unset), the other tags, a blank
    /// line, the numbered moves wrapped after black moves past 70 bytes, and the result.
    pub fn to_pgn(&self) -> (r: String)
        ensures
            r@ == pgn_text(self@),
    {
        let ghost g = self@;
        let mut pgn: Vec<char> = Vec::new();
        let names: [&str; 7] = ["Event", "Site", "Date", "Round", "White", "Black", "Result"];
        proof {
            assert(names@.map_values(|s: &str| s@) =~= roster());
        }
        let mut n: usize = 0;
        while n < 7
            invariant
                n <= 7,
                g == self@,
                names@.map_values(|s: &str| s@) == roster(),
                pgn@ == roster_text(g.headers, n as nat),
            decreases 7 - n,
        {
            let name = str_chars(names[n]);
            assert(names@.map_values(|s: &str| s@)[n as int] == names@[n as int]@);
            match self.get_header(names[n]) {
                Some(v) => {
                    let vc = str_chars(v.as_str());
                    push_tag_line(&mut pgn, &name, &vc);
                },
                None => {
                    let mut q: Vec<char> = Vec::new();
                    q.push('?');
                    push_tag_line(&mut pgn, &name, &q);
                    assert(q@ =~= seq!['?']);
                },
            }
            n = n + 1;
        }
        let mut i: usize = 0;
        while i < self.headers.len()
            invariant
                i <= self.headers@.len(),
                g == self@,
                names@.map_values(|s: &str| s@) == roster(),
                pgn@ == roster_text(g.headers, 7) + other_tags_text(g.headers, i as nat),
            decreases self.headers@.len() - i,
        {
            let key = str_chars(self.headers[i].0.as_str());
            let mut is_roster = false;
            let mut t: usize = 0;
            while t < 7
                invariant
                    t <= 7,
                    names@.map_values(|s: &str| s@) == roster(),
                    key@ == g.headers[i as int].0,
                    is_roster == exists|u: int| 0 <= u < t && roster()[u] == key@,
                decreases 7 - t,
            {
                let nm = str_chars(names[t]);
                assert(names@.map_values(|s: &str| s@)[t as int] == names@[t as int]@);
                if chars_eq(&nm, &key) {
                    is_roster = true;
                }
                t = t + 1;
            }
            proof {
                if is_roster {
                    let u = choose|u: int| 0 <= u < 7 && roster()[u] == key@;
                    assert(roster().contains(key@));
                } else {
                    assert(!roster().contains(key@));
                }
            }
            if !is_roster {
                let val = str_chars(self.headers[i].1.as_str());
                push_tag_line(&mut pgn, &key, &val);
            }
            i = i + 1;
            assert(pgn@ =~= roster_text(g.headers, 7) + other_tags_text(g.headers, i as nat));
        }
        pgn.push('\n');
        let mut done: Vec<char> = Vec::new();
        let mut move_text: Vec<char> = Vec::new();
        let mut m: usize = 0;
        while m < self.moves.len()
            invariant
                m <= self.moves@.len(),
                g == self@,
                done@ == movetext_scan(g.moves, m as nat).0,
                move_text@ == movetext_scan(g.moves, m as nat).1,
            decreases self.moves@.len() - m,
        {
            let ghost cur0 = move_text@;
            if m % 2 == 0 {
                push_dec(&mut move_text, (m / 2 + 1) as u64);
                move_text.push('.');
                move_text.push(' ');
            }
            let san = str_chars(self.moves[m].as_str());
            assert(strings_view(self.moves@)[m as int] == self.moves@[m as int]@);
            push_all(&mut move_text, &san);
            move_text.push(' ');
            let bytes = utf8_count(&move_text);
            proof {
                let numbered = if m % 2 == 0 {
                    cur0 + dec((m / 2 + 1) as nat) + seq!['.', ' ']
                } else {
                    cur0
                };
                assert(move_text@ =~= numbered + g.moves[m as int] + seq![' ']);
            }
            if bytes > 70 && m % 2 == 1 {
                push_all(&mut done, &move_text);
                done.push('\n');
                move_text = Vec::new();
            }
            m = m + 1;
        }
        push_all(&mut pgn, &done);
        push_all(&mut pgn, &move_text);
        push_str_chars(&mut pgn, self.result.as_str());
        pgn.push('\n');
        assert(pgn@ =~= pgn_text(g));
        string_from_chars(&pgn)
    }
}


// ---------------------------------------------------------------------------------------------
// Standard algebraic notation.

pub open spec fn file_char(f: int) -> char {
    ((97 + f) as u32) as char
}

pub open spec fn rank_char(r: int) -> char {
    ((49 + r) as u32) as char
}

/// The SAN letter of a piece type (none for pawns).
pub open spec fn san_letter(p: PieceType) -> Seq<char> {
    match p {
        PieceType::Knight => seq!['N'],
        PieceType::Bishop => seq!['B'],
        PieceType::Rook => seq!['R'],
        PieceType::Queen => seq!['Q'],
        PieceType::King => seq!['K'],
        PieceType::Pawn => Seq::empty(),
    }
}

/// Other legal moves of a piece of the same type to the same square.
pub open spec fn rival_pred(pos: Position, mv: Move, this: PieceType) -> spec_fn(Move) -> bool {
    |o: Move|
        o.to == mv.to && o.from != mv.from && (pos.piece_on(o.from as int) matches Some((op, _)) && op == this)
}

/// Origin file, rank, or both, when another piece of the same type can also reach the square.
#[verifier::opaque]
pub open spec fn disambiguation(pos: Position, mv: Move, this: PieceType) -> Seq<char> {
    let rivals = legal_moves(pos).filter(rival_pred(pos, mv, this));
    let ff = (mv.from % 8) as int;
    let fr = (mv.from / 8) as int;
    if rivals.len() == 0 {
        Seq::empty()
    } else if exists|i: int| 0 <= i < rivals.len() && (#[trigger] rivals[i]).from % 8 != ff {
        seq![file_char(ff)]
    } else if exists|i: int| 0 <= i < rivals.len() && (#[trigger] rivals[i]).from / 8 != fr {
        seq![rank_char(fr)]
    } else {
        seq![file_char(ff), rank_char(fr)]
    }
}

/// `+` when the move checks, `#` when it also leaves no legal reply.
#[verifier::opaque]
pub open spec fn check_suffix(pos: Position, mv: Move) -> Seq<char> {
    match move_result(pos, mv) {
        Some(np) => {
            let a = crate::perft::strip(np);
            if a.in_check(a.side_to_move) {
                if legal_moves(a).len() == 0 {
                    seq!['#']
                } else {
                    seq!['+']
                }
            } else {
                Seq::empty()
            }
        },
        None => Seq::empty(),
    }
}

pub open spec fn promo_suffix(mv: Move) -> Seq<char> {
    if is_promotion_type(mv.move_type) {
        seq!['='] + match promotion_of(mv.move_type) {
            Some(p) => san_letter(p),
            None => Seq::empty(),
        }
    } else {
        Seq::empty()
    }
}

/// Piece letter, disambiguation and capture mark of a SAN.
#[verifier::opaque]
pub open spec fn san_prefix(pos: Position, mv: Move) -> Seq<char> {
    let ff = (mv.from % 8) as int;
    let piece = pos.piece_on(mv.from as int);
    let base = match piece {
        Some((p, _)) => san_letter(p),
        None => Seq::empty(),
    };
    let dis = if base.len() > 0 {
        disambiguation(pos, mv, piece.unwrap().0)
    } else {
        Seq::empty()
    };
    let cap = if is_capture_type(mv.move_type) {
        (if base.len() == 0 {
            seq![file_char(ff)]
        } else {
            Seq::empty()
        }) + seq!['x']
    } else {
        Seq::empty()
    };
    base + dis + cap
}

/// Whether a move is a king move of more than one file, written as castling.
#[verifier::opaque]
pub open spec fn is_castle_san(pos: Position, mv: Move) -> bool {
    let ff = (mv.from % 8) as int;
    let tf = (mv.to % 8) as int;
    pos.piece_on(mv.from as int) matches Some((PieceType::King, _)) && (ff - tf > 1 || tf - ff > 1)
}

/// The SAN of a move in a position.
pub open spec fn san_text(pos: Position, mv: Move) -> Seq<char> {
    if is_castle_san(pos, mv) {
        if mv.to % 8 > mv.from % 8 {
            "O-O"@
        } else {
            "O-O-O"@
        }
    } else {
        san_prefix(pos, mv) + seq![file_char((mv.to % 8) as int), rank_char((mv.to / 8) as int)]
            + promo_suffix(mv) + check_suffix(pos, mv)
    }
}

/// The positions on which `move_to_san` runs through: move generation there and after the
/// move stays within the board and the counters.
pub open spec fn san_ok(pos: Position, mv: Move) -> bool {
    &&& gen_ok(pos)
    &&& pos.halfmove_clock < 65534
    &&& pos.fullmove_number < 65534
    &&& mv.from < 64
    &&& mv.to < 64
    &&& move_safe(pos, mv)
    &&& (mv.move_type == MoveType::DoublePawnPush && pos.side_to_move == Color::Black ==> mv.to < 56)
}

proof fn lemma_after_move_ok(pos: Position, mv: Move)
    requires
        san_ok(pos, mv),
    ensures
        move_result(pos, mv) matches Some(np) ==> gen_ok(np),
{
    reveal(move_result);
}

fn push_letter(san: &mut Vec<char>, p: PieceType)
    ensures
        final(san)@ == old(san)@ + san_letter(p),
{
    match p {
        PieceType::Knight => san.push('N'),
        PieceType::Bishop => san.push('B'),
        PieceType::Rook => san.push('R'),
        PieceType::Queen => san.push('Q'),
        PieceType::King => san.push('K'),
        PieceType::Pawn => {},
    }
    assert(san@ =~= old(san)@ + san_letter(p));
}

impl PGNGame {
    /// The SAN of a UCI move, when it names a legal move.
    pub fn uci_to_san(uci_move: &str, pos: &Position) -> (r: Option<String>)
        requires
            gen_ok(*pos),
            pos.halfmove_clock < 65534,
            pos.fullmove_number < 65534,
        ensures
            match crate::legal::uci_move(uci_move@, *pos) {
                Some(m) => r matches Some(s) && s@ == san_text(*pos, m),
                None => r is None,
            },
    {
        let mv = match Move::from_uci(uci_move, pos) {
            Some(m) => m,
            None => return None,
        };
        proof {
            crate::legal::lemma_uci_move_legal(uci_move@, *pos);
            crate::perft::lemma_legal_member(*pos, mv);
            crate::perft::lemma_child_ok(*pos, mv);
        }
        Some(Self::move_to_san(&mv, pos))
    }

    /// Origin file, rank or both, when a rival piece reaches the same square.
    fn disambiguate(pos: &Position, mv: &Move, this: PieceType) -> (r: Vec<char>)
        requires
            gen_ok(*pos),
            mv.from < 64,
        ensures
            r@ == disambiguation(*pos, *mv, this),
    {
        let legal_moves = MoveGen::generate_legal_moves(pos);
        let from = mv.from();
        let ghost rp = rival_pred(*pos, *mv, this);
        let mut rivals: Vec<Move> = Vec::new();
        let mut i: usize = 0;
        while i < legal_moves.len()
            invariant
                i <= legal_moves.moves@.len(),
                legal_moves.moves@ == crate::legal::legal_moves(*pos),
                gen_ok(*pos),
                rp == rival_pred(*pos, *mv, this),
                mv.from < 64,
                rivals@ == legal_moves.moves@.subrange(0, i as int).filter(rp),
            decreases legal_moves.moves@.len() - i,
        {
            let other = legal_moves.get(i);
            proof {
                let s = legal_moves.moves@;
                assert(s.subrange(0, i + 1) =~= s.subrange(0, i as int).push(other));
                s.subrange(0, i as int).lemma_filter_push(other, rp);
                assert(crate::legal::legal_moves(*pos).contains(other)) by {
                    assert(s[i as int] == other);
                }
                crate::perft::lemma_legal_member(*pos, other);
            }
            if other.to() == mv.to() && other.from() != mv.from() {
                if let Some((other_piece, _)) = pos.piece_at(other.from()) {
                    if other_piece == this {
                        rivals.push(other);
                    }
                }
            }
            i = i + 1;
        }
        assert(legal_moves.moves@.subrange(0, i as int) =~= legal_moves.moves@);
        let mut out: Vec<char> = Vec::new();
        if rivals.len() > 0 {
            let from_file = from % 8;
            let from_rank = from / 8;
            let mut different_files = false;
            let mut different_ranks = false;
            let mut j: usize = 0;
            while j < rivals.len()
                invariant
                    j <= rivals@.len(),
                    from_file == mv.from % 8,
                    from_rank == mv.from / 8,
                    different_files == exists|t: int| 0 <= t < j && (#[trigger] rivals@[t]).from % 8 != from_file,
                    different_ranks == exists|t: int| 0 <= t < j && (#[trigger] rivals@[t]).from / 8 != from_rank,
                decreases rivals@.len() - j,
            {
                if rivals[j].from % 8 != from_file {
                    different_files = true;
                }
                if rivals[j].from / 8 != from_rank {
                    different_ranks = true;
                }
                j = j + 1;
            }
            if different_files {
                out.push(ascii_char(97 + from_file));
            } else if different_ranks {
                out.push(ascii_char(49 + from_rank));
            } else {
                out.push(ascii_char(97 + from_file));
                out.push(ascii_char(49 + from_rank));
            }
        }
        assert(out@ =~= disambiguation(*pos, *mv, this)) by {
            reveal(disambiguation);
        }
        out
    }

    /// Whether the move is a king move across more than one file.
    fn is_castle(pos: &Position, mv: &Move) -> (r: bool)
        requires
            mv.from < 64,
        ensures
            r == is_castle_san(*pos, *mv),
    {
        proof {
            reveal(is_castle_san);
        }
        let from = mv.from();
        let to = mv.to();
        if let Some((piece_type, _)) = pos.piece_at(from) {
            if piece_type == PieceType::King {
                let from_file = from % 8;
                let to_file = to % 8;
                return (from_file as i32 - to_file as i32) > 1 || (to_file as i32 - from_file as i32) > 1;
            }
        }
        false
    }

    /// Piece letter, disambiguation and capture mark.
    fn prefix(pos: &Position, mv: &Move) -> (r: Vec<char>)
        requires
            gen_ok(*pos),
            mv.from < 64,
        ensures
            r@ == san_prefix(*pos, *mv),
    {
        let from = mv.from();
        let mut san: Vec<char> = Vec::new();
        let piece = pos.piece_at(from);
        if let Some((piece_type, _)) = piece {
            push_letter(&mut san, piece_type);
        }
        if san.len() > 0 {
            let dis = Self::disambiguate(pos, mv, piece.unwrap().0);
            push_all(&mut san, &dis);
        }
        if mv.is_capture() {
            if san.len() == 0 {
                san.push(ascii_char(97 + from % 8));
            }
            san.push('x');
        }
        assert(san@ =~= san_prefix(*pos, *mv)) by {
            reveal(san_prefix);
        }
        san
    }

    /// The check or mate mark of a move.
    fn check_mark(pos: &Position, mv: &Move) -> (r: Vec<char>)
        requires
            san_ok(*pos, *mv),
        ensures
            r@ == check_suffix(*pos, *mv),
    {
        let mut out: Vec<char> = Vec::new();
        let mut new_pos = *pos;
        proof {
            lemma_after_move_ok(*pos, *mv);
        }
        if new_pos.make_move(*mv).is_ok() {
            let after = Position { hash: 0, ..new_pos };
            proof {
                crate::perft::lemma_strip_same(new_pos, move_result(*pos, *mv).unwrap());
                assert(after == crate::perft::strip(move_result(*pos, *mv).unwrap()));
            }
            if after.is_check() {
                let legal_moves_after = MoveGen::generate_legal_moves(&after);
                if legal_moves_after.is_empty() {
                    out.push('#');
                } else {
                    out.push('+');
                }
            }
        }
        assert(out@ =~= check_suffix(*pos, *mv)) by {
            reveal(check_suffix);
        }
        out
    }

    /// The SAN of a move: castling, piece letter, disambiguation, capture, destination,
    /// promotion and check or mate mark.
    pub fn move_to_san(mv: &Move, pos: &Position) -> (r: String)
        requires
            san_ok(*pos, *mv),
        ensures
            r@ == san_text(*pos, *mv),
    {
        let to = mv.to();
        if Self::is_castle(pos, mv) {
            let mut v: Vec<char> = Vec::new();
            if to % 8 > mv.from() % 8 {
                push_str_chars(&mut v, "O-O");
            } else {
                push_str_chars(&mut v, "O-O-O");
            }
            return string_from_chars(&v);
        }
        let mut san = Self::prefix(pos, mv);
        san.push(ascii_char(97 + to % 8));
        san.push(ascii_char(49 + to / 8));
        if mv.is_promotion() {
            san.push('=');
            match mv.promotion_piece() {
                Some(PieceType::Queen) => san.push('Q'),
                Some(PieceType::Rook) => san.push('R'),
                Some(PieceType::Bishop) => san.push('B'),
                Some(PieceType::Knight) => san.push('N'),
                _ => {},
            }
        }
        let mark = Self::check_mark(pos, mv);
        push_all(&mut san, &mark);
        proof {
            assert(san@ =~= san_text(*pos, *mv));
        }
        string_from_chars(&san)
    }
}


// ---------------------------------------------------------------------------------------------
// Reading PGN text.

/// The end of the run of ASCII digits that starts at `i`.
pub open spec fn digits_end(t: Seq<char>, i: int) -> int
    decreases t.len() - i,
{
    if 0 <= i < t.len() && is_digit(t[i]) {
        digits_end(t, i + 1)
    } else {
        i
    }
}

/// The end of the run of dots that starts at `i`.
pub open spec fn dots_end(t: Seq<char>, i: int) -> int
    decreases t.len() - i,
{
    if 0 <= i < t.len() && t[i] == '.' {
        dots_end(t, i + 1)
    } else {
        i
    }
}

/// A token without its move number: a leading run of digits followed by dots ("12." or "12...")
/// is dropped, so "1.e4" becomes "e4" and "1." becomes empty.
pub open spec fn strip_move_number(t: Seq<char>) -> Seq<char> {
    let n = digits_end(t, 0);
    if n > 0 && n < t.len() && t[n] == '.' {
        t.subrange(dots_end(t, n), t.len() as int)
    } else {
        t
    }
}

/// A game result token.
pub open spec fn is_result_token(t: Seq<char>) -> bool {
    t == "1-0"@ || t == "0-1"@ || t == "1/2-1/2"@ || t == "*"@
}

/// The move tokens of a move line: its whitespace-separated tokens without move numbers,
/// keeping those that are moves (not results).
pub open spec fn line_moves(line: Seq<char>) -> Seq<Seq<char>> {
    ws_fields(line).map_values(|t: Seq<char>| strip_move_number(t)).filter(token_pred())
}

pub open spec fn token_char_ok(c: char) -> bool {
    unicode_alphanumeric(c) || c == '-' || c == '+' || c == '#' || c == '='
}

/// A token kept as a move: non-empty, of letters, digits and `-+#=` only.
pub open spec fn token_ok(t: Seq<char>) -> bool {
    t.len() > 0 && forall|i: int| 0 <= i < t.len() ==> token_char_ok(#[trigger] t[i])
}

pub open spec fn token_pred() -> spec_fn(Seq<char>) -> bool {
    |t: Seq<char>| token_ok(t) && !is_result_token(t)
}

/// A game ended by a result found in a line, or `None` when the line holds none.
pub open spec fn line_result(line: Seq<char>) -> Option<Seq<char>> {
    if contains_seq(line, "1-0"@) {
        Some("1-0"@)
    } else if contains_seq(line, "0-1"@) {
        Some("0-1"@)
    } else if contains_seq(line, "1/2-1/2"@) {
        Some("1/2-1/2"@)
    } else {
        None
    }
}

/// One line of input: skipped when blank; a tag pair `[Name value]` sets a tag (quotes
/// around the value dropped); any other line adds its move tokens and, when it holds a
/// result, closes the game.
pub open spec fn parse_step(games: Seq<PgnView>, cur: PgnView, raw: Seq<char>) -> (Seq<PgnView>, PgnView) {
    let line = trim(raw);
    if line.len() == 0 {
        (games, cur)
    } else if line[0] == '[' && line.last() == ']' {
        let content = line.subrange(1, line.len() - 1);
        match find_char(content, ' ') {
            Some(i) => (
                games,
                PgnView {
                    headers: header_set(
                        cur.headers,
                        content.subrange(0, i),
                        trim_char(content.subrange(i + 1, content.len() as int), '"'),
                    ),
                    ..cur
                },
            ),
            None => (games, cur),
        }
    } else {
        let cur2 = PgnView { moves: cur.moves + line_moves(line), ..cur };
        match line_result(line) {
            Some(res) => (games.push(PgnView { result: res, ..cur2 }), new_game_view()),
            None => (games, cur2),
        }
    }
}

pub open spec fn parse_scan(lines: Seq<Seq<char>>, n: nat) -> (Seq<PgnView>, PgnView)
    decreases n,
{
    if n == 0 {
        (Seq::empty(), new_game_view())
    } else {
        let (g, c) = parse_scan(lines, (n - 1) as nat);
        parse_step(g, c, lines[n - 1])
    }
}

/// The games of a PGN text, read line by line; a last game without a result is kept when it
/// has moves.
pub open spec fn parse_games(text: Seq<char>) -> Seq<PgnView> {
    let lines = sep_split(text, '\n');
    let (games, cur) = parse_scan(lines, lines.len());
    if cur.moves.len() > 0 {
        games.push(cur)
    } else {
        games
    }
}

pub open spec fn games_view(v: Seq<PGNGame>) -> Seq<PgnView> {
    v.map_values(|g: PGNGame| g@)
}

/// A token without its move number (see `strip_move_number`).
fn strip_number(t: &Vec<char>) -> (r: Vec<char>)
    ensures
        r@ == strip_move_number(t@),
{
    let mut n: usize = 0;
    while n < t.len() && '0' <= t[n] && t[n] <= '9'
        invariant
            n <= t@.len(),
            digits_end(t@, 0) == digits_end(t@, n as int),
        decreases t@.len() - n,
    {
        n = n + 1;
    }
    if n > 0 && n < t.len() && t[n] == '.' {
        let mut e: usize = n;
        while e < t.len() && t[e] == '.'
            invariant
                n <= e <= t@.len(),
                dots_end(t@, n as int) == dots_end(t@, e as int),
            decreases t@.len() - e,
        {
            e = e + 1;
        }
        slice_chars(t, e, t.len())
    } else {
        let mut out: Vec<char> = Vec::new();
        push_all(&mut out, t);
        out
    }
}

fn is_token(t: &Vec<char>) -> (r: bool)
    ensures
        r == token_ok(t@),
{
    if t.len() == 0 {
        return false;
    }
    let mut i: usize = 0;
    while i < t.len()
        invariant
            i <= t@.len(),
            forall|j: int| 0 <= j < i ==> token_char_ok(#[trigger] t@[j]),
        decreases t@.len() - i,
    {
        let c = t[i];
        if !(is_alphanumeric(c) || c == '-' || c == '+' || c == '#' || c == '=') {
            return false;
        }
        i = i + 1;
    }
    true
}

/// Whether a token is a move: a token of move characters that is not a result.
fn is_move_token(t: &Vec<char>) -> (r: bool)
    ensures
        r == (token_ok(t@) && !is_result_token(t@)),
{
    if !is_token(t) {
        return false;
    }
    let a = str_chars("1-0");
    let b = str_chars("0-1");
    let c = str_chars("1/2-1/2");
    let d = str_chars("*");
    !(chars_eq(t, &a) || chars_eq(t, &b) || chars_eq(t, &c) || chars_eq(t, &d))
}

fn string_of(s: &str) -> (r: String)
    ensures
        r@ == s@,
{
    string_from_chars(&str_chars(s))
}

/// Reads PGN text into games.
pub struct PGNParser;

impl PGNParser {
    pub fn parse(pgn_text: &str) -> (r: Vec<PGNGame>)
        ensures
            games_view(r@) == parse_games(pgn_text@),
    {
        let text = str_chars(pgn_text);
        let lines = split_at_char(&text, '\n');
        let ghost ls = sep_split(text@, '\n');
        let mut games: Vec<PGNGame> = Vec::new();
        let mut current_game = PGNGame::new();
        let mut n: usize = 0;
        while n < lines.len()
            invariant
                n <= lines@.len(),
                vecs_hold(lines@, ls),
                ls == sep_split(pgn_text@, '\n'),
                (games_view(games@), current_game@) == parse_scan(ls, n as nat),
            decreases lines@.len() - n,
        {
            let line = trim_chars(&lines[n]);
            assert(lines@[n as int]@ == ls[n as int]);
            let ghost g0 = games_view(games@);
            let ghost c0 = current_game@;
            let ghost expected = parse_step(g0, c0, ls[n as int]);
            proof {
                assert(parse_scan(ls, (n + 1) as nat) == expected);
            }
            if line.len() == 0 {
                n = n + 1;
                continue;
            }
            if line[0] == '[' && line[line.len() - 1] == ']' {
                let content = slice_chars(&line, 1, line.len() - 1);
                if let Some(space_idx) = find_char_index(&content, ' ') {
                    let key = slice_chars(&content, 0, space_idx);
                    let rest = slice_chars(&content, space_idx + 1, content.len());
                    let value = trim_char_chars(&rest, '"');
                    current_game.set_header(string_from_chars(&key), string_from_chars(&value));
                    let ghost tl = trim(ls[n as int]);
                    assert(line@ == tl);
                    assert(tl[0] == '[' && tl.last() == ']');
                    assert(content@ == tl.subrange(1, tl.len() - 1));
                    assert(find_char(content@, ' ') == Some(space_idx as int));
                    assert(expected.1.headers == header_set(
                        c0.headers,
                        content@.subrange(0, space_idx as int),
                        trim_char(content@.subrange(space_idx + 1, content@.len() as int), '"'),
                    ));
                    assert(current_game@.headers =~= expected.1.headers);
                    assert(current_game@.moves =~= expected.1.moves);
                    assert(current_game@.result =~= expected.1.result);
                } else {
                    assert(find_char(content@, ' ') is None);
                }
            } else {
                let tokens = split_whitespace(&line);
                let ghost ts = ws_fields(line@).map_values(|x: Seq<char>| strip_move_number(x));
                let ghost ws = ws_fields(line@);
                let mut t: usize = 0;
                while t < tokens.len()
                    invariant
                        t <= tokens@.len(),
                        vecs_hold(tokens@, ws),
                        ts == ws.map_values(|x: Seq<char>| strip_move_number(x)),
                        current_game@.headers == c0.headers,
                        current_game@.result == c0.result,
                        current_game@.moves == c0.moves + ts.subrange(0, t as int).filter(token_pred()),
                    decreases tokens@.len() - t,
                {
                    let stripped = strip_number(&tokens[t]);
                    proof {
                        assert(ts.subrange(0, t + 1) =~= ts.subrange(0, t as int).push(ts[t as int]));
                        ts.subrange(0, t as int).lemma_filter_push(ts[t as int], token_pred());
                        assert(tokens@[t as int]@ == ws[t as int]);
                        assert(stripped@ == ts[t as int]);
                    }
                    if is_move_token(&stripped) {
                        current_game.add_move(string_from_chars(&stripped));
                    }
                    t = t + 1;
                }
                assert(ts.subrange(0, t as int) =~= ts);
                assert(ts.filter(token_pred()) == line_moves(line@));
                let res = if contains_pattern(&line, &str_chars("1-0")) {
                    Some(string_of("1-0"))
                } else if contains_pattern(&line, &str_chars("0-1")) {
                    Some(string_of("0-1"))
                } else if contains_pattern(&line, &str_chars("1/2-1/2")) {
                    Some(string_of("1/2-1/2"))
                } else {
                    None
                };
                if let Some(r) = res {
                    current_game.result = r;
                    let finished = current_game;
                    games.push(finished);
                    current_game = PGNGame::new();
                    assert(games_view(games@) =~= g0.push(finished@));
                    assert(finished@.moves =~= expected.0.last().moves);
                    assert(finished@.headers =~= expected.0.last().headers);
                    assert(finished@.result =~= expected.0.last().result);
                    assert(games_view(games@) =~= expected.0);
                } else {
                    assert(current_game@.moves =~= expected.1.moves);
                    assert(current_game@.headers =~= expected.1.headers);
                    assert(current_game@.result =~= expected.1.result);
                }
            }
            n = n + 1;
        }
        assert(ls.len() == lines@.len());
        if current_game.moves.len() > 0 {
            let ghost g0 = games_view(games@);
            let last = current_game;
            games.push(last);
            assert(games_view(games@) =~= g0.push(last@));
        }
        games
    }
}


/// The tags `from_positions` writes.
pub open spec fn computer_game_tags() -> Seq<(Seq<char>, Seq<char>)> {
    seq![
        ("Event"@, "Computer Game"@),
        ("Site"@, "localhost"@),
        ("Date"@, "????.??.??"@),
        ("Round"@, "?"@),
        ("White"@, "Engine"@),
        ("Black"@, "Engine"@),
        ("Result"@, "*"@),
    ]
}

/// `s` is the SAN of a legal move of one of the positions but the last.
pub open spec fn san_of_listed(positions: Seq<Position>, s: Seq<char>) -> bool {
    exists|j: int, m: Move|
        0 <= j < positions.len() - 1 && legal_moves(positions[j]).contains(m) && s == #[trigger] san_text(positions[j], m)
}

/// The first of `ms` that leads from `pos` to a position with hash `next_hash`.
pub open spec fn played_move(pos: Position, next_hash: u64, ms: Seq<Move>) -> Option<Move>
    decreases ms.len(),
{
    if ms.len() == 0 {
        None
    } else {
        match move_result(pos, ms[0]) {
            Some(np) => if np.rehashed().hash == next_hash {
                Some(ms[0])
            } else {
                played_move(pos, next_hash, ms.drop_first())
            },
            None => played_move(pos, next_hash, ms.drop_first()),
        }
    }
}

/// The SAN moves `from_positions` writes for the first `k` steps of `positions`.
pub open spec fn moves_between(positions: Seq<Position>, k: int) -> Seq<Seq<char>>
    decreases k,
{
    if k <= 0 {
        Seq::empty()
    } else {
        let prev = moves_between(positions, k - 1);
        let p = positions[k - 1];
        match played_move(p, positions[k].hash, legal_moves(p)) {
            Some(m) => prev.push(san_text(p, m)),
            None => prev,
        }
    }
}

/// Positions whose moves `from_positions` can write.
pub open spec fn positions_ok(positions: Seq<Position>) -> bool {
    forall|i: int|
        0 <= i < positions.len() - 1 ==> gen_ok(#[trigger] positions[i]) && positions[i].halfmove_clock
            < 65534 && positions[i].fullmove_number < 65534
}

fn set_tag(game: &mut PGNGame, k: &str, v: &str)
    requires
        forall|j: int| 0 <= j < old(game)@.headers.len() ==> old(game)@.headers[j].0 != k@,
    ensures
        final(game)@.headers == old(game)@.headers.push((k@, v@)),
        final(game)@.moves == old(game)@.moves,
        final(game)@.result == old(game)@.result,
{
    proof {
        lemma_no_key(old(game)@.headers, k@);
    }
    game.set_header(string_of(k), string_of(v));
}

impl PGNParser {
    /// A game from a sequence of positions: for each position, the SAN of the first legal
    /// move whose resulting position has the next position's hash.
    pub fn from_positions(positions: &[Position]) -> (r: PGNGame)
        requires
            positions_ok(positions@),
        ensures
            r@.headers == computer_game_tags(),
            r@.result == "*"@,
            r@.moves.len() + 1 <= positions@.len() || r@.moves.len() == 0,
            forall|k: int| 0 <= k < r@.moves.len() ==> #[trigger] san_of_listed(positions@, r@.moves[k]),
            r@.moves == moves_between(positions@, positions@.len() - 1),
    {
        let mut game = PGNGame::new();
        proof {
            reveal_strlit("Event");
            reveal_strlit("Site");
            reveal_strlit("Date");
            reveal_strlit("Round");
            reveal_strlit("White");
            reveal_strlit("Black");
            reveal_strlit("Result");
        }
        set_tag(&mut game, "Event", "Computer Game");
        assert("Event"@[0] != "Site"@[0]);
        set_tag(&mut game, "Site", "localhost");
        assert("Event"@[0] != "Date"@[0] && "Site"@[0] != "Date"@[0]);
        set_tag(&mut game, "Date", "????.??.??");
        assert("Event"@[0] != "Round"@[0] && "Site"@[0] != "Round"@[0] && "Date"@[0] != "Round"@[0]);
        set_tag(&mut game, "Round", "?");
        assert("Event"@[0] != "White"@[0] && "Site"@[0] != "White"@[0] && "Date"@[0] != "White"@[0]
            && "Round"@[0] != "White"@[0]);
        set_tag(&mut game, "White", "Engine");
        assert("Event"@[0] != "Black"@[0] && "Site"@[0] != "Black"@[0] && "Date"@[0] != "Black"@[0]
            && "Round"@[0] != "Black"@[0] && "White"@[0] != "Black"@[0]);
        set_tag(&mut game, "Black", "Engine");
        assert("Event"@[0] != "Result"@[0] && "Site"@[0] != "Result"@[0] && "Date"@[0] != "Result"@[0]
            && "White"@[0] != "Result"@[0] && "Black"@[0] != "Result"@[0] && "Round"@.len() != "Result"@.len());
        set_tag(&mut game, "Result", "*");
        assert(game@.headers =~= computer_game_tags());
        let n = positions.len();
        let mut i: usize = 0;
        while i + 1 < positions.len()
            invariant
                n == positions@.len(),
                i == 0 || i + 1 <= positions@.len(),
                positions_ok(positions@),
                game@.headers == computer_game_tags(),
                game@.result == "*"@,
                game@.moves.len() <= i,
                forall|k: int| 0 <= k < game@.moves.len() ==> #[trigger] san_of_listed(positions@, game@.moves[k]),
                game@.moves == moves_between(positions@, i as int),
            decreases positions@.len() - i,
        {
            let pos = &positions[i];
            let candidates = MoveGen::generate_legal_moves(pos);
            let ghost target = positions@[i + 1].hash;
            let ghost before_moves = game@.moves;
            let mut t: usize = 0;
            assert(candidates.moves@.subrange(0, candidates.moves@.len() as int) =~= candidates.moves@);
            while t < candidates.len()
                invariant_except_break
                    game@.moves.len() <= i,
                    game@.moves == before_moves,
                    played_move(*pos, target, candidates.moves@) == played_move(
                        *pos,
                        target,
                        candidates.moves@.subrange(t as int, candidates.moves@.len() as int),
                    ),
                invariant
                    target == positions@[i + 1].hash,
                    before_moves == moves_between(positions@, i as int),
                    game@.moves.len() <= i + 1,
                    t <= candidates.moves@.len(),
                    i < positions@.len() - 1,
                    *pos == positions@[i as int],
                    gen_ok(*pos),
                    pos.halfmove_clock < 65534,
                    pos.fullmove_number < 65534,
                    candidates.moves@ == legal_moves(*pos),
                    n == positions@.len(),
                    game@.headers == computer_game_tags(),
                    game@.result == "*"@,
                    forall|k: int| 0 <= k < game@.moves.len() ==> #[trigger] san_of_listed(positions@, game@.moves[k]),
                ensures
                    game@.moves == moves_between(positions@, i + 1),
                decreases candidates.moves@.len() - t,
            {
                let mv = candidates.get(t);
                let ghost rest = candidates.moves@.subrange(t as int, candidates.moves@.len() as int);
                assert(rest[0] == mv);
                assert(rest.drop_first() =~= candidates.moves@.subrange(t + 1, candidates.moves@.len() as int));
                proof {
                    assert(legal_moves(*pos).contains(mv)) by {
                        assert(candidates.moves@[t as int] == mv);
                    }
                    crate::perft::lemma_legal_member(*pos, mv);
                    crate::perft::lemma_child_ok(*pos, mv);
                }
                let mut new_pos = *pos;
                if new_pos.make_move(mv).is_ok() && new_pos.hash == positions[i + 1].hash {
                    let san = PGNGame::move_to_san(&mv, pos);
                    let ghost before = game@.moves;
                    game.add_move(san);
                    proof {
                        assert(san_of_listed(positions@, san_text(positions@[i as int], mv)));
                        assert forall|k: int| 0 <= k < game@.moves.len() implies #[trigger] san_of_listed(
                            positions@,
                            game@.moves[k],
                        ) by {
                            if k < before.len() {
                                assert(game@.moves[k] == before[k]);
                            } else {
                                assert(game@.moves[k] == san_text(positions@[i as int], mv));
                            }
                        }
                        assert(new_pos == move_result(*pos, mv).unwrap().rehashed());
                        assert(played_move(*pos, target, rest) == Some(mv));
                        assert(game@.moves =~= before_moves.push(san_text(*pos, mv)));
                    }
                    break;
                }
                t = t + 1;
            }
            i = i + 1;
        }
        game
    }
}


/// The SAN of a move other than castling ends in `#` when the side then to move is in check
/// and has no legal move, in `+` when it is in check and has one, and in neither when it is
/// not in check.
pub proof fn lemma_san_check_mark(pos: Position, mv: Move)
    requires
        move_result(pos, mv) is Some,
        !is_castle_san(pos, mv),
    ensures
        ({
            let after = move_result(pos, mv).unwrap();
            let s = san_text(pos, mv);
            let checked = after.in_check(after.side_to_move);
            &&& s.len() > 0
            &&& checked && legal_moves(after).len() == 0 ==> s.last() == '#'
            &&& checked && legal_moves(after).len() > 0 ==> s.last() == '+'
            &&& !checked ==> s.last() != '#' && s.last() != '+'
        }),
{
    reveal(check_suffix);
    let after = move_result(pos, mv).unwrap();
    let a = crate::perft::strip(after);
    crate::perft::lemma_legal_no_hash(after);
    Position::lemma_in_check_boards(a, after, after.side_to_move);
    let head = san_prefix(pos, mv) + seq![file_char((mv.to % 8) as int), rank_char((mv.to / 8) as int)];
    let body = head + promo_suffix(mv);
    let suffix = check_suffix(pos, mv);
    let s = san_text(pos, mv);
    assert(s == body + suffix);
    assert(head.last() == rank_char((mv.to / 8) as int));
    let r = (mv.to / 8) as int;
    assert(49 + r != 35 && 49 + r != 43);
    assert(rank_char(r) != '#' && rank_char(r) != '+');
    if is_promotion_type(mv.move_type) {
        let ps = promo_suffix(mv);
        assert(ps.len() >= 1);
        assert(ps.last() != '#' && ps.last() != '+') by {
            match promotion_of(mv.move_type) {
                Some(p) => {
                    assert(ps == seq!['='] + san_letter(p));
                    if san_letter(p).len() > 0 {
                        assert(ps.last() == san_letter(p).last());
                    }
                },
                None => {
                    assert(ps == seq!['=']);
                },
            }
        }
        assert(body.last() == ps.last());
    } else {
        assert(promo_suffix(mv) == Seq::<char>::empty());
        assert(body =~= head);
    }
    if suffix.len() > 0 {
        assert(s.last() == suffix.last());
    } else {
        assert(s =~= body);
    }
}

} // verus!
