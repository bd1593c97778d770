use vstd::prelude::*;
use crate::movegen::{Move, uci_text};
use crate::text::{push_str_chars, push_signed, string_from_chars, signed_dec};

verus! {

/// Tactical features of a position.
#[derive(Clone, Debug)]
pub struct TacticalFeatures {
    pub checks_available: usize,
    pub captures_available: usize,
    pub threatened_pieces: Vec<String>,
    pub hanging_pieces: Vec<String>,
    pub pins: Vec<String>,
    pub forks: Vec<String>,
}

/// Positional features of a position.
#[derive(Clone, Copy, Debug)]
pub struct PositionalFeatures {
    pub material_balance: i32,
    pub piece_activity: i32,
    pub pawn_structure_score: i32,
    pub king_safety: i32,
    pub center_control: i32,
}

/// How much a move loses against the best one.
#[derive(Clone, Copy, PartialEq, Eq, Structural, Debug)]
pub enum MoveClassification {
    /// At most 10 centipawns lost.
    Excellent,
    /// At most 50 centipawns lost.
    Good,
    /// At most 100 centipawns lost.
    Inaccuracy,
    /// At most 300 centipawns lost.
    Mistake,
    /// More than 300 centipawns lost.
    Blunder,
}

/// The name of a classification.
pub open spec fn classification_name(c: MoveClassification) -> Seq<char> {
    match c {
        MoveClassification::Excellent => "Excellent"@,
        MoveClassification::Good => "Good"@,
        MoveClassification::Inaccuracy => "Inaccuracy"@,
        MoveClassification::Mistake => "Mistake"@,
        MoveClassification::Blunder => "Blunder"@,
    }
}

/// A played move judged against the best move.
#[derive(Clone, Copy, Debug)]
pub struct MoveQuality {
    pub chosen_move: Move,
    pub chosen_eval: i32,
    pub best_move: Option<Move>,
    pub best_eval: i32,
    pub eval_loss: i32,
    pub classification: MoveClassification,
}

/// The report of a move's quality.
pub open spec fn quality_text(q: MoveQuality) -> Seq<char> {
    "Move: "@ + uci_text(q.chosen_move) + "\nClassification: "@ + classification_name(q.classification)
        + "\nEval: "@ + signed_dec(q.chosen_eval as int) + " cp (loss: "@ + signed_dec(q.eval_loss as int)
        + " cp)\n"@ + match q.best_move {
        Some(b) => "Best move: "@ + uci_text(b) + " ("@ + signed_dec(q.best_eval as int) + " cp)\n"@,
        None => Seq::empty(),
    }
}

impl MoveQuality {
    /// The move, its classification, its evaluation and loss, and the best move if known,
    /// one per line.
    pub fn to_string(&self) -> (r: String)
        ensures
            r@ == quality_text(*self),
    {
        let mut v: Vec<char> = Vec::new();
        push_str_chars(&mut v, "Move: ");
        let u = self.chosen_move.to_uci();
        push_str_chars(&mut v, u.as_str());
        push_str_chars(&mut v, "\nClassification: ");
        match self.classification {
            MoveClassification::Excellent => push_str_chars(&mut v, "Excellent"),
            MoveClassification::Good => push_str_chars(&mut v, "Good"),
            MoveClassification::Inaccuracy => push_str_chars(&mut v, "Inaccuracy"),
            MoveClassification::Mistake => push_str_chars(&mut v, "Mistake"),
            MoveClassification::Blunder => push_str_chars(&mut v, "Blunder"),
        }
        push_str_chars(&mut v, "\nEval: ");
        push_signed(&mut v, self.chosen_eval as i64);
        push_str_chars(&mut v, " cp (loss: ");
        push_signed(&mut v, self.eval_loss as i64);
        push_str_chars(&mut v, " cp)\n");
        if let Some(best) = self.best_move {
            push_str_chars(&mut v, "Best move: ");
            let b = best.to_uci();
            push_str_chars(&mut v, b.as_str());
            push_str_chars(&mut v, " (");
            push_signed(&mut v, self.best_eval as i64);
            push_str_chars(&mut v, " cp)\n");
        }
        assert(v@ =~= quality_text(*self));
        string_from_chars(&v)
    }
}

} // verus!
