use vstd::prelude::*;

use crate::text::{decimal, decimal_text, join, join_with, texts, trim, trimmed};

verus! {

/// The search time that a new session uses, in milliseconds.
pub const DEFAULT_TIME: u32 = 100;

/// `position startpos moves <m1 m2 ...>`: play `moves` from the initial position.
pub open spec fn startpos_line(moves: Seq<Seq<char>>) -> Seq<char> {
    "position startpos moves "@ + join(moves, " "@) + "\n"@
}

/// `position fen <fen> moves <m1 m2 ...>`: play `moves` from the position `fen`.
/// The `moves` clause stands there even when no move is given.
pub open spec fn fen_line(fen: Seq<char>, moves: Seq<Seq<char>>) -> Seq<char> {
    "position fen "@ + fen + " moves "@ + join(moves, " "@) + "\n"@
}

/// `go movetime <ms>`, followed by ` depth <plies>` when a depth is set.
pub open spec fn go_line(movetime: u32, depth: Option<u32>) -> Seq<char> {
    match depth {
        Some(d) => "go movetime "@ + decimal(movetime as nat) + " depth "@ + decimal(d as nat)
            + "\n"@,
        None => "go movetime "@ + decimal(movetime as nat) + "\n"@,
    }
}

/// `setoption name <name> value <value>`.
pub open spec fn setoption_line(name: Seq<char>, value: Seq<char>) -> Seq<char> {
    "setoption name "@ + name + " value "@ + value + "\n"@
}

/// A raw command as it is sent: trimmed, on a line of its own.
pub open spec fn command_line(cmd: Seq<char>) -> Seq<char> {
    trimmed(cmd) + "\n"@
}

/// The state of a session with a chess engine: the search limits applied to every
/// `go` command, and the commands that each operation sends.
#[derive(Clone, Copy)]
pub struct Engine {
    /// Time limit of a search, in milliseconds.
    pub movetime: u32,
    /// Depth limit of a search in plies, if any.
    pub depth: Option<u32>,
}

impl Engine {
    /// A session with the default search time and no depth limit.
    pub fn new() -> (r: Engine)
        ensures
            r.movetime == DEFAULT_TIME,
            r.depth is None,
    {
        Engine { movetime: DEFAULT_TIME, depth: None }
    }

    /// Changes the amount of time the engine spends looking for a move.
    pub fn movetime(self, new_movetime: u32) -> (r: Engine)
        ensures
            r.movetime == new_movetime,
            r.depth == self.depth,
    {
        Engine { movetime: new_movetime, depth: self.depth }
    }

    /// Changes the engine depth when looking for a move.
    pub fn depth(self, new_depth: Option<u32>) -> (r: Engine)
        ensures
            r.movetime == self.movetime,
            r.depth == new_depth,
    {
        Engine { movetime: self.movetime, depth: new_depth }
    }

    /// The command that asks the engine to play `moves` from the initial position.
    pub fn make_moves(&self, moves: &[String]) -> (r: String)
        ensures
            r@ == startpos_line(texts(moves@)),
    {
        let joined = join_with(moves, " ");
        String::from_str("position startpos moves ").concat(joined.as_str()).concat("\n")
    }

    /// The command that asks the engine to use the position `fen`.
    pub fn set_position(&self, fen: &str) -> (r: String)
        ensures
            r@ == fen_line(fen@, Seq::empty()),
    {
        let moves: Vec<String> = Vec::new();
        let r = self.make_moves_from_position(fen, &moves);
        assert(texts(moves@) =~= Seq::<Seq<char>>::empty());
        r
    }

    /// The command that asks the engine to use the position `fen` and then play `moves`.
    pub fn make_moves_from_position(&self, fen: &str, moves: &Vec<String>) -> (r: String)
        ensures
            r@ == fen_line(fen@, texts(moves@)),
    {
        let joined = join_with(moves.as_slice(), " ");
        String::from_str("position fen ").concat(fen).concat(" moves ").concat(
            joined.as_str(),
        ).concat("\n")
    }

    /// The command that starts a search under this session's limits.
    pub fn do_move(&self) -> (r: String)
        ensures
            r@ == go_line(self.movetime, self.depth),
    {
        let head = String::from_str("go movetime ").concat(decimal_text(self.movetime).as_str());
        match self.depth {
            Some(d) => head.concat(" depth ").concat(decimal_text(d).as_str()).concat("\n"),
            None => head.concat("\n"),
        }
    }

    /// The command that sets the engine option `name` to `value`.
    pub fn set_option(&self, name: &str, value: &str) -> (r: String)
        ensures
            r@ == setoption_line(name@, value@),
    {
        String::from_str("setoption name ").concat(name).concat(" value ").concat(value).concat(
            "\n",
        )
    }

    /// The line that sends the raw command `cmd`.
    pub fn command(&self, cmd: &str) -> (r: String)
        ensures
            r@ == command_line(cmd@),
    {
        String::from_str(trim(cmd)).concat("\n")
    }

    /// The command that asks the engine to report when it is ready.
    pub fn ready_command(&self) -> (r: String)
        ensures
            r@ == "isready\n"@,
    {
        String::from_str("isready\n")
    }
}

/// A position given without moves keeps its `moves` clause, empty but present:
/// the line ends in ` moves ` and the newline.
pub proof fn lemma_empty_moves_keep_clause(fen: Seq<char>)
    ensures
        fen_line(fen, Seq::empty()) == "position fen "@ + fen + " moves \n"@,
{
    reveal_strlit(" moves ");
    reveal_strlit("\n");
    reveal_strlit(" moves \n");
    assert(join(Seq::<Seq<char>>::empty(), " "@) == Seq::<char>::empty());
    assert(fen_line(fen, Seq::empty()) =~= "position fen "@ + fen + " moves \n"@);
}

} // verus!
