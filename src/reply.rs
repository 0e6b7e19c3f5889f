use vstd::prelude::*;

use crate::error::{EngineError, Result};
use crate::text::{
    all_space, has_prefix, i32_of, is_space_char, join, join_with, lemma_split_at_space,
    lemma_split_no_space, lemma_trim_end_drops_space, line_text, parse_i32, same_text,
    split_spaces, split_spaces_of, starts_with, strip_line_end, texts, trim, trim_end, trim_start,
    trimmed,
};

verus! {

/// A line that reports the end of a search.
pub open spec fn is_bestmove_line(line: Seq<char>) -> bool {
    has_prefix(line, "bestmove"@)
}

/// A line that reports search information.
pub open spec fn is_info_line(line: Seq<char>) -> bool {
    has_prefix(line, "info"@)
}

/// The move that a `bestmove` line names: its second space-separated field, trimmed,
/// or nothing when the line has a single field.
pub open spec fn best_move_text(line: Seq<char>) -> Option<Seq<char>> {
    let f = split_spaces(line);
    if f.len() > 1 {
        Some(trimmed(f[1]))
    } else {
        None
    }
}

/// Reads one line of the engine's reply to a search for the best move:
/// `None` while the line is not a `bestmove` line, so that reading goes on;
/// else the move it names, or `NotFound` when it names none.
pub fn bestmove_reply(line: &str) -> (r: Option<Result<String>>)
    ensures
        r is None <==> !is_bestmove_line(line@),
        r matches Some(Ok(m)) ==> best_move_text(line@) == Some(m@),
        r matches Some(Err(e)) ==> e is NotFound && best_move_text(line@) is None,
{
    if !starts_with(line, "bestmove") {
        return None;
    }
    let fields = split_spaces_of(line);
    assert(texts(fields@).len() == fields@.len());
    if fields.len() > 1 {
        let m = String::from_str(trim(fields[1].as_str()));
        assert(texts(fields@)[1] == fields@[1]@);
        Some(Ok(m))
    } else {
        Some(Err(EngineError::NotFound))
    }
}

/// The index of the last field equal to `cp`, or -1 when there is none.
pub open spec fn last_cp_index(fields: Seq<Seq<char>>) -> int
    decreases fields.len(),
{
    if fields.len() == 0 {
        -1
    } else if fields.last() == "cp"@ {
        fields.len() - 1
    } else {
        last_cp_index(fields.drop_last())
    }
}

proof fn lemma_last_cp_index(fields: Seq<Seq<char>>)
    ensures
        -1 <= last_cp_index(fields) < fields.len(),
        last_cp_index(fields) >= 0 ==> fields[last_cp_index(fields)] == "cp"@,
        forall|j: int|
            last_cp_index(fields) < j < fields.len() ==> fields[j] != "cp"@,
    decreases fields.len(),
{
    if fields.len() > 0 && fields.last() != "cp"@ {
        lemma_last_cp_index(fields.drop_last());
        assert forall|j: int| last_cp_index(fields) < j < fields.len() implies fields[j]
            != "cp"@ by {
            if j < fields.len() - 1 {
                assert(fields[j] == fields.drop_last()[j]);
            }
        }
    }
}

/// The centipawn score of an `info` line: the field after its last `cp` field,
/// read as an `i32`.
pub open spec fn cp_score(info: Seq<char>) -> Option<i32> {
    let f = split_spaces(info);
    let k = last_cp_index(f);
    if 0 <= k && k + 1 < f.len() {
        i32_of(f[k + 1])
    } else {
        None
    }
}

/// The centipawn score in the `info` line `info`; `NotFound` where it has none.
pub fn score_of(info: &str) -> (r: Result<i32>)
    ensures
        r matches Ok(v) ==> cp_score(info@) == Some(v),
        r matches Err(e) ==> e is NotFound && cp_score(info@) is None,
{
    let fields = split_spaces_of(info);
    let ghost f = texts(fields@);
    proof {
        lemma_last_cp_index(f);
    }
    let mut k: usize = fields.len();
    while k > 0 && !same_text(fields[k - 1].as_str(), "cp")
        invariant
            k <= fields@.len(),
            f == texts(fields@),
            forall|j: int| k <= j < f.len() ==> f[j] != "cp"@,
        decreases k,
    {
        k = k - 1;
    }
    proof {
        if k > 0 {
            assert(f[k - 1] == "cp"@);
        }
        assert(last_cp_index(f) == k - 1) by {
            lemma_last_cp_index(f);
            if last_cp_index(f) > k - 1 {
                assert(f[last_cp_index(f)] != "cp"@);
            }
        }
    }
    if k == 0 || k >= fields.len() {
        return Err(EngineError::NotFound);
    }
    match parse_i32(fields[k].as_str()) {
        Some(v) => Ok(v),
        None => Err(EngineError::NotFound),
    }
}

/// The `info` line kept after reading `line`: a new `info` line replaces the one kept.
pub open spec fn info_after(info: Seq<char>, line: Seq<char>) -> Seq<char> {
    if is_info_line(line) {
        line
    } else {
        info
    }
}

/// The `info` line kept after reading `lines` in order, starting from `info`.
pub open spec fn info_after_lines(info: Seq<char>, lines: Seq<Seq<char>>) -> Seq<char>
    decreases lines.len(),
{
    if lines.len() == 0 {
        info
    } else {
        info_after(info_after_lines(info, lines.drop_last()), lines.last())
    }
}

/// The reply to a search whose evaluation is wanted: keeps the last `info` line
/// until the `bestmove` line ends the search.
pub struct EvaluationReply {
    /// The last `info` line read so far; empty before the first.
    pub info: String,
}

impl EvaluationReply {
    pub fn new() -> (r: EvaluationReply)
        ensures
            r.info@ == Seq::<char>::empty(),
    {
        EvaluationReply { info: String::new() }
    }

    /// Reads one line of the reply; true when it ends the search.
    pub fn feed(&mut self, line: &str) -> (done: bool)
        ensures
            final(self).info@ == info_after(old(self).info@, line@),
            done == is_bestmove_line(line@),
    {
        if starts_with(line, "info") {
            self.info = String::from_str(line);
        }
        starts_with(line, "bestmove")
    }

    /// The centipawn score in the kept `info` line.
    pub fn result(&self) -> (r: Result<i32>)
        ensures
            r matches Ok(v) ==> cp_score(self.info@) == Some(v),
            r matches Err(e) ==> e is NotFound && cp_score(self.info@) is None,
    {
        score_of(self.info.as_str())
    }
}

/// A line that answers `isready`.
pub open spec fn is_readyok_line(line: Seq<char>) -> bool {
    trimmed(line) == "readyok"@
}

/// The lines collected after reading `lines`, none of them `readyok`, starting from `acc`:
/// each one as it came, without its line terminator.
pub open spec fn collected(acc: Seq<Seq<char>>, lines: Seq<Seq<char>>) -> Seq<Seq<char>>
    decreases lines.len(),
{
    if lines.len() == 0 {
        acc
    } else {
        collected(acc, lines.drop_last()).push(line_text(lines.last()))
    }
}

/// The reply to `isready`: collects the lines that come before `readyok`.
pub struct ReadyReply {
    /// The lines read so far, without their line terminators, in order.
    pub lines: Vec<String>,
}

impl ReadyReply {
    pub fn new() -> (r: ReadyReply)
        ensures
            r.lines@.len() == 0,
    {
        ReadyReply { lines: Vec::new() }
    }

    /// Reads one line of the reply; true when it is `readyok`, which ends the reply.
    /// Any other line is kept as it came, without its line terminator.
    pub fn feed(&mut self, line: &str) -> (done: bool)
        ensures
            done == is_readyok_line(line@),
            done ==> texts(final(self).lines@) == texts(old(self).lines@),
            !done ==> texts(final(self).lines@) == texts(old(self).lines@).push(
                line_text(line@),
            ),
    {
        if same_text(trim(line), "readyok") {
            true
        } else {
            let kept = String::from_str(strip_line_end(line));
            let ghost before = self.lines@;
            self.lines.push(kept);
            assert(texts(self.lines@) =~= texts(before).push(line_text(line@)));
            false
        }
    }

    /// The collected lines, joined by newlines.
    pub fn output(&self) -> (r: String)
        ensures
            r@ == join(texts(self.lines@), "\n"@),
    {
        join_with(self.lines.as_slice(), "\n")
    }
}

/// The engine accepted a `setoption` command: the text it wrote before `readyok`,
/// its lines joined by newlines, is empty.
pub open spec fn option_accepted(collected: Seq<Seq<char>>) -> bool {
    join(collected, "\n"@).len() == 0
}

/// The outcome of setting the option `name`, from the engine's reply to `isready`:
/// any text before `readyok` is taken as the engine's rejection of the option.
pub fn option_result(name: &str, reply: &ReadyReply) -> (r: Result<()>)
    ensures
        r is Ok <==> option_accepted(texts(reply.lines@)),
        r matches Err(e) ==> e matches EngineError::UnknownOption(n) && n@ == name@,
{
    if reply.output().unicode_len() == 0 {
        Ok(())
    } else {
        Err(EngineError::UnknownOption(String::from_str(name)))
    }
}

/// What a search for the best move gives after reading `lines`: nothing until a
/// `bestmove` line, then the move that the first such line names, if it names one.
pub open spec fn search_result(lines: Seq<Seq<char>>) -> Option<Option<Seq<char>>>
    decreases lines.len(),
{
    if lines.len() == 0 {
        None
    } else if is_bestmove_line(lines[0]) {
        Some(best_move_text(lines[0]))
    } else {
        search_result(lines.drop_first())
    }
}

/// The best move is the token of the first `bestmove` line, taken verbatim: whatever
/// lines came before it, a reply `bestmove <token>` whose token is followed by white
/// space other than a space (a line end), and then either nothing or a space and more
/// fields (`ponder ...`), gives `token` itself.
pub proof fn lemma_bestmove_token_verbatim(
    before: Seq<Seq<char>>,
    token: Seq<char>,
    gap: Seq<char>,
    rest: Seq<char>,
)
    requires
        forall|i: int| 0 <= i < before.len() ==> !is_bestmove_line(#[trigger] before[i]),
        token.len() > 0,
        forall|i: int| 0 <= i < token.len() ==> !is_space_char(#[trigger] token[i]),
        all_space(gap),
        forall|i: int| 0 <= i < gap.len() ==> #[trigger] gap[i] != ' ',
        rest.len() == 0 || rest[0] == ' ',
    ensures
        search_result(before.push("bestmove "@ + token + gap + rest)) == Some(Some(token)),
    decreases before.len(),
{
    let line = "bestmove "@ + token + gap + rest;
    if before.len() > 0 {
        assert(before.push(line).drop_first() =~= before.drop_first().push(line));
        assert forall|i: int| 0 <= i < before.drop_first().len() implies !is_bestmove_line(
            #[trigger] before.drop_first()[i],
        ) by {
            assert(before.drop_first()[i] == before[i + 1]);
        }
        lemma_bestmove_token_verbatim(before.drop_first(), token, gap, rest);
        assert(!is_bestmove_line(before[0]));
    } else {
        reveal_strlit("bestmove ");
        reveal_strlit("bestmove");
        assert(line.subrange(0, 8) =~= "bestmove"@);
        assert(before.push(line)[0] == line);
        let head = "bestmove"@;
        let field = token + gap;
        assert forall|i: int| 0 <= i < field.len() implies field[i] != ' ' by {
            if i >= token.len() {
                assert(field[i] == gap[i - token.len()]);
            } else {
                assert(!is_space_char(token[i]));
            }
        }
        lemma_split_no_space(head);
        lemma_split_no_space(field);
        if rest.len() > 0 {
            let r = rest.drop_first();
            assert(line =~= head + seq![' '] + (field + seq![' '] + r));
            lemma_split_at_space(head, field + seq![' '] + r);
            lemma_split_at_space(field, r);
        } else {
            assert(line =~= head + seq![' '] + field);
            lemma_split_at_space(head, field);
        }
        assert(split_spaces(line)[1] == field);
        assert(!is_space_char(token[0]));
        assert(field[0] == token[0]);
        assert(trim_start(field) == field);
        lemma_trim_end_drops_space(token, gap);
        assert(!is_space_char(token[token.len() - 1]));
        assert(trim_end(token) == token);
    }
}

/// The evaluation comes from the last `info` line before the end of the search:
/// an `info` line replaces any read before it, and lines of other kinds leave it.
pub proof fn lemma_last_info_line_counts(start: Seq<char>, lines: Seq<Seq<char>>, i: int)
    requires
        0 <= i < lines.len(),
        is_info_line(lines[i]),
        forall|j: int| i < j < lines.len() ==> !is_info_line(#[trigger] lines[j]),
    ensures
        info_after_lines(start, lines) == lines[i],
    decreases lines.len(),
{
    if i < lines.len() - 1 {
        let p = lines.drop_last();
        assert forall|j: int| i < j < p.len() implies !is_info_line(#[trigger] p[j]) by {
            assert(p[j] == lines[j]);
        }
        lemma_last_info_line_counts(start, p, i);
    }
}

/// Setting an option succeeds exactly when the engine wrote no text before `readyok`:
/// either no line at all, or a single line that is empty once its line terminator is
/// removed. Any other reply (a line with text, or two lines even if blank) makes it
/// fail with `UnknownOption`. The lines collected are the engine's own, each without
/// its line terminator.
pub proof fn lemma_option_rejected_by_output(before: Seq<Seq<char>>)
    ensures
        option_accepted(collected(Seq::empty(), before)) <==> (before.len() == 0 || (
        before.len() == 1 && line_text(before[0]).len() == 0)),
        forall|i: int|
            0 <= i < before.len() ==> #[trigger] collected(Seq::empty(), before)[i] == line_text(
                before[i],
            ),
{
    lemma_collected_lines(before);
    let c = collected(Seq::empty(), before);
    reveal_strlit("\n");
    if c.len() >= 2 {
        assert(join(c, "\n"@) == join(c.drop_last(), "\n"@) + "\n"@ + c.last());
        assert(join(c, "\n"@).len() >= 1);
    } else if c.len() == 1 {
        assert(join(c, "\n"@) == c[0]);
    }
}

proof fn lemma_collected_lines(lines: Seq<Seq<char>>)
    ensures
        collected(Seq::empty(), lines).len() == lines.len(),
        forall|i: int|
            0 <= i < lines.len() ==> #[trigger] collected(Seq::empty(), lines)[i] == line_text(
                lines[i],
            ),
    decreases lines.len(),
{
    if lines.len() > 0 {
        lemma_collected_lines(lines.drop_last());
        assert forall|i: int| 0 <= i < lines.len() implies #[trigger] collected(
            Seq::empty(),
            lines,
        )[i] == line_text(lines[i]) by {
            if i < lines.len() - 1 {
                assert(lines.drop_last()[i] == lines[i]);
            }
        }
    }
}

} // verus!
