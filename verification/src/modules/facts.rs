//! Fact gathering over a connection: the commands of several facts are sent as
//! one shell script whose answers are told apart by marker lines, and the
//! answers are split back into one result per command.
use vstd::prelude::*;
use vstd::string::StringExecFns;
use crate::assoc::{entries, insert_entry};
use crate::inventory::host::opt_view;
use crate::numbers::{decimal, parse_unsigned, parse_unsigned_spec, push_decimal};
use crate::text::{
    chars_of, concat2, has_prefix, has_suffix, join_lines, joined, lines_of, string_of,
    sub_chars, text_lines, trim, trim_end_char, trim_end_matches, trim_ws,
};

verus! {

/// The command that reads a remote file, also the key its answer is kept under.
pub fn read_file_command(path: &str) -> (r: String)
    ensures
        r@ == "cat "@ + path@,
{
    concat2("cat ", path)
}

/// The text that introduces the marker lines of a batch.
pub open spec fn marker_prefix(nonce: Seq<char>) -> Seq<char> {
    "RUSTIBLE_"@ + nonce + "_"@
}

/// The lines the batch script holds for the command at `index`.
pub open spec fn batch_section(nonce: Seq<char>, index: nat, command: Seq<char>) -> Seq<char> {
    "echo "@ + marker_prefix(nonce) + decimal(index) + "_BEGIN\n"@ + command + "\n"@ + "echo "@
        + marker_prefix(nonce) + decimal(index) + "_END\n"@
}

/// The batch script: each command between an `echo` of its begin marker and
/// an `echo` of its end marker, in order.
pub open spec fn batch_script(nonce: Seq<char>, commands: Seq<Seq<char>>) -> Seq<char>
    decreases commands.len(),
{
    if commands.len() == 0 {
        Seq::empty()
    } else {
        batch_script(nonce, commands.drop_last()) + batch_section(
            nonce,
            (commands.len() - 1) as nat,
            commands.last(),
        )
    }
}

/// The views of string slices.
pub open spec fn str_views(v: Seq<&str>) -> Seq<Seq<char>> {
    v.map_values(|s: &str| s@)
}

/// Builds the shell script that runs each command between marker lines.
pub fn build_batch_script(nonce: &str, commands: &[&str]) -> (r: String)
    ensures
        r@ == batch_script(nonce@, str_views(commands@)),
{
    let mut script = String::new();
    let mut i: usize = 0;
    while i < commands.len()
        invariant
            i <= commands@.len(),
            script@ == batch_script(nonce@, str_views(commands@.take(i as int))),
        decreases commands@.len() - i,
    {
        proof {
            assert(str_views(commands@.take(i + 1)).drop_last() =~= str_views(commands@.take(i as int)));
        }
        let ghost before = script@;
        script.append("echo RUSTIBLE_");
        script.append(nonce);
        script.append("_");
        push_decimal(&mut script, i as u64);
        script.append("_BEGIN\n");
        script.append(commands[i]);
        script.append("\n");
        script.append("echo RUSTIBLE_");
        script.append(nonce);
        script.append("_");
        push_decimal(&mut script, i as u64);
        script.append("_END\n");
        proof {
            reveal_strlit("echo RUSTIBLE_");
            reveal_strlit("echo ");
            reveal_strlit("RUSTIBLE_");
            assert("echo RUSTIBLE_"@ =~= "echo "@ + "RUSTIBLE_"@);
            assert(script@ =~= before + batch_section(nonce@, i as nat, commands@[i as int]@));
        }
        i = i + 1;
    }
    proof {
        assert(commands@.take(commands@.len() as int) =~= commands@);
    }
    script
}

/// The answers of a batch: each command with its trimmed output, or `None`
/// when that output was empty.
pub type BatchAnswers = Seq<(Seq<char>, Option<Seq<char>>)>;

/// Where reading a batch stands: the section being read (its index and the
/// lines read so far), and the answers found.
pub type BatchState = (Option<(nat, Seq<Seq<char>>)>, BatchAnswers);

/// What one line of output does to the reading of a batch; `None` when the
/// output cannot be a run of the batch (a marker with a bad index, an end
/// marker that does not close the open section, an index past the commands).
pub open spec fn batch_step(nonce: Seq<char>, commands: Seq<Seq<char>>, st: BatchState, line: Seq<char>) -> Option<BatchState> {
    let lt = trim_end_char(line, '\r');
    let p = marker_prefix(nonce);
    let rest = lt.skip(p.len() as int);
    if has_prefix(lt, p) && has_suffix(rest, "_BEGIN"@) {
        match parse_unsigned_spec(rest.take(rest.len() - 6), usize::MAX as nat) {
            None => None,
            Some(i) => Some((Some((i, Seq::empty())), st.1)),
        }
    } else if has_prefix(lt, p) && has_suffix(rest, "_END"@) {
        match parse_unsigned_spec(rest.take(rest.len() - 4), usize::MAX as nat) {
            None => None,
            Some(i) => match st.0 {
                None => None,
                Some(open) => if open.0 != i || i >= commands.len() {
                    None
                } else {
                    let out = trim_ws(joined(open.1, seq!['\n']));
                    Some((None, insert_entry(st.1, commands[i as int], if out.len() > 0 { Some(out) } else { None })))
                },
            },
        }
    } else {
        match st.0 {
            Some(open) => Some((Some((open.0, open.1.push(line))), st.1)),
            None => Some(st),
        }
    }
}

/// Reading all the lines of a batch's output, from nothing open and no answers.
pub open spec fn batch_run(nonce: Seq<char>, commands: Seq<Seq<char>>, lines: Seq<Seq<char>>) -> Option<BatchState>
    decreases lines.len(),
{
    if lines.len() == 0 {
        Some((None, Seq::empty()))
    } else {
        match batch_run(nonce, commands, lines.drop_last()) {
            None => None,
            Some(st) => batch_step(nonce, commands, st, lines.last()),
        }
    }
}

/// The answers of a batch's output, when every section was closed and every
/// command answered once.
pub open spec fn batch_answers(nonce: Seq<char>, output: Seq<char>, commands: Seq<Seq<char>>) -> Option<BatchAnswers> {
    match batch_run(nonce, commands, text_lines(output)) {
        None => None,
        Some(st) => if st.0 is Some || st.1.len() != commands.len() {
            None
        } else {
            Some(st.1)
        },
    }
}

/// The views of the answers kept as strings.
pub open spec fn answer_views(v: Seq<(String, Option<String>)>) -> BatchAnswers {
    entries(v).map_values(|p: (Seq<char>, Option<String>)| (p.0, opt_view(p.1)))
}

/// The index of a marker line `<prefix><digits><suffix>`, if it parses.
fn marker_index(rest: &Vec<char>, suffix_len: usize) -> (r: Option<usize>)
    requires
        suffix_len <= rest@.len(),
    ensures
        match parse_unsigned_spec(rest@.take(rest@.len() - suffix_len), usize::MAX as nat) {
            Some(i) => r is Some && r.unwrap() as nat == i,
            None => r is None,
        },
{
    let digits = sub_chars(rest, 0, rest.len() - suffix_len);
    proof {
        assert(digits@ =~= rest@.take(rest@.len() - suffix_len));
    }
    match parse_unsigned(&digits, usize::MAX as u64) {
        Some(v) => Some(v as usize),
        None => None,
    }
}

/// Inserts an answer, keeping one answer per command.
fn insert_answer(answers: &mut Vec<(String, Option<String>)>, command: String, value: Option<String>)
    ensures
        answer_views(final(answers)@) == insert_entry(
            answer_views(old(answers)@),
            command@,
            opt_view(value),
        ),
{
    let ghost f = |v: Option<String>| opt_view(v);
    let ghost vv = opt_view(value);
    let ghost before = entries(answers@);
    proof {
        crate::assoc::lemma_key_index_map_values(before, f, command@);
        crate::assoc::lemma_key_index_found(before, command@);
        assert(before.map_values(|p: (Seq<char>, Option<String>)| (p.0, f(p.1))) =~= answer_views(answers@));
    }
    crate::assoc::insert(answers, command, value);
    proof {
        let after = entries(answers@);
        match crate::assoc::key_index(before, command@) {
            Some(i) => {
                assert(answer_views(answers@) =~= answer_views(old(answers)@).update(i, (command@, vv)));
            },
            None => {
                assert(answer_views(answers@) =~= answer_views(old(answers)@).push((command@, vv)));
            },
        }
    }
}

/// A marker line as the batch script's `echo` prints it: the marker prefix,
/// the command's index, and `_BEGIN` or `_END`.
pub open spec fn marker_line(nonce: Seq<char>, index: nat, end: bool) -> Seq<char> {
    marker_prefix(nonce) + decimal(index) + (if end { "_END"@ } else { "_BEGIN"@ })
}

/// The lines a run of the batch script prints, given the lines each command
/// printed: for each command in order, its begin marker, its lines, and its
/// end marker.
pub open spec fn printed_lines(nonce: Seq<char>, outs: Seq<Seq<Seq<char>>>) -> Seq<Seq<char>>
    decreases outs.len(),
{
    if outs.len() == 0 {
        Seq::empty()
    } else {
        printed_lines(nonce, outs.drop_last()) + seq![marker_line(nonce, (outs.len() - 1) as nat, false)]
            + outs.last() + seq![marker_line(nonce, (outs.len() - 1) as nat, true)]
    }
}

/// The answer that a command's printed lines give: their text trimmed, or
/// `None` when that is empty.
pub open spec fn printed_answer(lines: Seq<Seq<char>>) -> Option<Seq<char>> {
    let out = trim_ws(joined(lines, seq!['\n']));
    if out.len() > 0 {
        Some(out)
    } else {
        None
    }
}

/// Each command, in order, with the answer its printed lines give.
pub open spec fn expected_answers(commands: Seq<Seq<char>>, outs: Seq<Seq<Seq<char>>>) -> BatchAnswers {
    Seq::new(outs.len(), |i: int| (commands[i], printed_answer(outs[i])))
}

/// No line a command printed starts, once trailing carriage returns are
/// dropped, with the batch's marker prefix.
pub open spec fn free_of_markers(nonce: Seq<char>, outs: Seq<Seq<Seq<char>>>) -> bool {
    forall|i: int, j: int|
        0 <= i < outs.len() && 0 <= j < outs[i].len() ==> !has_prefix(
            trim_end_char(#[trigger] outs[i][j], '\r'),
            marker_prefix(nonce),
        )
}

proof fn lemma_marker_step(nonce: Seq<char>, commands: Seq<Seq<char>>, st: BatchState, i: nat, end: bool)
    requires
        i <= usize::MAX,
    ensures
        batch_step(nonce, commands, st, marker_line(nonce, i, end)) == (if !end {
            Some((Some((i, Seq::<Seq<char>>::empty())), st.1))
        } else {
            match st.0 {
                None => None,
                Some(open) => if open.0 != i || i >= commands.len() {
                    None
                } else {
                    Some((None, insert_entry(st.1, commands[i as int], printed_answer(open.1))))
                },
            }
        }),
{
    let p = marker_prefix(nonce);
    let d = decimal(i);
    let suf = if end { "_END"@ } else { "_BEGIN"@ };
    let line = marker_line(nonce, i, end);
    reveal_strlit("_END");
    reveal_strlit("_BEGIN");
    crate::numbers::lemma_parse_decimal(i, usize::MAX as nat);
    assert(line.last() == suf.last());
    assert(trim_end_char(line, '\r') == line);
    assert(line.take(p.len() as int) =~= p);
    let rest = line.skip(p.len() as int);
    assert(rest =~= d + suf);
    if end {
        assert(rest.last() == 'D');
        assert(!has_suffix(rest, "_BEGIN"@)) by {
            if has_suffix(rest, "_BEGIN"@) {
                assert(rest.skip(rest.len() - 6).last() == rest.last());
            }
        }
        assert(rest.skip(rest.len() - 4) =~= suf);
        assert(rest.take(rest.len() - 4) =~= d);
    } else {
        assert(rest.skip(rest.len() - 6) =~= suf);
        assert(rest.take(rest.len() - 6) =~= d);
    }
}

proof fn lemma_body_lines(
    nonce: Seq<char>,
    commands: Seq<Seq<char>>,
    before: Seq<Seq<char>>,
    body: Seq<Seq<char>>,
    i: nat,
    acc: BatchAnswers,
)
    requires
        batch_run(nonce, commands, before) == Some((Some((i, Seq::<Seq<char>>::empty())), acc)),
        forall|j: int| 0 <= j < body.len() ==> !has_prefix(trim_end_char(#[trigger] body[j], '\r'), marker_prefix(nonce)),
    ensures
        batch_run(nonce, commands, before + body) == Some((Some((i, body)), acc)),
    decreases body.len(),
{
    if body.len() == 0 {
        assert(before + body =~= before);
    } else {
        let init = body.drop_last();
        assert forall|j: int| 0 <= j < init.len() implies !has_prefix(trim_end_char(#[trigger] init[j], '\r'), marker_prefix(nonce)) by {
            assert(init[j] == body[j]);
        }
        lemma_body_lines(nonce, commands, before, init, i, acc);
        assert((before + body).drop_last() =~= before + init);
        assert((before + body).last() == body.last());
        assert(!has_prefix(trim_end_char(body[body.len() - 1], '\r'), marker_prefix(nonce)));
        assert(init.push(body.last()) =~= body);
    }
}

proof fn lemma_printed_run(nonce: Seq<char>, commands: Seq<Seq<char>>, outs: Seq<Seq<Seq<char>>>)
    requires
        outs.len() <= commands.len() <= usize::MAX,
        forall|a: int, b: int| 0 <= a < b < commands.len() ==> commands[a] != commands[b],
        free_of_markers(nonce, outs),
    ensures
        batch_run(nonce, commands, printed_lines(nonce, outs)) == Some((
            None::<(nat, Seq<Seq<char>>)>,
            expected_answers(commands, outs),
        )),
    decreases outs.len(),
{
    if outs.len() == 0 {
        assert(expected_answers(commands, outs) =~= Seq::<(Seq<char>, Option<Seq<char>>)>::empty());
    } else {
        let n: nat = (outs.len() - 1) as nat;
        let prev = outs.drop_last();
        assert forall|i: int, j: int| 0 <= i < prev.len() && 0 <= j < prev[i].len() implies !has_prefix(
            trim_end_char(#[trigger] prev[i][j], '\r'),
            marker_prefix(nonce),
        ) by {
            assert(prev[i] == outs[i]);
        }
        lemma_printed_run(nonce, commands, prev);
        let acc = expected_answers(commands, prev);
        let l0 = printed_lines(nonce, prev);
        let b = marker_line(nonce, n, false);
        let e = marker_line(nonce, n, true);
        let body = outs.last();
        lemma_marker_step(nonce, commands, (None, acc), n, false);
        assert((l0 + seq![b]).drop_last() =~= l0);
        assert((l0 + seq![b]).last() == b);
        assert forall|j: int| 0 <= j < body.len() implies !has_prefix(trim_end_char(#[trigger] body[j], '\r'), marker_prefix(nonce)) by {
            assert(body[j] == outs[n as int][j]);
        }
        lemma_body_lines(nonce, commands, l0 + seq![b], body, n, acc);
        let lb = l0 + seq![b] + body;
        lemma_marker_step(nonce, commands, (Some((n, body)), acc), n, true);
        assert((lb + seq![e]).drop_last() =~= lb);
        assert((lb + seq![e]).last() == e);
        assert(printed_lines(nonce, outs) == lb + seq![e]);
        crate::assoc::lemma_key_index_found(acc, commands[n as int]);
        match crate::assoc::key_index(acc, commands[n as int]) {
            Some(k) => {
                assert(acc[k].0 == commands[k]);
                assert(false);
            },
            None => {},
        }
        assert(expected_answers(commands, outs) =~= acc.push((commands[n as int], printed_answer(body))));
    }
}

/// Reading the printed lines of a run, whatever the commands: each answer
/// is put in its command's place, a repeated command replacing its earlier answer.
proof fn lemma_printed_run_merged(nonce: Seq<char>, commands: Seq<Seq<char>>, outs: Seq<Seq<Seq<char>>>)
    requires
        outs.len() <= commands.len() <= usize::MAX,
        free_of_markers(nonce, outs),
    ensures
        batch_run(nonce, commands, printed_lines(nonce, outs)) == Some((
            None::<(nat, Seq<Seq<char>>)>,
            crate::assoc::merged(Seq::empty(), expected_answers(commands, outs)),
        )),
    decreases outs.len(),
{
    if outs.len() == 0 {
        assert(expected_answers(commands, outs) =~= Seq::<(Seq<char>, Option<Seq<char>>)>::empty());
    } else {
        let n: nat = (outs.len() - 1) as nat;
        let prev = outs.drop_last();
        assert forall|i: int, j: int| 0 <= i < prev.len() && 0 <= j < prev[i].len() implies !has_prefix(
            trim_end_char(#[trigger] prev[i][j], '\r'),
            marker_prefix(nonce),
        ) by {
            assert(prev[i] == outs[i]);
        }
        lemma_printed_run_merged(nonce, commands, prev);
        let acc = crate::assoc::merged(Seq::<(Seq<char>, Option<Seq<char>>)>::empty(), expected_answers(commands, prev));
        let l0 = printed_lines(nonce, prev);
        let b = marker_line(nonce, n, false);
        let e = marker_line(nonce, n, true);
        let body = outs.last();
        lemma_marker_step(nonce, commands, (None, acc), n, false);
        assert((l0 + seq![b]).drop_last() =~= l0);
        assert((l0 + seq![b]).last() == b);
        assert forall|j: int| 0 <= j < body.len() implies !has_prefix(trim_end_char(#[trigger] body[j], '\r'), marker_prefix(nonce)) by {
            assert(body[j] == outs[n as int][j]);
        }
        lemma_body_lines(nonce, commands, l0 + seq![b], body, n, acc);
        let lb = l0 + seq![b] + body;
        lemma_marker_step(nonce, commands, (Some((n, body)), acc), n, true);
        assert((lb + seq![e]).drop_last() =~= lb);
        assert((lb + seq![e]).last() == e);
        assert(printed_lines(nonce, outs) == lb + seq![e]);
        let all = expected_answers(commands, outs);
        assert(all.drop_last() =~= expected_answers(commands, prev));
        assert(all.last() == (commands[n as int], printed_answer(body)));
    }
}

/// Merging entries into a list adds at most one entry each, every key merged
/// can be looked up afterwards, and a key that comes twice adds one entry less.
proof fn lemma_merged_len<V>(m: Seq<(Seq<char>, V)>, x: Seq<(Seq<char>, V)>, a: int, b: int)
    ensures
        crate::assoc::merged(m, x).len() <= m.len() + x.len(),
        forall|k: int| 0 <= k < x.len() ==> crate::assoc::lookup(crate::assoc::merged(m, x), (#[trigger] x[k]).0) is Some,
        0 <= a < b < x.len() && x[a].0 == x[b].0 ==> crate::assoc::merged(m, x).len() < m.len() + x.len(),
    decreases x.len(),
{
    if x.len() > 0 {
        let init = x.drop_last();
        lemma_merged_len(m, init, a, b);
        let before = crate::assoc::merged(m, init);
        let last = x.last();
        crate::assoc::lemma_key_index_found(before, last.0);
        assert forall|k: int| 0 <= k < x.len() implies crate::assoc::lookup(crate::assoc::merged(m, x), (#[trigger] x[k]).0) is Some by {
            crate::assoc::read_after_insert(before, last.0, last.1, x[k].0);
            if k < x.len() - 1 {
                assert(x[k] == init[k]);
            }
        }
        if 0 <= a < b < x.len() && x[a].0 == x[b].0 {
            if b == x.len() - 1 {
                assert(init[a] == x[a]);
                assert(crate::assoc::lookup(before, init[a].0) is Some);
                assert(crate::assoc::key_index(before, last.0) is Some);
            } else {
                assert(init[a] == x[a] && init[b] == x[b]);
            }
        }
    }
}

/// Output that repeats a command cannot be read back: with a command given
/// twice, the answers of a run's printed lines are refused.
pub proof fn batch_repeated_command_refused(
    nonce: Seq<char>,
    commands: Seq<Seq<char>>,
    outs: Seq<Seq<Seq<char>>>,
    output: Seq<char>,
    a: int,
    b: int,
)
    requires
        outs.len() == commands.len(),
        commands.len() <= usize::MAX,
        0 <= a < b < commands.len(),
        commands[a] == commands[b],
        free_of_markers(nonce, outs),
        text_lines(output) == printed_lines(nonce, outs),
    ensures
        batch_answers(nonce, output, commands) is None,
{
    lemma_printed_run_merged(nonce, commands, outs);
    let x = expected_answers(commands, outs);
    lemma_merged_len(Seq::<(Seq<char>, Option<Seq<char>>)>::empty(), x, a, b);
    assert(x[a].0 == commands[a] && x[b].0 == commands[b]);
}

/// Reading back what a run of the batch script prints gives each command
/// with its answer. The script echoes, for each command in order, its begin
/// marker, then the command prints its lines, then the end marker is echoed;
/// when the output holds exactly these lines, the commands are distinct and
/// no printed line looks like a marker, the answers are the commands in order,
/// each with its trimmed output (`None` when that is empty).
pub proof fn batch_round_trip(
    nonce: Seq<char>,
    commands: Seq<Seq<char>>,
    outs: Seq<Seq<Seq<char>>>,
    output: Seq<char>,
)
    requires
        outs.len() == commands.len(),
        commands.len() <= usize::MAX,
        forall|a: int, b: int| 0 <= a < b < commands.len() ==> commands[a] != commands[b],
        free_of_markers(nonce, outs),
        text_lines(output) == printed_lines(nonce, outs),
    ensures
        batch_answers(nonce, output, commands) == Some(expected_answers(commands, outs)),
        expected_answers(commands, outs).len() == commands.len(),
        forall|i: int|
            0 <= i < commands.len() ==> crate::assoc::lookup(expected_answers(commands, outs), #[trigger] commands[i])
                == Some(printed_answer(outs[i])),
{
    lemma_printed_run(nonce, commands, outs);
    let ans = expected_answers(commands, outs);
    assert forall|i: int| 0 <= i < commands.len() implies crate::assoc::lookup(ans, #[trigger] commands[i]) == Some(
        printed_answer(outs[i]),
    ) by {
        crate::assoc::lemma_key_index_found(ans, commands[i]);
        match crate::assoc::key_index(ans, commands[i]) {
            Some(k) => {
                if k != i {
                    assert(ans[k].0 == commands[k]);
                    if k < i {
                        assert(commands[k] != commands[i]);
                    } else {
                        assert(commands[i] != commands[k]);
                    }
                }
            },
            None => {
                assert(ans[i].0 == commands[i]);
            },
        }
    }
}

/// Splits the output of a batch script back into one answer per command:
/// each command with its trimmed output, `None` for an empty one. Gives
/// `None` when the markers show that the script did not run as written
/// (missing, mismatched or truncated sections), so that the commands can be
/// sent one by one instead.
pub fn parse_batch_output(nonce: &str, output: &str, commands: &[&str]) -> (r: Option<Vec<(String, Option<String>)>>)
    ensures
        match batch_answers(nonce@, output@, str_views(commands@)) {
            Some(a) => r matches Some(v) && answer_views(v@) == a,
            None => r is None,
        },
{
    let ghost cmds = str_views(commands@);
    let oc = chars_of(output);
    let lines = lines_of(&oc);
    let ghost ls = lines@.map_values(|l: Vec<char>| l@);
    let prefix = concat2("RUSTIBLE_", nonce);
    let prefix = concat2(prefix.as_str(), "_");
    let pc = chars_of(prefix.as_str());
    let mut open: Option<(usize, Vec<Vec<char>>)> = None;
    let mut answers: Vec<(String, Option<String>)> = Vec::new();
    let mut i: usize = 0;
    proof {
        assert(ls.take(0) =~= Seq::<Seq<char>>::empty());
        assert(answer_views(answers@) =~= Seq::<(Seq<char>, Option<Seq<char>>)>::empty());
    }
    while i < lines.len()
        invariant
            i <= lines@.len(),
            ls == lines@.map_values(|l: Vec<char>| l@),
            ls == text_lines(output@),
            pc@ == marker_prefix(nonce@),
            prefix@ == pc@,
            cmds == str_views(commands@),
            batch_run(nonce@, cmds, ls.take(i as int)) == Some(
                (
                    match open {
                        Some(o) => Some((o.0 as nat, o.1@.map_values(|l: Vec<char>| l@))),
                        None => None,
                    },
                    answer_views(answers@),
                ),
            ),
        decreases lines@.len() - i,
    {
        proof {
            assert(ls.take(i + 1).drop_last() =~= ls.take(i as int));
            assert(ls.take(i + 1).last() == lines@[i as int]@);
        }
        let line = &lines[i];
        let lt = trim_end_matches(line, '\r');
        let is_marker = crate::text::starts_with(&lt, prefix.as_str());
        let rest: Vec<char> = if is_marker { sub_chars(&lt, pc.len(), lt.len()) } else { Vec::new() };
        proof {
            if is_marker {
                assert(rest@ =~= lt@.skip(pc@.len() as int));
            }
        }
        if is_marker && crate::text::ends_with(&rest, "_BEGIN") {
            proof {
                reveal_strlit("_BEGIN");
            }
            match marker_index(&rest, 6) {
                None => {
                    proof {
                        lemma_batch_run_fails(nonce@, cmds, ls, i + 1);
                    }
                    return None;
                },
                Some(idx) => {
                    let fresh: Vec<Vec<char>> = Vec::new();
                    proof {
                        assert(fresh@.map_values(|l: Vec<char>| l@) =~= Seq::<Seq<char>>::empty());
                    }
                    open = Some((idx, fresh));
                },
            }
        } else if is_marker && crate::text::ends_with(&rest, "_END") {
            proof {
                reveal_strlit("_END");
            }
            match marker_index(&rest, 4) {
                None => {
                    proof {
                        lemma_batch_run_fails(nonce@, cmds, ls, i + 1);
                    }
                    return None;
                },
                Some(idx) => {
                    let taken = open;
                    open = None;
                    match taken {
                        None => {
                            proof {
                                lemma_batch_run_fails(nonce@, cmds, ls, i + 1);
                            }
                            return None;
                        },
                        Some((at, collected)) => {
                            if at != idx || idx >= commands.len() {
                                proof {
                                    lemma_batch_run_fails(nonce@, cmds, ls, i + 1);
                                }
                                return None;
                            }
                            let text = join_lines(&collected);
                            let out = trim(&text);
                            let value = if out.len() > 0 { Some(string_of(&out)) } else { None };
                            insert_answer(&mut answers, copy_command(commands[idx]), value);
                        },
                    }
                },
            }
        } else {
            match open {
                Some((at, collected)) => {
                    let mut collected = collected;
                    let ghost before = collected@.map_values(|l: Vec<char>| l@);
                    collected.push(line.clone());
                    proof {
                        assert(collected@.map_values(|l: Vec<char>| l@) =~= before.push(lines@[i as int]@));
                    }
                    open = Some((at, collected));
                },
                None => {},
            }
        }
        i = i + 1;
    }
    proof {
        assert(ls.take(lines@.len() as int) =~= ls);
    }
    if open.is_some() || answers.len() != commands.len() {
        return None;
    }
    Some(answers)
}

/// Once the reading of a batch fails, reading more lines does not help.
proof fn lemma_batch_run_fails(nonce: Seq<char>, commands: Seq<Seq<char>>, lines: Seq<Seq<char>>, n: int)
    requires
        0 <= n <= lines.len(),
        batch_run(nonce, commands, lines.take(n)) is None,
    ensures
        batch_run(nonce, commands, lines) is None,
    decreases lines.len() - n,
{
    if n < lines.len() {
        assert(lines.take(n + 1).drop_last() =~= lines.take(n));
        lemma_batch_run_fails(nonce, commands, lines, n + 1);
    } else {
        assert(lines.take(n) =~= lines);
    }
}

/// A copy of a command.
fn copy_command(c: &str) -> (r: String)
    ensures
        r@ == c@,
{
    String::from_str(c)
}

} // verus!
