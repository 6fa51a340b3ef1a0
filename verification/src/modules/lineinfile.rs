//! Making sure a line is, or is not, in a file.
use vstd::prelude::*;
use crate::inventory::host::opt_view;
use crate::numbers::{decimal, format_decimal};
use crate::patterns::{
    compile_pattern, pattern_captures, pattern_is_match, regex_captures, regex_compile_error, regex_matches,
    CompiledPattern,
};
use crate::text::{
    concat2, concat3, str_equal, str_opt, str_replace, str_replaced, str_to_lowercase, str_to_uppercase,
    lowercase, views,
};
use super::{ModuleError, ModuleResult};

verus! {

/// Desired state for a line.
#[derive(Debug, Clone, Copy, PartialEq, Eq, Structural)]
pub enum LineState {
    /// The line is in the file.
    Present,
    /// The line is not in the file.
    Absent,
}

/// The state an already lowercased word names, if any.
pub open spec fn line_state_named(lower: Seq<char>) -> Option<LineState> {
    if lower == "present"@ {
        Some(LineState::Present)
    } else if lower == "absent"@ {
        Some(LineState::Absent)
    } else {
        None
    }
}

impl LineState {
    /// Parses a state name, ignoring case.
    pub fn from_str(s: &str) -> (r: ModuleResult<LineState>)
        ensures
            match line_state_named(lowercase(s@)) {
                Some(st) => r == Ok::<LineState, ModuleError>(st),
                None => r matches Err(ModuleError::InvalidParameter(m))
                    && m@ == "Invalid state '"@ + s@ + "'. Valid states: present, absent"@,
            },
    {
        let lower = str_to_lowercase(s);
        if str_equal(lower.as_str(), "present") {
            Ok(LineState::Present)
        } else if str_equal(lower.as_str(), "absent") {
            Ok(LineState::Absent)
        } else {
            Err(ModuleError::InvalidParameter(concat3("Invalid state '", s, "'. Valid states: present, absent")))
        }
    }
}

/// Where to insert a new line.
#[derive(Debug, Clone, Copy, PartialEq, Eq, Structural)]
pub enum InsertPosition {
    /// After the line matching the expression.
    AfterMatch,
    /// Before the line matching the expression.
    BeforeMatch,
    /// At the beginning of the file.
    BeginningOfFile,
    /// At the end of the file.
    EndOfFile,
}

/// Module for line-in-file operations.
pub struct LineinfileModule;

impl LineinfileModule {
    /// The module's name.
    pub fn name(&self) -> (r: &'static str)
        ensures
            r@ == "lineinfile"@,
    {
        "lineinfile"
    }

    /// What the module does.
    pub fn description(&self) -> (r: &'static str)
        ensures
            r@ == "Ensure a particular line is in a file"@,
    {
        "Ensure a particular line is in a file"
    }

    /// The parameters the module cannot run without.
    pub fn required_params(&self) -> (r: &'static [&'static str])
        ensures
            r@.len() == 1,
            r@[0]@ == "path"@,
    {
        &["path"]
    }
}

/// The index of the first line the pattern matches.
pub open spec fn first_match(p: Seq<char>, lines: Seq<Seq<char>>) -> Option<int>
    decreases lines.len(),
{
    if lines.len() == 0 {
        None
    } else if regex_matches(p, lines[0]) {
        Some(0)
    } else {
        match first_match(p, lines.drop_first()) {
            Some(i) => Some(i + 1),
            None => None,
        }
    }
}

/// The index of the last line the pattern matches.
pub open spec fn last_match(p: Seq<char>, lines: Seq<Seq<char>>) -> Option<int>
    decreases lines.len(),
{
    if lines.len() == 0 {
        None
    } else if regex_matches(p, lines.last()) {
        Some(lines.len() - 1)
    } else {
        last_match(p, lines.drop_last())
    }
}

proof fn lemma_first_match(p: Seq<char>, lines: Seq<Seq<char>>)
    ensures
        match first_match(p, lines) {
            Some(i) => 0 <= i < lines.len() && regex_matches(p, lines[i]) && forall|k: int|
                0 <= k < i ==> !regex_matches(p, #[trigger] lines[k]),
            None => forall|k: int| 0 <= k < lines.len() ==> !regex_matches(p, #[trigger] lines[k]),
        },
    decreases lines.len(),
{
    if lines.len() > 0 && !regex_matches(p, lines[0]) {
        let rest = lines.drop_first();
        lemma_first_match(p, rest);
        assert forall|k: int| 0 < k < lines.len() implies #[trigger] lines[k] == rest[k - 1] by {}
    }
}

proof fn lemma_last_match(p: Seq<char>, lines: Seq<Seq<char>>)
    ensures
        match last_match(p, lines) {
            Some(i) => 0 <= i < lines.len() && regex_matches(p, lines[i]) && forall|k: int|
                i < k < lines.len() ==> !regex_matches(p, #[trigger] lines[k]),
            None => forall|k: int| 0 <= k < lines.len() ==> !regex_matches(p, #[trigger] lines[k]),
        },
    decreases lines.len(),
{
    if lines.len() > 0 && !regex_matches(p, lines.last()) {
        let rest = lines.drop_last();
        lemma_last_match(p, rest);
        assert forall|k: int| 0 <= k < lines.len() - 1 implies #[trigger] lines[k] == rest[k] by {}
    }
}

/// The index of the first line the expression matches.
fn first_matching_line(p: &CompiledPattern, lines: &[String]) -> (r: Option<usize>)
    ensures
        match r {
            Some(j) => first_match(p.source_view(), views(lines@)) == Some(j as int),
            None => first_match(p.source_view(), views(lines@)) is None,
        },
{
    let ghost ls = views(lines@);
    let ghost src = p.source_view();
    proof {
        lemma_first_match(src, ls);
    }
    let mut i: usize = 0;
    while i < lines.len()
        invariant
            i <= lines@.len(),
            ls == views(lines@),
            src == p.source_view(),
            forall|k: int| 0 <= k < i ==> !regex_matches(src, #[trigger] ls[k]),
            match first_match(src, ls) {
                Some(j) => 0 <= j < ls.len() && regex_matches(src, ls[j]) && forall|k: int|
                    0 <= k < j ==> !regex_matches(src, #[trigger] ls[k]),
                None => forall|k: int| 0 <= k < ls.len() ==> !regex_matches(src, #[trigger] ls[k]),
            },
        decreases lines@.len() - i,
    {
        if pattern_is_match(p, lines[i].as_str()) {
            assert(regex_matches(src, ls[i as int]));
            return Some(i);
        }
        assert(!regex_matches(src, ls[i as int]));
        i = i + 1;
    }
    None
}

/// The index of the last line the expression matches.
fn last_matching_line(p: &CompiledPattern, lines: &[String]) -> (r: Option<usize>)
    ensures
        match r {
            Some(j) => last_match(p.source_view(), views(lines@)) == Some(j as int),
            None => last_match(p.source_view(), views(lines@)) is None,
        },
{
    let ghost ls = views(lines@);
    let ghost src = p.source_view();
    proof {
        lemma_last_match(src, ls);
    }
    let mut i: usize = lines.len();
    while i > 0
        invariant
            i <= lines@.len(),
            ls == views(lines@),
            src == p.source_view(),
            forall|k: int| i <= k < ls.len() ==> !regex_matches(src, #[trigger] ls[k]),
            match last_match(src, ls) {
                Some(j) => 0 <= j < ls.len() && regex_matches(src, ls[j]) && forall|k: int|
                    j < k < ls.len() ==> !regex_matches(src, #[trigger] ls[k]),
                None => forall|k: int| 0 <= k < ls.len() ==> !regex_matches(src, #[trigger] ls[k]),
            },
        decreases i,
    {
        if pattern_is_match(p, lines[i - 1].as_str()) {
            assert(regex_matches(src, ls[i - 1]));
            return Some(i - 1);
        }
        assert(!regex_matches(src, ls[i - 1]));
        i = i - 1;
    }
    None
}

/// The position a word names, in any case: `EOF` the end, `BOF` the beginning.
pub open spec fn position_word(pattern: Seq<char>) -> Option<InsertPosition> {
    let u = crate::text::uppercase(pattern);
    if u == "EOF"@ {
        Some(InsertPosition::EndOfFile)
    } else if u == "BOF"@ {
        Some(InsertPosition::BeginningOfFile)
    } else {
        None
    }
}

/// Where a new line goes: after the last line that `insertafter` matches,
/// else before the first line that `insertbefore` matches, else at the end;
/// the index is that of the matching line, if any. The error is the message
/// of an expression that does not compile.
pub open spec fn insert_position(
    lines: Seq<Seq<char>>,
    after: Option<Seq<char>>,
    before: Option<Seq<char>>,
) -> Result<(InsertPosition, Option<int>), Seq<char>> {
    match after {
        Some(a) => match position_word(a) {
            Some(w) => Ok((w, None)),
            None => match regex_compile_error(a) {
                Some(m) => Err("Invalid insertafter regex: "@ + m),
                None => Ok((InsertPosition::AfterMatch, last_match(a, lines))),
            },
        },
        None => match before {
            Some(b) => match position_word(b) {
                Some(w) => Ok((w, None)),
                None => match regex_compile_error(b) {
                    Some(m) => Err("Invalid insertbefore regex: "@ + m),
                    None => Ok((InsertPosition::BeforeMatch, first_match(b, lines))),
                },
            },
            None => Ok((InsertPosition::EndOfFile, None)),
        },
    }
}

/// The word a position pattern names, if it names one.
fn position_word_of(pattern: &str) -> (r: Option<InsertPosition>)
    ensures
        r == position_word(pattern@),
{
    let u = str_to_uppercase(pattern);
    if str_equal(u.as_str(), "EOF") {
        Some(InsertPosition::EndOfFile)
    } else if str_equal(u.as_str(), "BOF") {
        Some(InsertPosition::BeginningOfFile)
    } else {
        None
    }
}

impl LineinfileModule {
    /// Where a new line goes, and the index of the line it goes after or before.
    pub fn find_insert_position(
        lines: &[String],
        insertafter: Option<&str>,
        insertbefore: Option<&str>,
    ) -> (r: ModuleResult<(InsertPosition, Option<usize>)>)
        ensures
            match insert_position(views(lines@), str_opt(insertafter), str_opt(insertbefore)) {
                Ok((pos, idx)) => r matches Ok((q, j)) && q == pos && match j {
                    Some(i) => idx == Some(i as int) && i < lines@.len(),
                    None => idx is None,
                },
                Err(m) => r matches Err(ModuleError::InvalidParameter(e)) && e@ == m,
            },
    {
        match insertafter {
            Some(a) => match position_word_of(a) {
                Some(w) => Ok((w, None)),
                None => match compile_pattern(a) {
                    Err(m) => Err(ModuleError::InvalidParameter(concat2("Invalid insertafter regex: ", m.as_str()))),
                    Ok(re) => {
                        proof {
                            lemma_last_match(re.source_view(), views(lines@));
                        }
                        Ok((InsertPosition::AfterMatch, last_matching_line(&re, lines)))
                    },
                },
            },
            None => match insertbefore {
                Some(b) => match position_word_of(b) {
                    Some(w) => Ok((w, None)),
                    None => match compile_pattern(b) {
                        Err(m) => Err(ModuleError::InvalidParameter(concat2("Invalid insertbefore regex: ", m.as_str()))),
                        Ok(re) => {
                            proof {
                                lemma_first_match(re.source_view(), views(lines@));
                            }
                            Ok((InsertPosition::BeforeMatch, first_matching_line(&re, lines)))
                        },
                    },
                },
                None => Ok((InsertPosition::EndOfFile, None)),
            },
        }
    }
}

/// The pattern a compiled expression was compiled from, if there is one.
pub open spec fn pattern_opt(o: Option<&CompiledPattern>) -> Option<Seq<char>> {
    match o {
        Some(p) => Some(p.source_view()),
        None => None,
    }
}

/// The lines with every line the pattern matches replaced by `line`.
pub open spec fn replace_matching(p: Seq<char>, lines: Seq<Seq<char>>, line: Seq<char>) -> Seq<Seq<char>> {
    lines.map_values(|l: Seq<char>| if regex_matches(p, l) { line } else { l })
}

/// The index at which a new line goes, for a position and the index of the
/// line it refers to: after or before that line, at the end when there is none.
pub open spec fn insertion_index(pos: InsertPosition, idx: Option<int>, len: int) -> int {
    match pos {
        InsertPosition::BeginningOfFile => 0,
        InsertPosition::EndOfFile => len,
        InsertPosition::AfterMatch => match idx {
            Some(i) => i + 1,
            None => len,
        },
        InsertPosition::BeforeMatch => match idx {
            Some(i) => i,
            None => len,
        },
    }
}

/// What making sure that `line` is among the lines gives: whether they
/// change and the new lines, or the message of an insertion expression that
/// does not compile. Nothing changes when the line is there (and, with an
/// expression, the expression matches it); else the lines the expression
/// matches are replaced (only the first with `firstmatch`); else the line is
/// inserted where `insertafter` or `insertbefore` says.
pub open spec fn line_present(
    lines: Seq<Seq<char>>,
    line: Seq<char>,
    regexp: Option<Seq<char>>,
    after: Option<Seq<char>>,
    before: Option<Seq<char>>,
    firstmatch: bool,
) -> Result<(bool, Seq<Seq<char>>), Seq<char>> {
    let satisfied = lines.contains(line) && match regexp {
        Some(p) => regex_matches(p, line),
        None => true,
    };
    if satisfied {
        Ok((false, lines))
    } else if regexp is Some && first_match(regexp.unwrap(), lines) is Some {
        let p = regexp.unwrap();
        if firstmatch {
            Ok((true, lines.update(first_match(p, lines).unwrap(), line)))
        } else {
            Ok((true, replace_matching(p, lines, line)))
        }
    } else {
        match insert_position(lines, after, before) {
            Err(m) => Err(m),
            Ok((pos, idx)) => Ok((true, lines.insert(insertion_index(pos, idx, lines.len() as int), line))),
        }
    }
}

/// Whether a line stays when lines are removed: with an expression, the
/// lines it matches go; else the lines equal to `line` go.
pub open spec fn keeps_line(line: Option<Seq<char>>, regexp: Option<Seq<char>>, l: Seq<char>) -> bool {
    match regexp {
        Some(p) => !regex_matches(p, l),
        None => match line {
            Some(s) => l != s,
            None => true,
        },
    }
}

/// The lines that stay when lines are removed.
pub open spec fn kept_lines(lines: Seq<Seq<char>>, line: Option<Seq<char>>, regexp: Option<Seq<char>>) -> Seq<Seq<char>> {
    lines.filter(|l: Seq<char>| keeps_line(line, regexp, l))
}

/// `line` with `\0`, `\1`, ... replaced, in that order, by the groups that
/// took part in the match.
pub open spec fn with_backrefs(line: Seq<char>, groups: Seq<Option<Seq<char>>>) -> Seq<char>
    decreases groups.len(),
{
    if groups.len() == 0 {
        line
    } else {
        let prev = with_backrefs(line, groups.drop_last());
        match groups.last() {
            Some(m) => str_replaced(prev, seq!['\\'] + decimal((groups.len() - 1) as nat), m),
            None => prev,
        }
    }
}

/// `line` with the back-references to the groups of the expression's match
/// in `original` filled in; `line` itself when it does not match.
pub open spec fn backrefs_applied(line: Seq<char>, p: Seq<char>, original: Seq<char>) -> Seq<char> {
    match regex_captures(p, original) {
        Some(groups) => with_backrefs(line, groups),
        None => line,
    }
}

/// Whether the line is among the lines.
fn contains_line(lines: &[String], line: &str) -> (r: bool)
    ensures
        r == views(lines@).contains(line@),
{
    let ghost ls = views(lines@);
    let mut i: usize = 0;
    while i < lines.len()
        invariant
            i <= lines@.len(),
            ls == views(lines@),
            forall|k: int| 0 <= k < i ==> #[trigger] ls[k] != line@,
        decreases lines@.len() - i,
    {
        if str_equal(lines[i].as_str(), line) {
            assert(ls[i as int] == line@);
            return true;
        }
        i = i + 1;
    }
    false
}

impl LineinfileModule {
    /// Makes sure that `line` is among the lines, and says whether they changed.
    pub fn ensure_line_present(
        lines: &mut Vec<String>,
        line: &str,
        regexp: Option<&CompiledPattern>,
        insertafter: Option<&str>,
        insertbefore: Option<&str>,
        firstmatch: bool,
    ) -> (r: ModuleResult<bool>)
        ensures
            match line_present(
                views(old(lines)@),
                line@,
                pattern_opt(regexp),
                str_opt(insertafter),
                str_opt(insertbefore),
                firstmatch,
            ) {
                Ok((changed, after)) => r == Ok::<bool, ModuleError>(changed) && views(final(lines)@) == after,
                Err(m) => r matches Err(ModuleError::InvalidParameter(e)) && e@ == m && final(lines)@ == old(lines)@,
            },
    {
        let ghost before = views(lines@);
        if contains_line(lines.as_slice(), line) {
            match regexp {
                None => return Ok(false),
                Some(re) => {
                    if pattern_is_match(re, line) {
                        return Ok(false);
                    }
                },
            }
        }
        if let Some(re) = regexp {
            let ghost p = re.source_view();
            proof {
                lemma_first_match(p, before);
            }
            if let Some(first) = first_matching_line(re, lines.as_slice()) {
                assert(first_match(p, before) == Some(first as int));
                if firstmatch {
                    lines.set(first, crate::text::copy_str(line));
                    proof {
                        assert(views(lines@) =~= before.update(first as int, line@));
                    }
                } else {
                    let mut j: usize = 0;
                    while j < lines.len()
                        invariant
                            j <= lines@.len(),
                            lines@.len() == before.len(),
                            p == re.source_view(),
                            forall|k: int|
                                0 <= k < j ==> #[trigger] lines@[k]@ == (if regex_matches(p, before[k]) {
                                    line@
                                } else {
                                    before[k]
                                }),
                            forall|k: int| j <= k < lines@.len() ==> #[trigger] lines@[k]@ == before[k],
                        decreases lines@.len() - j,
                    {
                        if pattern_is_match(re, lines[j].as_str()) {
                            lines.set(j, crate::text::copy_str(line));
                        }
                        j = j + 1;
                    }
                    proof {
                        assert(views(lines@) =~= replace_matching(p, before, line@));
                    }
                }
                return Ok(true);
            }
        }
        let found = Self::find_insert_position(lines.as_slice(), insertafter, insertbefore);
        match found {
            Err(e) => Err(e),
            Ok((pos, idx)) => {
                let n = lines.len();
                let at: usize = match pos {
                    InsertPosition::BeginningOfFile => 0,
                    InsertPosition::EndOfFile => n,
                    InsertPosition::AfterMatch => match idx {
                        Some(i) => i + 1,
                        None => n,
                    },
                    InsertPosition::BeforeMatch => match idx {
                        Some(i) => i,
                        None => n,
                    },
                };
                lines.insert(at, crate::text::copy_str(line));
                proof {
                    assert(views(lines@) =~= before.insert(at as int, line@));
                }
                Ok(true)
            },
        }
    }

    /// Removes the lines the expression matches, or else the lines equal to
    /// `line`, and says whether any went.
    pub fn ensure_line_absent(
        lines: &mut Vec<String>,
        line: Option<&str>,
        regexp: Option<&CompiledPattern>,
    ) -> (r: ModuleResult<bool>)
        ensures
            views(final(lines)@) == kept_lines(views(old(lines)@), str_opt(line), pattern_opt(regexp)),
            r == Ok::<bool, ModuleError>(
                kept_lines(views(old(lines)@), str_opt(line), pattern_opt(regexp)).len() != old(lines)@.len(),
            ),
    {
        let ghost before = views(lines@);
        let ghost l = str_opt(line);
        let ghost rx = pattern_opt(regexp);
        let mut out: Vec<String> = Vec::new();
        let mut i: usize = 0;
        while i < lines.len()
            invariant
                i <= lines@.len(),
                before == views(lines@),
                l == str_opt(line),
                rx == pattern_opt(regexp),
                views(out@) == kept_lines(before.take(i as int), l, rx),
            decreases lines@.len() - i,
        {
            let keep = match regexp {
                Some(re) => !pattern_is_match(re, lines[i].as_str()),
                None => match line {
                    Some(s) => !str_equal(lines[i].as_str(), s),
                    None => true,
                },
            };
            proof {
                reveal(Seq::filter);
                assert(before.take(i + 1).drop_last() =~= before.take(i as int));
                assert(before.take(i + 1).last() == before[i as int]);
                assert(keep == keeps_line(l, rx, before[i as int]));
            }
            if keep {
                out.push(lines[i].clone());
                proof {
                    assert(views(out@) =~= kept_lines(before.take(i as int), l, rx).push(before[i as int]));
                }
            }
            i = i + 1;
        }
        proof {
            assert(before.take(lines@.len() as int) =~= before);
        }
        let changed = out.len() != lines.len();
        *lines = out;
        Ok(changed)
    }

    /// `line` with `\0`, `\1`, ... replaced by the groups of the expression's
    /// match in `original`; `line` itself when the expression does not match.
    pub fn apply_backrefs(line: &str, regexp: &CompiledPattern, original: &str) -> (r: String)
        ensures
            r@ == backrefs_applied(line@, regexp.source_view(), original@),
    {
        match pattern_captures(regexp, original) {
            None => crate::text::copy_str(line),
            Some(groups) => {
                let ghost gs = groups@.map_values(|g: Option<String>| opt_view(g));
                let mut result = crate::text::copy_str(line);
                let mut i: usize = 0;
                while i < groups.len()
                    invariant
                        i <= groups@.len(),
                        gs == groups@.map_values(|g: Option<String>| opt_view(g)),
                        result@ == with_backrefs(line@, gs.take(i as int)),
                    decreases groups@.len() - i,
                {
                    proof {
                        assert(gs.take(i + 1).drop_last() =~= gs.take(i as int));
                        assert(gs.take(i + 1).last() == opt_view(groups@[i as int]));
                    }
                    match &groups[i] {
                        Some(m) => {
                            let digits = format_decimal(i as u64);
                            let marker = concat2("\\", digits.as_str());
                            proof {
                                reveal_strlit("\\");
                                assert(marker@ =~= seq!['\\'] + decimal(i as nat));
                            }
                            result = str_replace(result.as_str(), marker.as_str(), m.as_str());
                        },
                        None => {},
                    }
                    i = i + 1;
                }
                proof {
                    assert(gs.take(groups@.len() as int) =~= gs);
                }
                result
            },
        }
    }
}

/// What editing the lines of a file comes to.
#[derive(Debug, Clone)]
pub enum LineEdit {
    /// Back-references were asked for and no line matches the expression:
    /// nothing is added.
    NoMatch,
    /// The file already has the desired content.
    Unchanged,
    /// The new lines of the file.
    Changed(Vec<String>),
}

/// What editing the lines gives: with `state=absent` the lines that stay;
/// with `state=present` the given line (with back-references filled in from
/// the first matching line, when asked for) made sure of.
pub open spec fn edited(
    lines: Seq<Seq<char>>,
    state: LineState,
    line: Option<Seq<char>>,
    regexp: Option<Seq<char>>,
    after: Option<Seq<char>>,
    before: Option<Seq<char>>,
    firstmatch: bool,
    backrefs: bool,
    r: ModuleResult<LineEdit>,
) -> bool {
    match state {
        LineState::Absent => {
            let kept = kept_lines(lines, line, regexp);
            if kept.len() != lines.len() {
                r matches Ok(LineEdit::Changed(v)) && views(v@) == kept
            } else {
                r matches Ok(LineEdit::Unchanged)
            }
        },
        LineState::Present => match line {
            None => r matches Err(ModuleError::MissingParameter(m)) && m@ == "line is required for state=present"@,
            Some(s) => {
                if backrefs && regexp is Some && first_match(regexp.unwrap(), lines) is None {
                    r matches Ok(LineEdit::NoMatch)
                } else {
                    let wanted = if backrefs && regexp is Some {
                        backrefs_applied(s, regexp.unwrap(), lines[first_match(regexp.unwrap(), lines).unwrap()])
                    } else {
                        s
                    };
                    match line_present(lines, wanted, regexp, after, before, firstmatch) {
                        Err(m) => r matches Err(ModuleError::InvalidParameter(e)) && e@ == m,
                        Ok((changed, new_lines)) => if changed {
                            r matches Ok(LineEdit::Changed(v)) && views(v@) == new_lines
                        } else {
                            r matches Ok(LineEdit::Unchanged)
                        },
                    }
                }
            },
        },
    }
}

impl LineinfileModule {
    /// Compiles the `regexp` parameter, if it is given.
    pub fn compile_regexp(regexp: Option<&str>) -> (r: ModuleResult<Option<CompiledPattern>>)
        ensures
            match regexp {
                None => r matches Ok(None),
                Some(p) => match regex_compile_error(p@) {
                    Some(m) => r matches Err(ModuleError::InvalidParameter(e)) && e@ == "Invalid regexp: "@ + m,
                    None => r matches Ok(Some(c)) && c.source_view() == p@,
                },
            },
    {
        match regexp {
            None => Ok(None),
            Some(p) => match compile_pattern(p) {
                Ok(c) => Ok(Some(c)),
                Err(m) => Err(ModuleError::InvalidParameter(concat2("Invalid regexp: ", m.as_str()))),
            },
        }
    }

    /// Checks that `line` or `regexp` is given when the state is `present`
    /// (the default) or `absent`.
    pub fn validate_params(state: Option<&str>, has_line: bool, has_regexp: bool) -> (r: ModuleResult<()>)
        ensures
            ({
                let st = match state {
                    Some(s) => s@,
                    None => "present"@,
                };
                if !has_line && !has_regexp && (st == "present"@ || st == "absent"@) {
                    r matches Err(ModuleError::MissingParameter(m))
                        && m@ == "Either 'line' or 'regexp' is required for state="@ + st
                } else {
                    r is Ok
                }
            }),
    {
        let st = match state {
            Some(s) => s,
            None => "present",
        };
        proof {
            reveal_strlit("present");
            reveal_strlit("absent");
            reveal_strlit("Either 'line' or 'regexp' is required for state=");
            reveal_strlit("Either 'line' or 'regexp' is required for state=present");
            reveal_strlit("Either 'line' or 'regexp' is required for state=absent");
        }
        if !has_line && !has_regexp {
            if str_equal(st, "present") {
                return Err(ModuleError::MissingParameter(crate::text::copy_str(
                    "Either 'line' or 'regexp' is required for state=present",
                )));
            } else if str_equal(st, "absent") {
                return Err(ModuleError::MissingParameter(crate::text::copy_str(
                    "Either 'line' or 'regexp' is required for state=absent",
                )));
            }
        }
        Ok(())
    }

    /// Edits the lines of a file as the parameters ask.
    pub fn edit_lines(
        lines: Vec<String>,
        state: LineState,
        line: Option<&str>,
        regexp: Option<&CompiledPattern>,
        insertafter: Option<&str>,
        insertbefore: Option<&str>,
        firstmatch: bool,
        backrefs: bool,
    ) -> (r: ModuleResult<LineEdit>)
        ensures
            edited(
                views(lines@),
                state,
                str_opt(line),
                pattern_opt(regexp),
                str_opt(insertafter),
                str_opt(insertbefore),
                firstmatch,
                backrefs,
                r,
            ),
    {
        let ghost before = views(lines@);
        let mut lines = lines;
        match state {
            LineState::Absent => {
                let original = lines.len();
                let _ = Self::ensure_line_absent(&mut lines, line, regexp);
                if lines.len() != original {
                    Ok(LineEdit::Changed(lines))
                } else {
                    Ok(LineEdit::Unchanged)
                }
            },
            LineState::Present => {
                let s = match line {
                    None => {
                        return Err(ModuleError::MissingParameter(crate::text::copy_str(
                            "line is required for state=present",
                        )));
                    },
                    Some(s) => s,
                };
                let mut wanted = crate::text::copy_str(s);
                if backrefs {
                    if let Some(re) = regexp {
                        proof {
                            lemma_first_match(re.source_view(), before);
                        }
                        match first_matching_line(re, lines.as_slice()) {
                            None => {
                                return Ok(LineEdit::NoMatch);
                            },
                            Some(i) => {
                                assert(first_match(re.source_view(), before) == Some(i as int));
                                assert(before[i as int] == lines@[i as int]@);
                                wanted = Self::apply_backrefs(s, re, lines[i].as_str());
                            },
                        }
                    }
                }
                assert(views(lines@) == before);
                assert(wanted@ == if backrefs && regexp is Some {
                    backrefs_applied(s@, regexp.unwrap().source_view(), before[first_match(regexp.unwrap().source_view(), before).unwrap()])
                } else {
                    s@
                });
                match Self::ensure_line_present(&mut lines, wanted.as_str(), regexp, insertafter, insertbefore, firstmatch) {
                    Err(e) => Err(e),
                    Ok(changed) => {
                        if changed {
                            Ok(LineEdit::Changed(lines))
                        } else {
                            Ok(LineEdit::Unchanged)
                        }
                    },
                }
            },
        }
    }
}

/// Making sure of a line twice changes nothing the second time, when the
/// expression (if any) matches the line itself.
pub proof fn law_line_present_idempotent(
    lines: Seq<Seq<char>>,
    line: Seq<char>,
    regexp: Option<Seq<char>>,
    after: Option<Seq<char>>,
    before: Option<Seq<char>>,
    firstmatch: bool,
)
    requires
        line_present(lines, line, regexp, after, before, firstmatch) is Ok,
        match regexp {
            Some(p) => regex_matches(p, line),
            None => true,
        },
    ensures
        ({
            let next = line_present(lines, line, regexp, after, before, firstmatch)->Ok_0.1;
            line_present(next, line, regexp, after, before, firstmatch) == Ok::<(bool, Seq<Seq<char>>), Seq<char>>(
                (false, next),
            )
        }),
{
    let next = line_present(lines, line, regexp, after, before, firstmatch)->Ok_0.1;
    let satisfied = lines.contains(line) && match regexp {
        Some(p) => regex_matches(p, line),
        None => true,
    };
    if satisfied {
    } else if regexp is Some && first_match(regexp.unwrap(), lines) is Some {
        let p = regexp.unwrap();
        let i = first_match(p, lines).unwrap();
        lemma_first_match(p, lines);
        if firstmatch {
            assert(next[i] == line);
        } else {
            assert(next[i] == line);
        }
    } else {
        let (pos, idx) = insert_position(lines, after, before)->Ok_0;
        let at = insertion_index(pos, idx, lines.len() as int);
        match regexp {
            Some(p) => {
                lemma_last_match(p, lines);
                lemma_first_match(p, lines);
            },
            None => {},
        }
        match after {
            Some(a) => {
                lemma_last_match(a, lines);
            },
            None => match before {
                Some(b) => {
                    lemma_first_match(b, lines);
                },
                None => {},
            },
        }
        assert(0 <= at <= lines.len());
        assert(next[at] == line);
    }
}

/// Removing lines twice removes nothing the second time.
pub proof fn law_line_absent_idempotent(lines: Seq<Seq<char>>, line: Option<Seq<char>>, regexp: Option<Seq<char>>)
    ensures
        kept_lines(kept_lines(lines, line, regexp), line, regexp) == kept_lines(lines, line, regexp),
    decreases lines.len(),
{
    reveal(Seq::filter);
    if lines.len() > 0 {
        law_line_absent_idempotent(lines.drop_last(), line, regexp);
        let k = kept_lines(lines.drop_last(), line, regexp);
        if keeps_line(line, regexp, lines.last()) {
            assert(kept_lines(lines, line, regexp) == k.push(lines.last()));
            assert(k.push(lines.last()).drop_last() =~= k);
        } else {
            assert(kept_lines(lines, line, regexp) == k);
        }
    }
}

} // verus!
