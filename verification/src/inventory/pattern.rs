//! Host patterns: the `:`-separated elements of a pattern, globs as regular
//! expressions, and inventory-style ranges such as `web[01:03]`.
use vstd::prelude::*;
use vstd::string::StringExecFns;
use crate::numbers::{padded_decimal, parse_unsigned, parse_unsigned_spec};
use super::InventoryError;
use crate::text::{first_index_of, is_ascii_alpha, is_ascii_digit, is_ascii_lower, push_char, string_of, views};

verus! {

broadcast use vstd::seq_lib::group_seq_properties;

/// How many brackets are open after reading `s`; a `]` with none open is ignored.
pub open spec fn bracket_depth(s: Seq<char>) -> nat
    decreases s.len(),
{
    if s.len() == 0 {
        0
    } else {
        let d = bracket_depth(s.drop_last());
        if s.last() == '[' {
            d + 1
        } else if s.last() == ']' {
            if d > 0 { (d - 1) as nat } else { 0 }
        } else {
            d
        }
    }
}

/// The elements of a host pattern: the text between the `:` that stand
/// outside brackets. There is always at least one element.
pub open spec fn pattern_parts(s: Seq<char>) -> Seq<Seq<char>>
    decreases s.len(),
{
    if s.len() == 0 {
        seq![Seq::empty()]
    } else {
        let p = pattern_parts(s.drop_last());
        if s.last() == ':' && bracket_depth(s.drop_last()) == 0 {
            p.push(Seq::empty())
        } else {
            p.update(p.len() - 1, p.last().push(s.last()))
        }
    }
}

proof fn lemma_pattern_parts_nonempty(s: Seq<char>)
    ensures
        pattern_parts(s).len() >= 1,
    decreases s.len(),
{
    if s.len() > 0 {
        lemma_pattern_parts_nonempty(s.drop_last());
    }
}

proof fn lemma_bracket_depth_bound(s: Seq<char>)
    ensures
        bracket_depth(s) <= s.len(),
    decreases s.len(),
{
    if s.len() > 0 {
        lemma_bracket_depth_bound(s.drop_last());
    }
}

/// Splits a host pattern on every `:` outside brackets, so that a range such
/// as `web[01:03]` stays one element.
pub fn split_host_pattern(pattern: &str) -> (r: Vec<String>)
    ensures
        views(r@) == pattern_parts(pattern@),
{
    let cs = crate::text::chars_of(pattern);
    let mut parts: Vec<String> = Vec::new();
    let mut cur: Vec<char> = Vec::new();
    let mut depth: usize = 0;
    let mut i: usize = 0;
    proof {
        assert(cs@.take(0) =~= Seq::<char>::empty());
        assert(views(parts@).push(cur@) =~= pattern_parts(cs@.take(0)));
    }
    while i < cs.len()
        invariant
            i <= cs@.len(),
            cs@ == pattern@,
            depth == bracket_depth(cs@.take(i as int)),
            views(parts@).push(cur@) == pattern_parts(cs@.take(i as int)),
        decreases cs@.len() - i,
    {
        let c = cs[i];
        let ghost pre = cs@.take(i as int);
        proof {
            assert(cs@.take(i + 1).drop_last() =~= pre);
            assert(cs@.take(i + 1).last() == c);
            lemma_bracket_depth_bound(pre);
            lemma_pattern_parts_nonempty(pre);
        }
        let ghost before_parts = views(parts@);
        let ghost before_cur = cur@;
        if c == ':' && depth == 0 {
            let done = string_of(&cur);
            parts.push(done);
            cur = Vec::new();
            proof {
                assert(views(parts@) =~= before_parts.push(before_cur));
                assert(views(parts@).push(cur@) =~= pattern_parts(pre).push(Seq::empty()));
            }
        } else {
            cur.push(c);
            proof {
                assert(views(parts@).push(cur@) =~= pattern_parts(pre).update(
                    pattern_parts(pre).len() - 1,
                    pattern_parts(pre).last().push(c),
                ));
            }
        }
        if c == '[' {
            depth = depth + 1;
        } else if c == ']' {
            depth = if depth > 0 { depth - 1 } else { 0 };
        }
        i = i + 1;
    }
    let last = string_of(&cur);
    let ghost before_parts = views(parts@);
    parts.push(last);
    proof {
        assert(cs@.take(cs@.len() as int) =~= cs@);
        assert(views(parts@) =~= before_parts.push(cur@));
    }
    parts
}

/// A character that a regular expression reads as an operator.
pub open spec fn is_regex_meta(c: char) -> bool {
    c == '[' || c == ']' || c == '(' || c == ')' || c == '{' || c == '}' || c == '.' || c == '+'
        || c == '^' || c == '$' || c == '|' || c == '\\'
}

/// What one glob character becomes in a regular expression.
pub open spec fn glob_char_regex(c: char) -> Seq<char> {
    if c == '*' {
        seq!['.', '*']
    } else if c == '?' {
        seq!['.']
    } else if is_regex_meta(c) {
        seq!['\\', c]
    } else {
        seq![c]
    }
}

/// The regular expression of a glob, without anchors.
pub open spec fn glob_regex_body(s: Seq<char>) -> Seq<char>
    decreases s.len(),
{
    if s.len() == 0 {
        Seq::empty()
    } else {
        glob_regex_body(s.drop_last()) + glob_char_regex(s.last())
    }
}

/// Turns a glob into an anchored regular expression: `*` matches any text,
/// `?` any one character, and every other character itself.
pub fn glob_to_regex(pattern: &str) -> (r: String)
    ensures
        r@ == seq!['^'] + glob_regex_body(pattern@) + seq!['$'],
{
    let cs = crate::text::chars_of(pattern);
    let mut out = String::new();
    push_char(&mut out, '^');
    let mut i: usize = 0;
    while i < cs.len()
        invariant
            i <= cs@.len(),
            cs@ == pattern@,
            out@ == seq!['^'] + glob_regex_body(cs@.take(i as int)),
        decreases cs@.len() - i,
    {
        let c = cs[i];
        proof {
            assert(cs@.take(i + 1).drop_last() =~= cs@.take(i as int));
        }
        let ghost before = out@;
        if c == '*' {
            push_char(&mut out, '.');
            push_char(&mut out, '*');
        } else if c == '?' {
            push_char(&mut out, '.');
        } else if c == '[' || c == ']' || c == '(' || c == ')' || c == '{' || c == '}' || c == '.'
            || c == '+' || c == '^' || c == '$' || c == '|' || c == '\\' {
            push_char(&mut out, '\\');
            push_char(&mut out, c);
        } else {
            push_char(&mut out, c);
        }
        proof {
            assert(out@ =~= before + glob_char_regex(c));
            assert(seq!['^'] + glob_regex_body(cs@.take(i + 1)) =~= before + glob_char_regex(c));
        }
        i = i + 1;
    }
    push_char(&mut out, '$');
    proof {
        assert(cs@.take(cs@.len() as int) =~= cs@);
    }
    out
}

} // verus!

verus! {

/// The end of the run of ASCII digits that starts at `i`.
pub open spec fn digits_end(s: Seq<char>, i: int) -> int
    decreases s.len() - i,
{
    if 0 <= i < s.len() && is_ascii_digit(s[i]) {
        digits_end(s, i + 1)
    } else {
        i
    }
}

/// The end of a range bound that starts at `i`: a run of digits, or one ASCII letter.
pub open spec fn bound_end(s: Seq<char>, i: int) -> Option<int> {
    if 0 <= i < s.len() && is_ascii_digit(s[i]) {
        Some(digits_end(s, i))
    } else if 0 <= i < s.len() && is_ascii_alpha(s[i]) {
        Some(i + 1)
    } else {
        None
    }
}

/// The pieces of the first range in a pattern, as the grammar
/// `prefix[start:end(:step)?]suffix` reads them, where the prefix holds no `[`,
/// a bound is a run of digits or one letter, the step is a run of digits and
/// the suffix holds no line break: `(prefix, start, end, step, suffix)`.
pub open spec fn range_parts(s: Seq<char>) -> Option<(Seq<char>, Seq<char>, Seq<char>, Option<Seq<char>>, Seq<char>)> {
    match first_index_of(s, '[') {
        None => None,
        Some(b) => match bound_end(s, b + 1) {
            None => None,
            Some(e1) => if e1 < s.len() && s[e1] == ':' {
                match bound_end(s, e1 + 1) {
                    None => None,
                    Some(e2) => {
                        let stepped = e2 + 1 < s.len() && s[e2] == ':' && is_ascii_digit(s[e2 + 1]);
                        let close = if stepped { digits_end(s, e2 + 1) } else { e2 };
                        let step = if stepped { Some(s.subrange(e2 + 1, close)) } else { None };
                        if close < s.len() && s[close] == ']' && !s.skip(close + 1).contains('\n') {
                            Some((s.take(b), s.subrange(b + 1, e1), s.subrange(e1 + 1, e2), step, s.skip(close + 1)))
                        } else {
                            None
                        }
                    },
                }
            } else {
                None
            },
        },
    }
}

/// The largest number of names one range may expand to.
pub const MAX_RANGE_EXPANSION: u64 = 10000;

/// The names a range stands for, or `None` when the range is invalid. Numeric
/// bounds give numbers from `start` to `end` by `step`, zero-padded to the
/// length of `start` when it has a leading zero; letter bounds of the same
/// case give letters. The step defaults to one; a zero step, an empty range
/// or more than `MAX_RANGE_EXPANSION` names are invalid.
pub open spec fn range_names(
    parts: (Seq<char>, Seq<char>, Seq<char>, Option<Seq<char>>, Seq<char>),
) -> Option<Seq<Seq<char>>> {
    let (prefix, start, end, step_text, suffix) = parts;
    let step = match step_text {
        Some(t) => parse_unsigned_spec(t, u64::MAX as nat),
        None => Some(1nat),
    };
    match step {
        None => None,
        Some(step) => if step == 0 {
            None
        } else {
            match (parse_unsigned_spec(start, u64::MAX as nat), parse_unsigned_spec(end, u64::MAX as nat)) {
                (Some(first), Some(last)) => if first > last || (last - first) / (step as int) >= MAX_RANGE_EXPANSION {
                    None
                } else {
                    let width: nat = if start.len() > 1 && start[0] == '0' { start.len() } else { 0 };
                    Some(
                        Seq::new(
                            ((last - first) / (step as int) + 1) as nat,
                            |k: int| prefix + padded_decimal((first + k * step) as nat, width) + suffix,
                        ),
                    )
                },
                _ => {
                    let a = start[0];
                    let z = end[0];
                    if !(is_ascii_alpha(a) && is_ascii_alpha(z)) || is_ascii_lower(a) != is_ascii_lower(z) || a > z {
                        None
                    } else {
                        Some(
                            Seq::new(
                                (((z as int) - (a as int)) / (step as int) + 1) as nat,
                                |k: int| prefix + seq![((a as int) + k * step) as char] + suffix,
                            ),
                        )
                    }
                },
            }
        },
    }
}

/// The end of the run of digits that starts at `i`.
fn digits_end_at(s: &[char], i: usize) -> (r: usize)
    requires
        i <= s@.len(),
    ensures
        r as int == digits_end(s@, i as int),
        i <= r <= s@.len(),
        forall|k: int| i <= k < r ==> is_ascii_digit(#[trigger] s@[k]),
        i < s@.len() && is_ascii_digit(s@[i as int]) ==> i < r,
{
    let mut j = i;
    while j < s.len() && '0' <= s[j] && s[j] <= '9'
        invariant
            i <= j <= s@.len(),
            digits_end(s@, i as int) == digits_end(s@, j as int),
            forall|k: int| i <= k < j ==> is_ascii_digit(#[trigger] s@[k]),
        decreases s@.len() - j,
    {
        j = j + 1;
    }
    j
}

/// The end of the bound that starts at `i`.
fn bound_end_at(s: &[char], i: usize) -> (r: Option<usize>)
    requires
        i <= s@.len(),
    ensures
        match bound_end(s@, i as int) {
            Some(e) => r is Some && r.unwrap() as int == e,
            None => r is None,
        },
        r is Some ==> i < r.unwrap() <= s@.len(),
{
    if i < s.len() && '0' <= s[i] && s[i] <= '9' {
        Some(digits_end_at(s, i))
    } else if i < s.len() && (('a' <= s[i] && s[i] <= 'z') || ('A' <= s[i] && s[i] <= 'Z')) {
        Some(i + 1)
    } else {
        None
    }
}

/// Whether `s[from..]` holds a line break.
fn has_line_break_from(s: &[char], from: usize) -> (r: bool)
    requires
        from <= s@.len(),
    ensures
        r == s@.skip(from as int).contains('\n'),
{
    let mut i = from;
    while i < s.len()
        invariant
            from <= i <= s@.len(),
            forall|k: int| from <= k < i ==> s@[k] != '\n',
        decreases s@.len() - i,
    {
        if s[i] == '\n' {
            proof {
                assert(s@.skip(from as int)[i - from] == '\n');
            }
            return true;
        }
        i = i + 1;
    }
    proof {
        if s@.skip(from as int).contains('\n') {
            let k = choose|k: int| 0 <= k < s@.skip(from as int).len() && s@.skip(from as int)[k] == '\n';
            assert(s@[from + k] == '\n');
        }
    }
    false
}

/// The pieces of the first range in a pattern.
fn parse_range(s: &[char]) -> (r: Option<(Vec<char>, Vec<char>, Vec<char>, Option<Vec<char>>, Vec<char>)>)
    ensures
        match range_parts(s@) {
            Some(p) => r matches Some(x) && x.0@ == p.0 && x.1@ == p.1 && x.2@ == p.2 && x.4@ == p.4
                && p.1.len() > 0 && p.2.len() > 0 && match p.3 {
                Some(t) => x.3 matches Some(y) && y@ == t,
                None => x.3 is None,
            },
            None => r is None,
        },
{
    let n = s.len();
    let b = match crate::text::find_char(s, '[') {
        Some(b) => b,
        None => return None,
    };
    let e1 = match bound_end_at(s, b + 1) {
        Some(e) => e,
        None => return None,
    };
    if !(e1 < n && s[e1] == ':') {
        return None;
    }
    let e2 = match bound_end_at(s, e1 + 1) {
        Some(e) => e,
        None => return None,
    };
    let stepped = e2 < n && e2 + 1 < n && s[e2] == ':' && '0' <= s[e2 + 1] && s[e2 + 1] <= '9';
    let close = if stepped { digits_end_at(s, e2 + 1) } else { e2 };
    if !(close < s.len() && s[close] == ']') {
        return None;
    }
    if has_line_break_from(s, close + 1) {
        return None;
    }
    let prefix = crate::text::sub_chars(s, 0, b);
    let start = crate::text::sub_chars(s, b + 1, e1);
    let end = crate::text::sub_chars(s, e1 + 1, e2);
    let step = if stepped { Some(crate::text::sub_chars(s, e2 + 1, close)) } else { None };
    let suffix = crate::text::sub_chars(s, close + 1, n);
    proof {
        assert(prefix@ =~= s@.take(b as int));
        assert(suffix@ =~= s@.skip(close + 1));
    }
    Some((prefix, start, end, step, suffix))
}

/// The names `prefix` + `first + k * step` zero-padded to `width` + `suffix`
/// for `k` below `count`.
fn numeric_names(prefix: &str, first: u64, step: u64, count: u64, width: usize, suffix: &str) -> (r: Vec<String>)
    requires
        step > 0,
        count >= 1,
        first + (count - 1) * step <= u64::MAX,
    ensures
        views(r@) == Seq::new(
            count as nat,
            |k: int| prefix@ + padded_decimal((first + k * step) as nat, width as nat) + suffix@,
        ),
{
    let ghost f = |k: int| prefix@ + padded_decimal((first + k * step) as nat, width as nat) + suffix@;
    let mut out: Vec<String> = Vec::new();
    let mut k: u64 = 0;
    let mut n: u64 = first;
    while k < count
        invariant
            k <= count,
            step > 0,
            first + (count - 1) * step <= u64::MAX,
            k < count ==> n == first + k * step,
            f == (|k: int| prefix@ + padded_decimal((first + k * step) as nat, width as nat) + suffix@),
            views(out@) == Seq::new(k as nat, f),
        decreases count - k,
    {
        let mut name = String::new();
        name.append(prefix);
        crate::numbers::push_padded_decimal(&mut name, n, width);
        name.append(suffix);
        let ghost before = views(out@);
        out.push(name);
        proof {
            assert(name@ == f(k as int));
            assert(views(out@) =~= before.push(name@));
            assert(views(out@) =~= Seq::new((k + 1) as nat, f));
        }
        if k + 1 < count {
            proof {
                assert((k + 1) * step <= (count - 1) * step) by (nonlinear_arith)
                    requires
                        k + 1 <= count - 1,
                        step > 0,
                ;
                assert((k + 1) * step == k * step + step) by (nonlinear_arith);
            }
            n = n + step;
        }
        k = k + 1;
    }
    out
}

/// The names `prefix` + the letter `first + k * step` + `suffix` for `k`
/// below `count`.
fn letter_names(prefix: &str, first: u8, step: u64, count: u64, suffix: &str) -> (r: Vec<String>)
    requires
        step > 0,
        count >= 1,
        first + (count - 1) * step < 128,
    ensures
        views(r@) == Seq::new(count as nat, |k: int| prefix@ + seq![((first as int) + k * step) as char] + suffix@),
{
    let ghost f = |k: int| prefix@ + seq![((first as int) + k * step) as char] + suffix@;
    let mut out: Vec<String> = Vec::new();
    let mut k: u64 = 0;
    let mut code: u8 = first;
    while k < count
        invariant
            k <= count,
            step > 0,
            first + (count - 1) * step < 128,
            k < count ==> code == first + k * step,
            f == (|k: int| prefix@ + seq![((first as int) + k * step) as char] + suffix@),
            views(out@) == Seq::new(k as nat, f),
        decreases count - k,
    {
        let mut name = String::new();
        name.append(prefix);
        push_char(&mut name, code as char);
        name.append(suffix);
        let ghost before = views(out@);
        out.push(name);
        proof {
            assert(name@ =~= f(k as int));
            assert(views(out@) =~= before.push(name@));
            assert(views(out@) =~= Seq::new((k + 1) as nat, f));
        }
        if k + 1 < count {
            proof {
                assert((k + 1) * step <= (count - 1) * step) by (nonlinear_arith)
                    requires
                        k + 1 <= count - 1,
                        step > 0,
                ;
                assert((k + 1) * step == k * step + step) by (nonlinear_arith);
            }
            code = code + (step as u8);
        }
        k = k + 1;
    }
    out
}

/// Whether a name is among the given ones.
fn contains_name(names: &[String], name: &str) -> (r: bool)
    ensures
        r == views(names@).contains(name@),
{
    let mut i: usize = 0;
    while i < names.len()
        invariant
            i <= names@.len(),
            forall|k: int| 0 <= k < i ==> names@[k]@ != name@,
        decreases names@.len() - i,
    {
        if crate::text::str_equal(names[i].as_str(), name) {
            proof {
                assert(views(names@)[i as int] == name@);
            }
            return true;
        }
        i = i + 1;
    }
    proof {
        if views(names@).contains(name@) {
            let k = choose|k: int| 0 <= k < views(names@).len() && views(names@)[k] == name@;
            assert(names@[k]@ == name@);
        }
    }
    false
}

/// The error for a range that cannot be expanded.
fn invalid_range(pattern: &str) -> (e: InventoryError)
    ensures
        e matches InventoryError::InvalidPattern(m) && m@ == "Invalid range: "@ + pattern@,
{
    InventoryError::InvalidPattern(crate::text::concat2("Invalid range: ", pattern))
}

/// Expands the first inventory-style range of a pattern (`web[01:03]`,
/// `node[a:c]`, `rack[1:9:2]`) into the names it stands for; `None` when the
/// pattern holds no range. A range whose prefix is one of `subscript_groups`
/// is a group subscript, which is refused.
pub fn range_candidates(pattern: &str, subscript_groups: &[String]) -> (r: Result<Option<Vec<String>>, InventoryError>)
    ensures
        match range_parts(pattern@) {
            None => r matches Ok(None),
            Some(parts) => if views(subscript_groups@).contains(parts.0) {
                r matches Err(InventoryError::InvalidPattern(m)) && m@ == "Group subscripts are not supported: "@ + pattern@
            } else {
                match range_names(parts) {
                    None => r matches Err(InventoryError::InvalidPattern(m)) && m@ == "Invalid range: "@ + pattern@,
                    Some(names) => r matches Ok(Some(v)) && views(v@) == names,
                }
            },
        },
{
    let cs = crate::text::chars_of(pattern);
    let (prefix, start, end, step_text, suffix) = match parse_range(&cs) {
        None => return Ok(None),
        Some(p) => p,
    };
    let prefix_s = string_of(&prefix);
    if contains_name(subscript_groups, prefix_s.as_str()) {
        return Err(InventoryError::InvalidPattern(crate::text::concat2("Group subscripts are not supported: ", pattern)));
    }
    let step: u64 = match step_text {
        Some(t) => match parse_unsigned(&t, u64::MAX) {
            Some(v) => v,
            None => return Err(invalid_range(pattern)),
        },
        None => 1,
    };
    if step == 0 {
        return Err(invalid_range(pattern));
    }
    let suffix_s = string_of(&suffix);
    match (parse_unsigned(&start, u64::MAX), parse_unsigned(&end, u64::MAX)) {
        (Some(first), Some(last)) => {
            if first > last || (last - first) / step >= MAX_RANGE_EXPANSION {
                return Err(invalid_range(pattern));
            }
            let width: usize = if start.len() > 1 && start[0] == '0' { start.len() } else { 0 };
            let count = (last - first) / step + 1;
            proof {
                assert((count - 1) * step <= last - first) by (nonlinear_arith)
                    requires
                        count - 1 == (last - first) as int / (step as int),
                        step > 0,
                        last >= first,
                ;
            }
            let names = numeric_names(prefix_s.as_str(), first, step, count, width, suffix_s.as_str());
            Ok(Some(names))
        },
        _ => {
            let a = start[0];
            let z = end[0];
            let alpha_a = ('a' <= a && a <= 'z') || ('A' <= a && a <= 'Z');
            let alpha_z = ('a' <= z && z <= 'z') || ('A' <= z && z <= 'Z');
            if !(alpha_a && alpha_z) || (('a' <= a && a <= 'z') != ('a' <= z && z <= 'z')) || a > z {
                return Err(invalid_range(pattern));
            }
            let first = a as u8;
            let last = z as u8;
            let count = ((last - first) as u64) / step + 1;
            proof {
                assert((count - 1) * step <= last - first) by (nonlinear_arith)
                    requires
                        count - 1 == (last - first) / (step as int),
                        step > 0,
                        last >= first,
                ;
            }
            let names = letter_names(prefix_s.as_str(), first, step, count, suffix_s.as_str());
            Ok(Some(names))
        },
    }
}

} // verus!

verus! {

/// Splits a text at every occurrence of `c`.
pub fn split_on_char(s: &str, c: char) -> (r: Vec<String>)
    ensures
        views(r@) == crate::text::split_char(s@, c),
{
    let cs = crate::text::chars_of(s);
    let mut parts: Vec<String> = Vec::new();
    let mut cur: Vec<char> = Vec::new();
    let mut i: usize = 0;
    proof {
        assert(cs@.take(0) =~= Seq::<char>::empty());
        assert(views(parts@).push(cur@) =~= crate::text::split_char(cs@.take(0), c));
    }
    while i < cs.len()
        invariant
            i <= cs@.len(),
            cs@ == s@,
            views(parts@).push(cur@) == crate::text::split_char(cs@.take(i as int), c),
        decreases cs@.len() - i,
    {
        let x = cs[i];
        let ghost pre = cs@.take(i as int);
        proof {
            assert(cs@.take(i + 1).drop_last() =~= pre);
        }
        let ghost before_parts = views(parts@);
        let ghost before_cur = cur@;
        if x == c {
            let done = string_of(&cur);
            parts.push(done);
            cur = Vec::new();
            proof {
                assert(views(parts@) =~= before_parts.push(before_cur));
                assert(views(parts@).push(cur@) =~= crate::text::split_char(pre, c).push(Seq::empty()));
            }
        } else {
            cur.push(x);
            proof {
                let p = crate::text::split_char(pre, c);
                assert(views(parts@).push(cur@) =~= p.update(p.len() - 1, p.last().push(x)));
            }
        }
        i = i + 1;
    }
    let last = string_of(&cur);
    let ghost before_parts = views(parts@);
    parts.push(last);
    proof {
        assert(cs@.take(cs@.len() as int) =~= cs@);
        assert(views(parts@) =~= before_parts.push(cur@));
    }
    parts
}

} // verus!

verus! {

/// The elements of a host pattern put back together with `:` give the
/// pattern: splitting loses nothing.
pub proof fn pattern_parts_rejoin(s: Seq<char>)
    ensures
        crate::text::joined(pattern_parts(s), seq![':']) == s,
    decreases s.len(),
{
    if s.len() > 0 {
        let p = s.drop_last();
        let c = s.last();
        let ps = pattern_parts(p);
        assert(s =~= p.push(c));
        pattern_parts_rejoin(p);
        lemma_pattern_parts_nonempty(p);
        if c == ':' && bracket_depth(p) == 0 {
            assert(pattern_parts(s).drop_last() =~= ps);
            assert(s =~= p + seq![':'] + Seq::<char>::empty());
        } else {
            let qs = pattern_parts(s);
            assert(qs == ps.update(ps.len() - 1, ps.last().push(c)));
            if ps.len() == 1 {
                assert(s =~= ps[0].push(c));
            } else {
                assert(qs.drop_last() =~= ps.drop_last());
                assert(crate::text::joined(ps, seq![':']) == crate::text::joined(ps.drop_last(), seq![':']) + seq![':']
                    + ps.last());
                let j = crate::text::joined(ps.drop_last(), seq![':']);
                assert((j + seq![':'] + ps.last()).push(c) =~= j + seq![':'] + ps.last().push(c));
            }
        }
    } else {
        assert(pattern_parts(s) =~= seq![Seq::<char>::empty()]);
    }
}

} // verus!
