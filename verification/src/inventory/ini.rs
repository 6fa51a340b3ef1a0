//! The INI inventory format: values of group variables, ports, and the
//! line-by-line reading of an inventory file.
use vstd::prelude::*;
use super::host::{HostParseError, VarValue};
use super::InventoryError;
use crate::numbers::{parse_i64, parse_unsigned, parse_unsigned_spec, signed_literal, all_digits};
use crate::text::{chars_of, is_ascii_digit, str_equal, str_to_lowercase, string_of, trim_ws, lowercase, views};

verus! {

/// What `shell_words::split` gives for a text: its words, or `None` when a
/// quote is left open.
pub uninterp spec fn shell_split_words(s: Seq<char>) -> Option<Seq<Seq<char>>>;

/// Calls `shell_words::split`, which splits a text into words as a POSIX
/// shell does. The contract claims that the outcome depends on the text alone.
#[verifier::external_body]
pub(crate) fn shell_split(s: &str) -> (r: Option<Vec<String>>)
    ensures
        match shell_split_words(s@) {
            None => r is None,
            Some(ws) => r is Some && views(r->0@) == ws,
        },
{
    shell_words::split(s).ok()
}

/// The first `e` or `E`, or the length when there is none.
pub open spec fn exponent_start(s: Seq<char>) -> int
    decreases s.len(),
{
    if s.len() == 0 {
        0
    } else if s[0] == 'e' || s[0] == 'E' {
        0
    } else {
        1 + exponent_start(s.drop_first())
    }
}

/// Digits with at most one `.` among them, and at least one digit.
pub open spec fn mantissa_ok(m: Seq<char>) -> bool {
    &&& forall|i: int| 0 <= i < m.len() ==> (is_ascii_digit(#[trigger] m[i]) || m[i] == '.')
    &&& forall|i: int, j: int| #![trigger m[i], m[j]] 0 <= i < j < m.len() && m[i] == '.' ==> m[j] != '.'
    &&& exists|i: int| 0 <= i < m.len() && is_ascii_digit(#[trigger] m[i])
}

/// No exponent, or `e` or `E` with an optional sign and at least one digit.
pub open spec fn exponent_ok(e: Seq<char>) -> bool {
    if e.len() == 0 {
        true
    } else {
        let rest = e.drop_first();
        let digits = if rest.len() > 0 && (rest[0] == '+' || rest[0] == '-') { rest.drop_first() } else { rest };
        (e[0] == 'e' || e[0] == 'E') && digits.len() > 0 && all_digits(digits)
    }
}

/// A decimal number as `f64` reads it: an optional sign, a mantissa and an
/// optional exponent.
pub open spec fn float_literal(s: Seq<char>) -> bool {
    let body = if s.len() > 0 && (s[0] == '+' || s[0] == '-') { s.drop_first() } else { s };
    let k = exponent_start(body);
    mantissa_ok(body.take(k)) && exponent_ok(body.skip(k))
}

fn exponent_start_of(s: &[char], from: usize) -> (r: usize)
    requires
        from <= s@.len(),
    ensures
        r == from + exponent_start(s@.skip(from as int)),
        from <= r <= s@.len(),
        r < s@.len() ==> (s@[r as int] == 'e' || s@[r as int] == 'E'),
{
    let mut i = from;
    while i < s.len() && s[i] != 'e' && s[i] != 'E'
        invariant
            from <= i <= s@.len(),
            exponent_start(s@.skip(from as int)) == (i - from) + exponent_start(s@.skip(i as int)),
        decreases s@.len() - i,
    {
        proof {
            assert(s@.skip(i as int).drop_first() =~= s@.skip(i + 1));
        }
        i = i + 1;
    }
    i
}

/// Whether the characters are digits with at most one `.` and at least one digit.
fn is_mantissa(s: &[char], from: usize, to: usize) -> (r: bool)
    requires
        from <= to <= s@.len(),
    ensures
        r == mantissa_ok(s@.subrange(from as int, to as int)),
{
    let ghost m = s@.subrange(from as int, to as int);
    let mut i = from;
    let mut dots: usize = 0;
    let mut dot_pos: usize = from;
    let mut digits = false;
    while i < to
        invariant
            from <= i <= to <= s@.len(),
            m == s@.subrange(from as int, to as int),
            dots <= 1,
            forall|j: int| from <= j < i ==> (is_ascii_digit(#[trigger] s@[j]) || s@[j] == '.'),
            dots == 0 ==> forall|j: int| from <= j < i ==> #[trigger] s@[j] != '.',
            dots == 1 ==> from <= dot_pos < i && s@[dot_pos as int] == '.' && forall|j: int|
                from <= j < i && j != dot_pos ==> #[trigger] s@[j] != '.',
            digits == exists|j: int| from <= j < i && is_ascii_digit(#[trigger] s@[j]),
        decreases to - i,
    {
        let c = s[i];
        if c == '.' {
            if dots == 1 {
                proof {
                    assert(m[dot_pos - from] == '.' && m[i - from] == '.');
                }
                return false;
            }
            dots = 1;
            dot_pos = i;
        } else if c < '0' || c > '9' {
            proof {
                assert(!(is_ascii_digit(m[i - from]) || m[i - from] == '.'));
            }
            return false;
        } else {
            digits = true;
        }
        i = i + 1;
    }
    proof {
        if digits {
            let j = choose|j: int| from <= j < i && is_ascii_digit(#[trigger] s@[j]);
            assert(is_ascii_digit(m[j - from]));
        } else if mantissa_ok(m) {
            let j = choose|j: int| 0 <= j < m.len() && is_ascii_digit(#[trigger] m[j]);
            assert(is_ascii_digit(s@[from + j]));
        }
        assert forall|x: int| 0 <= x < m.len() implies (is_ascii_digit(#[trigger] m[x]) || m[x] == '.') by {
            assert(m[x] == s@[from + x]);
        }
        assert forall|a: int, b: int| #![trigger m[a], m[b]] 0 <= a < b < m.len() && m[a] == '.' implies m[b] != '.' by {
            assert(m[a] == s@[from + a]);
            assert(m[b] == s@[from + b]);
        }
    }
    digits
}

/// Whether the characters, from `from` on, are an optional sign and at least one digit.
fn is_exponent_digits(s: &[char], from: usize) -> (r: bool)
    requires
        from <= s@.len(),
    ensures
        r == ({
            let rest = s@.skip(from as int);
            let digits = if rest.len() > 0 && (rest[0] == '+' || rest[0] == '-') { rest.drop_first() } else { rest };
            digits.len() > 0 && all_digits(digits)
        }),
{
    let ghost rest = s@.skip(from as int);
    let d: usize = if from < s.len() && (s[from] == '+' || s[from] == '-') { from + 1 } else { from };
    let ghost digits = s@.skip(d as int);
    proof {
        let dd = if rest.len() > 0 && (rest[0] == '+' || rest[0] == '-') { rest.drop_first() } else { rest };
        assert(dd =~= digits);
    }
    if d == s.len() {
        return false;
    }
    let mut j = d;
    while j < s.len()
        invariant
            d <= j <= s@.len(),
            digits == s@.skip(d as int),
            digits == ({
                let rest = s@.skip(from as int);
                if rest.len() > 0 && (rest[0] == '+' || rest[0] == '-') { rest.drop_first() } else { rest }
            }),
            forall|x: int| d <= x < j ==> is_ascii_digit(#[trigger] s@[x]),
        decreases s@.len() - j,
    {
        if s[j] < '0' || s[j] > '9' {
            proof {
                assert(!is_ascii_digit(digits[j - d]));
            }
            return false;
        }
        j = j + 1;
    }
    proof {
        assert forall|x: int| 0 <= x < digits.len() implies is_ascii_digit(#[trigger] digits[x]) by {
            assert(digits[x] == s@[d + x]);
        }
    }
    true
}

/// Whether the characters are a decimal number as `f64` reads it.
#[verifier::spinoff_prover]
#[verifier::rlimit(40)]
pub fn is_float_literal(s: &[char]) -> (r: bool)
    ensures
        r == float_literal(s@),
{
    let start: usize = if s.len() > 0 && (s[0] == '+' || s[0] == '-') { 1 } else { 0 };
    let ghost body = if s@.len() > 0 && (s@[0] == '+' || s@[0] == '-') { s@.drop_first() } else { s@ };
    proof {
        assert(body =~= s@.skip(start as int));
    }
    let k = exponent_start_of(s, start);
    proof {
        assert(body.take(k - start) =~= s@.subrange(start as int, k as int));
        assert(body.skip(k - start) =~= s@.skip(k as int));
    }
    if !is_mantissa(s, start, k) {
        return false;
    }
    if k == s.len() {
        proof {
            assert(s@.skip(k as int).len() == 0);
        }
        return true;
    }
    proof {
        assert(s@.skip(k as int).drop_first() =~= s@.skip(k + 1));
    }
    is_exponent_digits(s, k + 1)
}

/// What a quoted value gives, from the words of the text.
pub open spec fn quoted_value(words: Option<Seq<Seq<char>>>, r: Result<VarValue, InventoryError>) -> bool {
    match words {
        None => (r matches Err(InventoryError::InvalidIniFormat(m)) && m@ == "unmatched quote in group variable"@),
        Some(ws) => if ws.len() != 1 {
            (r matches Err(InventoryError::InvalidIniFormat(m)) && m@ == "quoted group variable must contain one value"@)
        } else {
            (r matches Ok(VarValue::Str(t)) && t@ == ws[0])
        },
    }
}

/// Whether a lowercased word means true.
pub open spec fn true_word(l: Seq<char>) -> bool {
    l == "true"@ || l == "yes"@ || l == "on"@ || l == "y"@ || l == "t"@
}

/// Whether a lowercased word means false.
pub open spec fn false_word(l: Seq<char>) -> bool {
    l == "false"@ || l == "no"@ || l == "off"@ || l == "n"@ || l == "f"@
}

/// What the value text of a group variable gives: a quoted text is one
/// string, then booleans, integers, other numbers, and plain text.
pub open spec fn ini_value(s: Seq<char>, r: Result<VarValue, InventoryError>) -> bool {
    let v = trim_ws(s);
    if v.len() > 0 && (v[0] == '"' || v[0] == '\'') {
        quoted_value(shell_split_words(v), r)
    } else if true_word(lowercase(v)) {
        r == Ok::<VarValue, InventoryError>(VarValue::Bool(true))
    } else if false_word(lowercase(v)) {
        r == Ok::<VarValue, InventoryError>(VarValue::Bool(false))
    } else if signed_literal(v) is Some && i64::MIN <= signed_literal(v).unwrap() <= i64::MAX {
        r == Ok::<VarValue, InventoryError>(VarValue::Int(signed_literal(v).unwrap() as i64))
    } else if parse_unsigned_spec(v, u64::MAX as nat) is Some {
        r == Ok::<VarValue, InventoryError>(VarValue::UInt(parse_unsigned_spec(v, u64::MAX as nat).unwrap() as u64))
    } else if float_literal(v) {
        (r matches Ok(VarValue::Float(t)) && t@ == v)
    } else {
        (r matches Ok(VarValue::Str(t)) && t@ == v)
    }
}

/// The value of a quoted group variable, from the words the text splits into.
pub fn quoted_ini_value(words: Option<Vec<String>>) -> (r: Result<VarValue, InventoryError>)
    ensures
        quoted_value(
            match words {
                Some(w) => Some(views(w@)),
                None => None,
            },
            r,
        ),
{
    match words {
        None => Err(InventoryError::InvalidIniFormat(crate::text::copy_str("unmatched quote in group variable"))),
        Some(w) => {
            if w.len() != 1 {
                Err(InventoryError::InvalidIniFormat(crate::text::copy_str("quoted group variable must contain one value")))
            } else {
                Ok(VarValue::Str(w[0].clone()))
            }
        },
    }
}

/// Parses the value of a group variable.
pub fn parse_ini_value(value: &str) -> (r: Result<VarValue, InventoryError>)
    ensures
        ini_value(value@, r),
{
    let cs = chars_of(value);
    let tv = crate::text::trim(&cs);
    let t = string_of(&tv);
    if tv.len() > 0 && (tv[0] == '"' || tv[0] == '\'') {
        return quoted_ini_value(shell_split(t.as_str()));
    }
    let l = str_to_lowercase(t.as_str());
    if str_equal(l.as_str(), "true") || str_equal(l.as_str(), "yes") || str_equal(l.as_str(), "on") || str_equal(
        l.as_str(),
        "y",
    ) || str_equal(l.as_str(), "t") {
        return Ok(VarValue::Bool(true));
    }
    if str_equal(l.as_str(), "false") || str_equal(l.as_str(), "no") || str_equal(l.as_str(), "off") || str_equal(
        l.as_str(),
        "n",
    ) || str_equal(l.as_str(), "f") {
        return Ok(VarValue::Bool(false));
    }
    match parse_i64(&tv) {
        Some(i) => {
            return Ok(VarValue::Int(i));
        },
        None => {},
    }
    match parse_unsigned(&tv, u64::MAX) {
        Some(u) => {
            return Ok(VarValue::UInt(u));
        },
        None => {},
    }
    if is_float_literal(&tv) {
        return Ok(VarValue::Float(t));
    }
    Ok(VarValue::Str(t))
}

/// The port a variable value gives: an integer or a decimal text in
/// 1..=65535.
pub open spec fn inventory_port(v: VarValue) -> Option<u16> {
    let p: Option<int> = match v {
        VarValue::Int(i) => if 0 <= i <= 65535 { Some(i as int) } else { None },
        VarValue::UInt(u) => if u <= 65535 { Some(u as int) } else { None },
        VarValue::Str(s) => match parse_unsigned_spec(s@, 65535) {
            Some(n) => Some(n as int),
            None => None,
        },
        _ => None,
    };
    match p {
        Some(x) => if x != 0 { Some(x as u16) } else { None },
        None => None,
    }
}

/// Reads an SSH port from a variable value.
pub fn parse_inventory_port(value: &VarValue) -> (r: Result<u16, InventoryError>)
    ensures
        match inventory_port(*value) {
            Some(p) => r == Ok::<u16, InventoryError>(p),
            None => (r matches Err(InventoryError::HostParse(HostParseError::InvalidPort(m))) && m@
                == "expected an integer in 1..=65535"@),
        },
{
    let p: Option<u16> = match value {
        VarValue::Int(i) => if 0 <= *i && *i <= 65535 { Some(*i as u16) } else { None },
        VarValue::UInt(u) => if *u <= 65535 { Some(*u as u16) } else { None },
        VarValue::Str(s) => {
            let cs = chars_of(s.as_str());
            match parse_unsigned(&cs, 65535) {
                Some(n) => Some(n as u16),
                None => None,
            }
        },
        _ => None,
    };
    match p {
        Some(x) => if x != 0 {
            Ok(x)
        } else {
            Err(InventoryError::HostParse(HostParseError::InvalidPort(crate::text::copy_str("expected an integer in 1..=65535"))))
        },
        None => Err(InventoryError::HostParse(HostParseError::InvalidPort(crate::text::copy_str("expected an integer in 1..=65535")))),
    }
}

} // verus!

verus! {

use super::{Inventory, host_index, find_host, host_added_to_group, add_host_to_group};
use super::graph::{group_index, find_group};
use super::group::{Group, empty_group};
use super::host::{Host, group_names, same_settings, parsed_host, first_error, error_for};
use crate::assoc::{entries, insert_entry, merged};
use crate::text::{words, split_once_spec, text_lines, sub_chars};

broadcast use vstd::seq_lib::group_seq_properties;

/// The names with `n` added unless it is there already.
pub open spec fn with_name(ns: Seq<Seq<char>>, n: Seq<char>) -> Seq<Seq<char>> {
    if ns.contains(n) {
        ns
    } else {
        ns.push(n)
    }
}

/// The section of an INI file that a line belongs to.
#[derive(Debug, Clone, Copy, PartialEq, Eq, Structural)]
pub enum IniSection {
    /// Host lines of the current group.
    Hosts,
    /// `key=value` variables of the current group.
    Vars,
    /// Names of the current group's children.
    Children,
}

/// What reading an INI file has built so far: the hosts, the groups, the
/// current group and the current section.
pub type IniState = (Seq<Host>, Seq<Group>, Seq<char>, IniSection);

/// The last `:`, if any.
pub open spec fn last_colon(s: Seq<char>) -> Option<int>
    decreases s.len(),
{
    if s.len() == 0 {
        None
    } else if s.last() == ':' {
        Some(s.len() - 1)
    } else {
        last_colon(s.drop_last())
    }
}

/// Lines that hold nothing: blank, or a comment starting with `#` or `;`.
pub open spec fn is_ini_skip(t: Seq<char>) -> bool {
    t.len() == 0 || t[0] == '#' || t[0] == ';'
}

/// Section headers: `[...]`.
pub open spec fn is_ini_header(t: Seq<char>) -> bool {
    t.len() > 0 && t[0] == '[' && t.last() == ']'
}

/// The group and section a header names: `[g]`, `[g:vars]`, `[g:children]`;
/// the group is the text before the last `:`, and another suffix names the
/// host section.
pub open spec fn header_of(t: Seq<char>) -> (Seq<char>, IniSection) {
    let sec = t.subrange(1, t.len() - 1);
    match last_colon(sec) {
        Some(i) => (
            sec.take(i),
            if sec.skip(i + 1) == "vars"@ {
                IniSection::Vars
            } else if sec.skip(i + 1) == "children"@ {
                IniSection::Children
            } else {
                IniSection::Hosts
            },
        ),
        None => (sec, IniSection::Hosts),
    }
}

/// `after` is `before` with an empty group `name` added last, unless a group
/// has that name already.
pub open spec fn group_ensured(before: Seq<Group>, name: Seq<char>, after: Seq<Group>) -> bool {
    if group_index(before, name) is Some {
        after == before
    } else {
        after.len() == before.len() + 1 && after.drop_last() == before && empty_group(after.last(), name)
    }
}

/// `after` is `before` with `key` set to `value` in the first group named
/// `gname`, when there is one.
pub open spec fn group_var_set(before: Seq<Group>, gname: Seq<char>, key: Seq<char>, value: VarValue, after: Seq<Group>) -> bool {
    match group_index(before, gname) {
        None => after == before,
        Some(i) => {
            &&& after.len() == before.len()
            &&& forall|k: int| 0 <= k < before.len() && k != i ==> #[trigger] after[k] == before[k]
            &&& entries(after[i].vars@) == insert_entry(entries(before[i].vars@), key, value)
            &&& after[i].name == before[i].name
            &&& after[i].hosts == before[i].hosts
            &&& after[i].children == before[i].children
            &&& after[i].parents == before[i].parents
            &&& after[i].priority == before[i].priority
        },
    }
}

/// `after` is `before` with `child` among the children of the first group
/// named `gname`, when there is one.
pub open spec fn group_child_added(before: Seq<Group>, gname: Seq<char>, child: Seq<char>, after: Seq<Group>) -> bool {
    match group_index(before, gname) {
        None => after == before,
        Some(i) => {
            &&& after.len() == before.len()
            &&& forall|k: int| 0 <= k < before.len() && k != i ==> #[trigger] after[k] == before[k]
            &&& views(after[i].children@) == with_name(views(before[i].children@), child)
            &&& after[i].name == before[i].name
            &&& after[i].hosts == before[i].hosts
            &&& after[i].parents == before[i].parents
            &&& after[i].vars == before[i].vars
            &&& after[i].priority == before[i].priority
        },
    }
}

/// `after` is `before` once the host `h` of a line of group `gname` is taken
/// in: a known host joins the group and takes the line's variables; a new
/// host is added, in the group and in `all`.
pub open spec fn ini_host_merged(before: Seq<Host>, h: Host, gname: Seq<char>, after: Seq<Host>) -> bool {
    match host_index(before, h.name@) {
        Some(i) => {
            &&& after.len() == before.len()
            &&& forall|k: int| 0 <= k < before.len() && k != i ==> #[trigger] after[k] == before[k]
            &&& same_settings(after[i], before[i])
            &&& group_names(after[i].groups@) == with_name(group_names(before[i].groups@), gname)
            &&& entries(after[i].vars@) == merged(entries(before[i].vars@), entries(h.vars@))
        },
        None => {
            &&& after.len() == before.len() + 1
            &&& after.drop_last() == before
            &&& same_settings(after.last(), h)
            &&& after.last().vars == h.vars
            &&& group_names(after.last().groups@) == with_name(with_name(group_names(h.groups@), gname), "all"@)
        },
    }
}

/// The variable of a `key=value` line set in the first group named
/// `gname`, from `before` to `after`.
pub open spec fn ini_var_applied(before: Seq<Group>, gname: Seq<char>, kv: (Seq<char>, Seq<char>), after: Seq<Group>) -> bool {
    exists|v: VarValue|
        ini_value(kv.1, Ok(v)) && (trim_ws(kv.0) == "ansible_port"@ ==> inventory_port(v) is Some) && group_var_set(
            before,
            gname,
            trim_ws(kv.0),
            v,
            after,
        )
}

/// A `key=value` line refused with `e`: its value does not parse, or it
/// gives `ansible_port` a value that is no port.
pub open spec fn ini_var_refused(kv: (Seq<char>, Seq<char>), e: InventoryError) -> bool {
    ini_value(kv.1, Err(e)) || exists|v: VarValue|
        ini_value(kv.1, Ok(v)) && trim_ws(kv.0) == "ansible_port"@ && inventory_port(v) is None && (e matches InventoryError::HostParse(
            HostParseError::InvalidPort(m),
        ) && m@ == "expected an integer in 1..=65535"@)
}

/// A child line `t` of the group `gname`, from `before` to `after`.
pub open spec fn ini_child_applied(before: Seq<Group>, gname: Seq<char>, t: Seq<char>, after: Seq<Group>) -> bool {
    exists|mid: Seq<Group>| group_child_added(before, gname, t, mid) && group_ensured(mid, t, after)
}

/// A host line `t` of the group `gname`, from `hs`, `gs` to `hs2`, `gs2`.
pub open spec fn ini_host_applied(hs: Seq<Host>, gs: Seq<Group>, gname: Seq<char>, t: Seq<char>, hs2: Seq<Host>, gs2: Seq<Group>) -> bool {
    words(t).len() > 0 && first_error(words(t).drop_first()) is None && exists|h: Host, mid: Seq<Group>|
        parsed_host(h, words(t)[0], words(t).drop_first()) && ini_host_merged(hs, h, gname, hs2) && host_added_to_group(
            gs,
            gname,
            h.name@,
            mid,
        ) && if gname != "all"@ {
            host_added_to_group(mid, "all"@, h.name@, gs2)
        } else {
            gs2 == mid
        }
}

/// A line of an INI file read without error, from the state `pre` to `post`.
pub open spec fn ini_line_ok(pre: IniState, line: Seq<char>, post: IniState) -> bool {
    let t = trim_ws(line);
    if is_ini_skip(t) {
        post == pre
    } else if is_ini_header(t) {
        &&& post.0 == pre.0
        &&& post.2 == header_of(t).0
        &&& post.3 == header_of(t).1
        &&& group_ensured(pre.1, header_of(t).0, post.1)
    } else {
        &&& post.2 == pre.2
        &&& post.3 == pre.3
        &&& match pre.3 {
            IniSection::Vars => match split_once_spec(t, '=') {
                None => post.0 == pre.0 && post.1 == pre.1,
                Some(kv) => post.0 == pre.0 && ini_var_applied(pre.1, pre.2, kv, post.1),
            },
            IniSection::Children => post.0 == pre.0 && ini_child_applied(pre.1, pre.2, t, post.1),
            IniSection::Hosts => ini_host_applied(pre.0, pre.1, pre.2, t, post.0, post.1),
        }
    }
}

/// A line of an INI file that fails with `e` in the state `pre`.
pub open spec fn ini_line_err(pre: IniState, line: Seq<char>, e: InventoryError) -> bool {
    let t = trim_ws(line);
    &&& !is_ini_skip(t)
    &&& !is_ini_header(t)
    &&& match pre.3 {
        IniSection::Vars => match split_once_spec(t, '=') {
            None => false,
            Some(kv) => ini_var_refused(kv, e),
        },
        IniSection::Children => false,
        IniSection::Hosts => if words(t).len() == 0 {
            e == InventoryError::HostParse(HostParseError::EmptyInput)
        } else {
            match first_error(words(t).drop_first()) {
                Some(fe) => (e matches InventoryError::HostParse(x) && error_for(x, fe)),
                None => false,
            }
        },
    }
}

/// Reading `lines` from the state `init` went through the states of `trace`,
/// one line at a time, and ended with `hosts` and `groups`: after every line
/// when `r` is `Ok`, else at the line that failed with the error of `r`.
pub open spec fn ini_read(
    init: IniState,
    lines: Seq<Seq<char>>,
    trace: Seq<IniState>,
    hosts: Seq<Host>,
    groups: Seq<Group>,
    r: Result<(), InventoryError>,
) -> bool {
    &&& trace.len() >= 1
    &&& trace[0] == init
    &&& forall|i: int| #![trigger trace[i]] 0 <= i < trace.len() - 1 ==> ini_line_ok(trace[i], lines[i], trace[i + 1])
    &&& hosts == trace.last().0
    &&& groups == trace.last().1
    &&& match r {
        Ok(()) => trace.len() == lines.len() + 1,
        Err(e) => trace.len() <= lines.len() && ini_line_err(trace.last(), lines[trace.len() - 1], e),
    }
}

/// The position of the last `:`.
fn last_colon_at(s: &[char]) -> (r: Option<usize>)
    ensures
        match last_colon(s@) {
            Some(i) => r is Some && r.unwrap() as int == i,
            None => r is None,
        },
        r is Some ==> r.unwrap() < s@.len(),
{
    let mut i = s.len();
    while i > 0
        invariant
            i <= s@.len(),
            last_colon(s@) == last_colon(s@.take(i as int)),
        decreases i,
    {
        proof {
            assert(s@.take(i as int).drop_last() =~= s@.take(i - 1));
        }
        if s[i - 1] == ':' {
            return Some(i - 1);
        }
        i = i - 1;
    }
    None
}

impl Inventory {
    /// Adds an empty group of a name unless one exists.
    pub(super) fn ensure_group(&mut self, name: &str)
        ensures
            group_ensured(old(self).groups@, name@, final(self).groups@),
            final(self).hosts == old(self).hosts,
    {
        if find_group(&self.groups, name).is_none() {
            let ghost before = self.groups@;
            self.groups.push(Group::new(name));
            proof {
                assert(self.groups@.drop_last() =~= before);
            }
        }
    }

    /// Reads a section header.
    fn ini_header(&mut self, t: &Vec<char>, current: &mut String, section: &mut IniSection)
        requires
            is_ini_header(t@),
        ensures
            final(current)@ == header_of(t@).0,
            *final(section) == header_of(t@).1,
            group_ensured(old(self).groups@, header_of(t@).0, final(self).groups@),
            final(self).hosts == old(self).hosts,
    {
        let n = t.len();
        let sec = sub_chars(t.as_slice(), 1, n - 1);
        match last_colon_at(&sec) {
            Some(c) => {
                let name = string_of(&sub_chars(&sec, 0, c));
                let suffix = string_of(&sub_chars(&sec, c + 1, sec.len()));
                proof {
                    assert(name@ =~= sec@.take(c as int));
                    assert(suffix@ =~= sec@.skip(c + 1));
                }
                *section = if str_equal(suffix.as_str(), "vars") {
                    IniSection::Vars
                } else if str_equal(suffix.as_str(), "children") {
                    IniSection::Children
                } else {
                    IniSection::Hosts
                };
                *current = name;
            },
            None => {
                *current = string_of(&sec);
                *section = IniSection::Hosts;
            },
        }
        self.ensure_group(current.as_str());
    }

    /// Reads a `key=value` line of a `vars` section.
    fn ini_vars_line(&mut self, t: &Vec<char>, current: &str) -> (r: Result<(), InventoryError>)
        ensures
            final(self).hosts == old(self).hosts,
            match split_once_spec(t@, '=') {
                None => r is Ok && final(self).groups == old(self).groups,
                Some(kv) => match r {
                    Ok(()) => ini_var_applied(old(self).groups@, current@, kv, final(self).groups@),
                    Err(e) => final(self).groups == old(self).groups && ini_var_refused(kv, e),
                },
            },
    {
        let (k, v) = match crate::text::split_once(t.as_slice(), '=') {
            None => {
                return Ok(());
            },
            Some(kv) => kv,
        };
        let key = string_of(&crate::text::trim(&k));
        let text = string_of(&v);
        let value = match parse_ini_value(text.as_str()) {
            Err(e) => {
                return Err(e);
            },
            Ok(x) => x,
        };
        if str_equal(key.as_str(), "ansible_port") {
            match parse_inventory_port(&value) {
                Err(e) => {
                    return Err(e);
                },
                Ok(_) => {},
            }
        }
        let ghost vv = value;
        match find_group(&self.groups, current) {
            Some(gi) => {
                let ghost before = self.groups@;
                self.groups[gi].set_var(key.as_str(), value);
                proof {
                    assert(forall|x: int| 0 <= x < before.len() && x != gi ==> #[trigger] self.groups@[x] == before[x]);
                }
            },
            None => {},
        }
        proof {
            assert(group_var_set(old(self).groups@, current@, key@, vv, self.groups@));
        }
        Ok(())
    }

    /// Reads a line of a `children` section.
    fn ini_child_line(&mut self, t: &Vec<char>, current: &str)
        ensures
            final(self).hosts == old(self).hosts,
            ini_child_applied(old(self).groups@, current@, t@, final(self).groups@),
    {
        let child = string_of(t);
        match find_group(&self.groups, current) {
            Some(gi) => {
                let ghost before = self.groups@;
                self.groups[gi].add_child(child.as_str());
                proof {
                    assert(forall|x: int| 0 <= x < before.len() && x != gi ==> #[trigger] self.groups@[x] == before[x]);
                }
            },
            None => {},
        }
        let ghost mid = self.groups@;
        self.ensure_group(child.as_str());
        proof {
            assert(group_child_added(old(self).groups@, current@, t@, mid));
        }
    }
}


impl Inventory {
    /// Reads a host line of the current group.
    fn ini_host_line(&mut self, t: &Vec<char>, current: &str) -> (r: Result<(), InventoryError>)
        ensures
            match r {
                Ok(()) => ini_host_applied(old(self).hosts@, old(self).groups@, current@, t@, final(self).hosts@, final(self).groups@),
                Err(e) => final(self).hosts == old(self).hosts && final(self).groups == old(self).groups && if words(t@).len() == 0 {
                    e == InventoryError::HostParse(HostParseError::EmptyInput)
                } else {
                    match first_error(words(t@).drop_first()) {
                        Some(fe) => (e matches InventoryError::HostParse(x) && error_for(x, fe)),
                        None => false,
                    }
                },
            },
    {
        let line = string_of(t);
        let h = match Host::parse(line.as_str()) {
            Err(e) => {
                return Err(InventoryError::HostParse(e));
            },
            Ok(h) => h,
        };
        let ghost parsed = h;
        let name = h.name.clone();
        add_host_to_group(&mut self.groups, current, name.as_str());
        let ghost mid = self.groups@;
        if !str_equal(current, "all") {
            add_host_to_group(&mut self.groups, "all", name.as_str());
        }
        let ghost before = self.hosts@;
        match find_host(&self.hosts, name.as_str()) {
            Some(k) => {
                self.hosts[k].add_to_group(current);
                self.hosts[k].merge_vars(&h.vars);
                proof {
                    assert(forall|x: int| 0 <= x < before.len() && x != k ==> #[trigger] self.hosts@[x] == before[x]);
                }
            },
            None => {
                let mut fresh = h;
                fresh.add_to_group(current);
                fresh.add_to_group("all");
                self.hosts.push(fresh);
                proof {
                    assert(self.hosts@.drop_last() =~= before);
                }
            },
        }
        proof {
            assert(ini_host_merged(before, parsed, current@, self.hosts@));
        }
        Ok(())
    }

    /// Reads one line of an INI file.
    fn ini_line(&mut self, line: &Vec<char>, current: &mut String, section: &mut IniSection) -> (r: Result<(), InventoryError>)
        ensures
            match r {
                Ok(()) => ini_line_ok(
                    (old(self).hosts@, old(self).groups@, old(current)@, *old(section)),
                    line@,
                    (final(self).hosts@, final(self).groups@, final(current)@, *final(section)),
                ),
                Err(e) => ini_line_err((old(self).hosts@, old(self).groups@, old(current)@, *old(section)), line@, e)
                    && final(self).hosts == old(self).hosts && final(self).groups == old(self).groups,
            },
    {
        let t = crate::text::trim(line.as_slice());
        let n = t.len();
        if n == 0 || t[0] == '#' || t[0] == ';' {
            return Ok(());
        }
        if t[0] == '[' && t[n - 1] == ']' {
            self.ini_header(&t, current, section);
            return Ok(());
        }
        match *section {
            IniSection::Vars => self.ini_vars_line(&t, current.as_str()),
            IniSection::Children => {
                self.ini_child_line(&t, current.as_str());
                Ok(())
            },
            IniSection::Hosts => self.ini_host_line(&t, current.as_str()),
        }
    }

    /// Reads an inventory in INI format: `[group]` sections of host lines,
    /// `[group:vars]` sections of `key=value` variables and
    /// `[group:children]` sections of child group names; lines before the
    /// first section belong to `ungrouped`. Blank lines and comments starting
    /// with `#` or `;` are skipped. The first line that fails stops the
    /// reading, with the lines before it taken in.
    pub fn parse_ini(&mut self, content: &str) -> (r: Result<(), InventoryError>)
        ensures
            exists|trace: Seq<IniState>|
                ini_read(
                    (old(self).hosts_view(), old(self).groups_view(), "ungrouped"@, IniSection::Hosts),
                    text_lines(content@),
                    trace,
                    final(self).hosts_view(),
                    final(self).groups_view(),
                    r,
                ),
    {
        let cs = chars_of(content);
        let lines = crate::text::lines_of(&cs);
        let ghost ls = text_lines(content@);
        let mut current = crate::text::copy_str("ungrouped");
        let mut section = IniSection::Hosts;
        let ghost init: IniState = (self.hosts@, self.groups@, "ungrouped"@, IniSection::Hosts);
        let ghost mut trace: Seq<IniState> = seq![init];
        proof {
            assert(ls == lines@.map_values(|l: Vec<char>| l@));
        }
        let mut i: usize = 0;
        while i < lines.len()
            invariant
                i <= lines@.len(),
                ls == lines@.map_values(|l: Vec<char>| l@),
                ls == text_lines(content@),
                trace.len() == i + 1,
                trace[0] == init,
                init == (old(self).hosts@, old(self).groups@, "ungrouped"@, IniSection::Hosts),
                forall|j: int| #![trigger trace[j]] 0 <= j < i ==> ini_line_ok(trace[j], ls[j], trace[j + 1]),
                trace.last() == (self.hosts@, self.groups@, current@, section),
            decreases lines@.len() - i,
        {
            proof {
                assert(ls[i as int] == lines@[i as int]@);
            }
            let ghost pre = trace.last();
            match self.ini_line(&lines[i], &mut current, &mut section) {
                Err(e) => {
                    proof {
                        assert(trace.last() == pre);
                        assert(ini_read(init, ls, trace, self.hosts@, self.groups@, Err::<(), InventoryError>(e)));
                        assert(old(self).hosts_view() == old(self).hosts@);
                        assert(old(self).groups_view() == old(self).groups@);
                        assert(self.hosts_view() == self.hosts@);
                        assert(self.groups_view() == self.groups@);
                        assert(ini_read(
                            (old(self).hosts_view(), old(self).groups_view(), "ungrouped"@, IniSection::Hosts),
                            text_lines(content@),
                            trace,
                            self.hosts_view(),
                            self.groups_view(),
                            Err::<(), InventoryError>(e),
                        ));

                    }
                    return Err(e);
                },
                Ok(()) => {},
            }
            proof {
                let old_trace = trace;
                trace = trace.push((self.hosts@, self.groups@, current@, section));
                assert forall|j: int| #![trigger trace[j]] 0 <= j < i + 1 implies ini_line_ok(trace[j], ls[j], trace[j + 1]) by {
                    if j < i {
                        assert(trace[j] == old_trace[j]);
                        assert(trace[j + 1] == old_trace[j + 1]);
                    }
                }
            }
            i = i + 1;
        }
        proof {
            assert(ini_read(init, ls, trace, self.hosts@, self.groups@, Ok::<(), InventoryError>(())));
            assert(ini_read(
                (old(self).hosts_view(), old(self).groups_view(), "ungrouped"@, IniSection::Hosts),
                text_lines(content@),
                trace,
                self.hosts_view(),
                self.groups_view(),
                Ok::<(), InventoryError>(()),
            ));
        }
        Ok(())
    }
}

} // verus!
