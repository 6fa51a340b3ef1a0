//! Module system: the shared result types, the classification of modules and
//! the helpers that several modules use to build shell commands.
use vstd::prelude::*;
use crate::text::{char_is_alphanumeric, chars_of, copy_str, is_ascii_alnum, push_char, unicode_alphanumeric};

pub mod apt;
pub mod cloud;
pub mod command;
pub mod copy;
pub mod dnf;
pub mod fact_parsers;
pub mod facts;
pub mod fetch;
pub mod file;
pub mod file_plan;
pub mod file_remote;
pub mod git;
pub mod lineinfile;
pub mod network;
pub mod pip;
pub mod packages;
pub mod params;
pub mod python;
pub mod replace;



verus! {

/// Errors that can occur during module execution.
#[derive(Debug, Clone, PartialEq, Eq)]
pub enum ModuleError {
    /// A module name that the registry does not know.
    NotFound(String),
    /// A parameter with a value the module cannot accept.
    InvalidParameter(String),
    /// A required parameter that was not given.
    MissingParameter(String),
    /// The module ran and failed.
    ExecutionFailed(String),
    /// An input/output error, by its message.
    Io(String),
    /// The module lacks a permission it needs.
    PermissionDenied(String),
    /// A command exited with a non-zero code.
    CommandFailed { code: i32, message: String },
    /// A template could not be rendered.
    TemplateError(String),
    /// Text could not be parsed.
    ParseError(String),
    /// The module does not support the requested operation.
    Unsupported(String),
    /// An Ansible module that no search path holds.
    ModuleNotFound(String),
}

/// Result type for module operations.
pub type ModuleResult<T> = Result<T, ModuleError>;

/// Status of a module execution.
#[derive(Debug, Clone, Copy, PartialEq, Eq, Structural)]
pub enum ModuleStatus {
    /// Module executed successfully and made changes.
    Changed,
    /// Module executed successfully but no changes were needed
    /// (displayed as `ok`).
    Unchanged,
    /// Module execution failed.
    Failed,
    /// Module was skipped.
    Skipped,
}

impl ModuleStatus {
    /// The lowercase name by which the status is displayed.
    pub fn as_str(&self) -> (r: &'static str)
        ensures
            r@ == match *self {
                ModuleStatus::Changed => "changed"@,
                ModuleStatus::Unchanged => "ok"@,
                ModuleStatus::Failed => "failed"@,
                ModuleStatus::Skipped => "skipped"@,
            },
    {
        match self {
            ModuleStatus::Changed => "changed",
            ModuleStatus::Unchanged => "ok",
            ModuleStatus::Failed => "failed",
            ModuleStatus::Skipped => "skipped",
        }
    }
}

/// Classification of modules based on their execution characteristics.
#[derive(Debug, Clone, Copy, PartialEq, Eq, Structural)]
pub enum ModuleClassification {
    /// Runs entirely on the control node.
    LocalLogic,
    /// File and transport work implemented natively.
    NativeTransport,
    /// Executes commands on the remote host.
    RemoteCommand,
    /// Falls back to an Ansible Python module.
    PythonFallback,
}

impl ModuleClassification {
    /// The snake_case name by which the classification is displayed.
    pub fn as_str(&self) -> (r: &'static str)
        ensures
            r@ == match *self {
                ModuleClassification::LocalLogic => "local_logic"@,
                ModuleClassification::NativeTransport => "native_transport"@,
                ModuleClassification::RemoteCommand => "remote_command"@,
                ModuleClassification::PythonFallback => "python_fallback"@,
            },
    {
        match self {
            ModuleClassification::LocalLogic => "local_logic",
            ModuleClassification::NativeTransport => "native_transport",
            ModuleClassification::RemoteCommand => "remote_command",
            ModuleClassification::PythonFallback => "python_fallback",
        }
    }
}

impl Default for ModuleClassification {
    /// Modules execute remote commands unless they say otherwise.
    fn default() -> (r: Self)
        ensures
            r == ModuleClassification::RemoteCommand,
    {
        ModuleClassification::RemoteCommand
    }
}

/// Hints for how a module can be parallelized across hosts.
#[derive(Debug, Clone, Copy, PartialEq, Eq, Structural)]
pub enum ParallelizationHint {
    /// Safe to run simultaneously across all hosts.
    FullyParallel,
    /// Requires exclusive access per host.
    HostExclusive,
    /// Network rate-limited operations.
    RateLimited {
        /// Maximum requests per second across all hosts.
        requests_per_second: u32,
    },
    /// Only one instance across the entire inventory.
    GlobalExclusive,
}

impl Default for ParallelizationHint {
    /// Modules run in parallel unless they say otherwise.
    fn default() -> (r: Self)
        ensures
            r == ParallelizationHint::FullyParallel,
    {
        ParallelizationHint::FullyParallel
    }
}

/// A difference between the current and the desired state.
#[derive(Debug, Clone, PartialEq, Eq)]
pub struct Diff {
    /// Description of what will change.
    pub before: String,
    /// Description of what it will change to.
    pub after: String,
    /// Optional detailed diff.
    pub details: Option<String>,
}

impl Diff {
    /// A diff without details.
    pub fn new(before: String, after: String) -> (d: Self)
        ensures
            d.before@ == before@,
            d.after@ == after@,
            d.details.is_none(),
    {
        Diff { before, after, details: None }
    }

    /// The same diff with the given details.
    pub fn with_details(self, details: String) -> (d: Self)
        ensures
            d.before@ == self.before@,
            d.after@ == self.after@,
            d.details == Some(details),
    {
        Diff { before: self.before, after: self.after, details: Some(details) }
    }
}

// ---------------------------------------------------------------------------
// Quoting words for a POSIX shell
// ---------------------------------------------------------------------------

/// Characters that a word may hold and still be passed to the shell bare.
/// On ASCII, alphanumeric means an ASCII letter or digit; beyond ASCII the
/// Unicode notion of `char::is_alphanumeric` decides.
pub open spec fn shell_safe_char(c: char, allow_plus: bool) -> bool {
    (if (c as u32) < 128 { is_ascii_alnum(c) } else { unicode_alphanumeric(c) }) || c == '_' || c
        == '-' || c == '.' || c == '/' || (allow_plus && c == '+')
}

/// Every character of the word is safe.
pub open spec fn shell_safe_word(s: Seq<char>, allow_plus: bool) -> bool {
    forall|i: int| 0 <= i < s.len() ==> shell_safe_char(#[trigger] s[i], allow_plus)
}

/// What one character becomes inside single quotes: a quote closes the
/// quoting, is escaped, and the quoting is reopened.
pub open spec fn quoted_piece(c: char) -> Seq<char> {
    if c == '\'' {
        seq!['\'', '\\', '\'', '\'']
    } else {
        seq![c]
    }
}

/// The body of a single-quoted word: every quote replaced by `'\''`.
pub open spec fn quote_body(s: Seq<char>) -> Seq<char>
    decreases s.len(),
{
    if s.len() == 0 {
        Seq::empty()
    } else {
        quote_body(s.drop_last()) + quoted_piece(s.last())
    }
}

/// A word as the shell escaping of this crate writes it: bare when it is not
/// empty and every character is safe, otherwise wrapped in single quotes (so
/// the empty string becomes `''`).
pub open spec fn shell_escaped(s: Seq<char>, allow_plus: bool) -> Seq<char> {
    if s.len() > 0 && shell_safe_word(s, allow_plus) {
        s
    } else {
        seq!['\''] + quote_body(s) + seq!['\'']
    }
}

/// Escapes a word for a POSIX shell; `allow_plus` also leaves `+` bare.
pub fn escape_shell_word(s: &str, allow_plus: bool) -> (r: String)
    ensures
        r@ == shell_escaped(s@, allow_plus),
{
    let cs = chars_of(s);
    let mut safe = true;
    let mut i: usize = 0;
    while i < cs.len()
        invariant
            cs@ == s@,
            i <= cs@.len(),
            safe == (forall|j: int| 0 <= j < i ==> shell_safe_char(#[trigger] cs@[j], allow_plus)),
        decreases cs@.len() - i,
    {
        let c = cs[i];
        let alnum = if (c as u32) < 128 {
            ('0' <= c && c <= '9') || ('a' <= c && c <= 'z') || ('A' <= c && c <= 'Z')
        } else {
            char_is_alphanumeric(c)
        };
        let ok = alnum || c == '_' || c == '-' || c == '.' || c == '/' || (allow_plus && c == '+');
        if !ok {
            safe = false;
        }
        i = i + 1;
    }
    if safe && cs.len() > 0 {
        return copy_str(s);
    }
    let mut out = String::new();
    push_char(&mut out, '\'');
    let mut k: usize = 0;
    while k < cs.len()
        invariant
            cs@ == s@,
            k <= cs@.len(),
            out@ == seq!['\''] + quote_body(cs@.take(k as int)),
        decreases cs@.len() - k,
    {
        let c = cs[k];
        if c == '\'' {
            push_char(&mut out, '\'');
            push_char(&mut out, '\\');
            push_char(&mut out, '\'');
            push_char(&mut out, '\'');
        } else {
            push_char(&mut out, c);
        }
        proof {
            assert(cs@.take(k + 1).drop_last() =~= cs@.take(k as int));
            assert(cs@.take(k + 1).last() == c);
            assert(out@ =~= seq!['\''] + quote_body(cs@.take(k + 1)));
        }
        k = k + 1;
    }
    push_char(&mut out, '\'');
    proof {
        assert(cs@.take(cs@.len() as int) =~= cs@);
    }
    out
}

/// What a POSIX shell makes of the characters of one word, starting inside or
/// outside single quotes: outside, a backslash takes the next character
/// literally and a single quote opens a quoted run; inside, every character
/// stands for itself until the next single quote closes the run.
pub open spec fn shell_read(w: Seq<char>, quoted: bool) -> Seq<char>
    decreases w.len(),
{
    if w.len() == 0 {
        Seq::empty()
    } else if quoted {
        if w[0] == '\'' {
            shell_read(w.drop_first(), false)
        } else {
            seq![w[0]] + shell_read(w.drop_first(), true)
        }
    } else if w[0] == '\'' {
        shell_read(w.drop_first(), true)
    } else if w[0] == '\\' && w.len() >= 2 {
        seq![w[1]] + shell_read(w.subrange(2, w.len() as int), false)
    } else {
        seq![w[0]] + shell_read(w.drop_first(), false)
    }
}

proof fn lemma_read_piece(c: char, rest: Seq<char>)
    ensures
        shell_read(quoted_piece(c) + rest, true) =~= seq![c] + shell_read(rest, true),
{
    let w = quoted_piece(c) + rest;
    if c == '\'' {
        let w1 = seq!['\\', '\'', '\''] + rest;
        let w2 = seq!['\''] + rest;
        assert(w[0] == '\'');
        assert(w.drop_first() =~= w1);
        assert(shell_read(w, true) == shell_read(w1, false));
        assert(w1[0] == '\\' && w1[1] == '\'');
        assert(w1.subrange(2, w1.len() as int) =~= w2);
        assert(shell_read(w1, false) == seq!['\''] + shell_read(w2, false));
        assert(w2[0] == '\'');
        assert(w2.drop_first() =~= rest);
        assert(shell_read(w2, false) == shell_read(rest, true));
    } else {
        assert(w[0] == c);
        assert(w.drop_first() =~= rest);
    }
}

proof fn lemma_read_body(s: Seq<char>, rest: Seq<char>)
    ensures
        shell_read(quote_body(s) + rest, true) =~= s + shell_read(rest, true),
    decreases s.len(),
{
    if s.len() > 0 {
        let init = s.drop_last();
        let piece = quoted_piece(s.last());
        assert(quote_body(s) + rest =~= quote_body(init) + (piece + rest));
        lemma_read_body(init, piece + rest);
        lemma_read_piece(s.last(), rest);
        assert(s =~= init + seq![s.last()]);
    }
}

proof fn lemma_read_safe(s: Seq<char>, allow_plus: bool)
    requires
        shell_safe_word(s, allow_plus),
    ensures
        shell_read(s, false) =~= s,
    decreases s.len(),
{
    if s.len() > 0 {
        assert(shell_safe_char(s[0], allow_plus));
        assert(shell_safe_word(s.drop_first(), allow_plus)) by {
            assert forall|i: int| 0 <= i < s.drop_first().len() implies shell_safe_char(
                #[trigger] s.drop_first()[i],
                allow_plus,
            ) by {
                assert(s.drop_first()[i] == s[i + 1]);
            }
        }
        lemma_read_safe(s.drop_first(), allow_plus);
        assert(s =~= seq![s[0]] + s.drop_first());
    }
}

/// A shell that reads an escaped word gets back exactly the original
/// string, whatever characters it holds.
pub proof fn shell_escape_round_trip(s: Seq<char>, allow_plus: bool)
    ensures
        shell_read(shell_escaped(s, allow_plus), false) == s,
{
    if s.len() > 0 && shell_safe_word(s, allow_plus) {
        lemma_read_safe(s, allow_plus);
    } else {
        let w = seq!['\''] + quote_body(s) + seq!['\''];
        assert(w.drop_first() =~= quote_body(s) + seq!['\'']);
        lemma_read_body(s, seq!['\'']);
        let q = seq!['\''];
        assert(q[0] == '\'');
        assert(q.drop_first() =~= Seq::<char>::empty());
        assert(shell_read(q.drop_first(), false) =~= Seq::<char>::empty());
        assert(shell_read(q, true) =~= Seq::<char>::empty());
        assert(s + Seq::<char>::empty() =~= s);
    }
}

/// Whether a word, read from the start outside or inside single quotes,
/// holds nothing a POSIX shell would split at or expand: outside quotes only
/// safe characters, quote marks and backslash escapes stand, and every quoted
/// run is closed.
pub open spec fn shell_inert(w: Seq<char>, quoted: bool) -> bool
    decreases w.len(),
{
    if w.len() == 0 {
        !quoted
    } else if quoted {
        if w[0] == '\'' {
            shell_inert(w.drop_first(), false)
        } else {
            shell_inert(w.drop_first(), true)
        }
    } else if w[0] == '\'' {
        shell_inert(w.drop_first(), true)
    } else if w[0] == '\\' && w.len() >= 2 {
        shell_inert(w.subrange(2, w.len() as int), false)
    } else {
        shell_safe_char(w[0], true) && shell_inert(w.drop_first(), false)
    }
}

proof fn lemma_inert_piece(c: char, rest: Seq<char>)
    ensures
        shell_inert(quoted_piece(c) + rest, true) == shell_inert(rest, true),
{
    let w = quoted_piece(c) + rest;
    if c == '\'' {
        let w1 = seq!['\\', '\'', '\''] + rest;
        let w2 = seq!['\''] + rest;
        assert(w[0] == '\'');
        assert(w.drop_first() =~= w1);
        assert(shell_inert(w, true) == shell_inert(w1, false));
        assert(w1[0] == '\\' && w1[1] == '\'');
        assert(w1.subrange(2, w1.len() as int) =~= w2);
        assert(shell_inert(w1, false) == shell_inert(w2, false));
        assert(w2[0] == '\'');
        assert(w2.drop_first() =~= rest);
        assert(shell_inert(w2, false) == shell_inert(rest, true));
    } else {
        assert(w[0] == c);
        assert(w.drop_first() =~= rest);
    }
}

proof fn lemma_inert_body(s: Seq<char>, rest: Seq<char>)
    ensures
        shell_inert(quote_body(s) + rest, true) == shell_inert(rest, true),
    decreases s.len(),
{
    if s.len() > 0 {
        let init = s.drop_last();
        let piece = quoted_piece(s.last());
        assert(quote_body(s) + rest =~= quote_body(init) + (piece + rest));
        lemma_inert_body(init, piece + rest);
        lemma_inert_piece(s.last(), rest);
    }
}

proof fn lemma_inert_safe(s: Seq<char>, allow_plus: bool)
    requires
        shell_safe_word(s, allow_plus),
    ensures
        shell_inert(s, false),
    decreases s.len(),
{
    if s.len() > 0 {
        assert(shell_safe_char(s[0], allow_plus));
        assert(shell_safe_word(s.drop_first(), allow_plus)) by {
            assert forall|i: int| 0 <= i < s.drop_first().len() implies shell_safe_char(
                #[trigger] s.drop_first()[i],
                allow_plus,
            ) by {
                assert(s.drop_first()[i] == s[i + 1]);
            }
        }
        lemma_inert_safe(s.drop_first(), allow_plus);
    }
}

/// A shell reads the escaping of any string, the empty one included, as
/// exactly one word, that string: the escaped word is not empty, holds nothing
/// the shell splits at or expands, and reads back as the string. The string
/// is left as it is exactly when it is not empty and every character of it is
/// safe.
pub proof fn shell_escape_one_word(s: Seq<char>, allow_plus: bool)
    ensures
        shell_escaped(s, allow_plus).len() > 0,
        shell_inert(shell_escaped(s, allow_plus), false),
        shell_read(shell_escaped(s, allow_plus), false) == s,
        (shell_escaped(s, allow_plus) == s) <==> (s.len() > 0 && shell_safe_word(s, allow_plus)),
{
    shell_escape_round_trip(s, allow_plus);
    if s.len() > 0 && shell_safe_word(s, allow_plus) {
        lemma_inert_safe(s, allow_plus);
    } else {
        let w = seq!['\''] + quote_body(s) + seq!['\''];
        assert(w[0] == '\'');
        assert(w.drop_first() =~= quote_body(s) + seq!['\'']);
        assert(shell_inert(w, false) == shell_inert(quote_body(s) + seq!['\''], true));
        lemma_inert_body(s, seq!['\'']);
        let q = seq!['\''];
        assert(q[0] == '\'');
        assert(q.drop_first() =~= Seq::<char>::empty());
        assert(shell_inert(q, true) == shell_inert(Seq::<char>::empty(), false));
        lemma_quote_body_len(s);
    }
}

proof fn lemma_quote_body_len(s: Seq<char>)
    ensures
        quote_body(s).len() >= s.len(),
    decreases s.len(),
{
    if s.len() > 0 {
        lemma_quote_body_len(s.drop_last());
    }
}

} // verus!
