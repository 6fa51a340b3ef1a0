//! Facts read from the answers of commands run on a host: what each answer
//! says of the operating system and the hardware.
use vstd::prelude::*;
use crate::assoc::{entries, insert_entry, insert_map_values, lookup, merged, merged_concat, merged_one};
use crate::inventory::host::opt_view;
use crate::numbers::parse_unsigned_spec;
use crate::text::{
    has_prefix, trim_ws, words, chars_of, copy_str, split_char, split_once_spec, str_equal, str_to_lowercase, string_of, text_lines,
    trim_end_char, trim_start_char, lowercase,
};

verus! {

broadcast use vstd::seq_lib::group_seq_properties;

/// The value of a fact.
#[derive(Debug, Clone, PartialEq)]
pub enum FactValue {
    /// Text.
    Str(String),
    /// A number.
    Uint(u64),
    /// A flag.
    Bool(bool),
}

/// A fact value as `(kind, text, number)`: kind 0 for text, 1 for a number, 2 for a flag.
pub type FactView = (int, Seq<char>, int);

/// The view of a fact value.
pub open spec fn fact_view(v: FactValue) -> FactView {
    match v {
        FactValue::Str(s) => (0, s@, 0),
        FactValue::Uint(n) => (1, Seq::empty(), n as int),
        FactValue::Bool(b) => (2, Seq::empty(), if b { 1 } else { 0 }),
    }
}

/// A text fact.
pub open spec fn text_fact(s: Seq<char>) -> FactView {
    (0, s, 0)
}

/// A number fact.
pub open spec fn number_fact(n: int) -> FactView {
    (1, Seq::empty(), n)
}

/// Facts with names and values taken by their views.
pub open spec fn facts_view(v: Seq<(String, FactValue)>) -> Seq<(Seq<char>, FactView)> {
    entries(v).map_values(|p: (Seq<char>, FactValue)| (p.0, fact_view(p.1)))
}

/// Sets a fact; one already set keeps its place and takes the new value.
fn put(facts: &mut Vec<(String, FactValue)>, name: &str, value: FactValue)
    ensures
        facts_view(final(facts)@) == insert_entry(facts_view(old(facts)@), name@, fact_view(value)),
{
    let ghost before = entries(facts@);
    let ghost v = value;
    crate::assoc::insert(facts, copy_str(name), value);
    proof {
        insert_map_values(before, |x: FactValue| fact_view(x), name@, v);
        assert(before.map_values(|p: (Seq<char>, FactValue)| (p.0, (|x: FactValue| fact_view(x))(p.1)))
            =~= facts_view(old(facts)@));
        assert(entries(facts@).map_values(|p: (Seq<char>, FactValue)| (p.0, (|x: FactValue| fact_view(x))(p.1)))
            =~= facts_view(facts@));
    }
}

/// A text fact, when the answer is there.
pub open spec fn text_item(name: Seq<char>, answer: Option<Seq<char>>) -> Seq<(Seq<char>, FactView)> {
    match answer {
        Some(a) => seq![(name, text_fact(a))],
        None => Seq::empty(),
    }
}

/// A number fact, when the answer is there and is a number up to `max`.
pub open spec fn number_item(name: Seq<char>, answer: Option<Seq<char>>, max: nat) -> Seq<(Seq<char>, FactView)> {
    match answer {
        Some(a) => match parse_unsigned_spec(a, max) {
            Some(n) => seq![(name, number_fact(n as int))],
            None => Seq::empty(),
        },
        None => Seq::empty(),
    }
}

/// The common name of a machine architecture.
pub open spec fn machine_name(arch: Seq<char>) -> Seq<char> {
    if arch == "x86_64"@ || arch == "amd64"@ {
        "x86_64"@
    } else if arch == "aarch64"@ || arch == "arm64"@ {
        "aarch64"@
    } else if arch == "armv7l"@ {
        "armv7l"@
    } else if arch == "i686"@ || arch == "i386"@ {
        "i386"@
    } else {
        arch
    }
}

/// The family of a distribution, given its lowercased identifier.
pub open spec fn os_family_of(distro: Seq<char>) -> Seq<char> {
    if distro == "ubuntu"@ || distro == "debian"@ || distro == "linuxmint"@ || distro == "pop"@ || distro
        == "elementary"@ {
        "debian"@
    } else if distro == "fedora"@ || distro == "centos"@ || distro == "rhel"@ || distro == "rocky"@ || distro
        == "alma"@ || distro == "oracle"@ {
        "redhat"@
    } else if distro == "arch"@ || distro == "manjaro"@ || distro == "endeavouros"@ {
        "arch"@
    } else if distro == "opensuse"@ || distro == "sles"@ {
        "suse"@
    } else if distro == "alpine"@ {
        "alpine"@
    } else if distro == "gentoo"@ {
        "gentoo"@
    } else {
        "unknown"@
    }
}

/// The fact an `os-release` key sets.
pub open spec fn release_fact_name(key: Seq<char>) -> Option<Seq<char>> {
    if key == "ID"@ {
        Some("distribution"@)
    } else if key == "VERSION_ID"@ {
        Some("distribution_version"@)
    } else if key == "ID_LIKE"@ {
        Some("os_family"@)
    } else if key == "PRETTY_NAME"@ {
        Some("distribution_pretty_name"@)
    } else if key == "VERSION_CODENAME"@ {
        Some("distribution_codename"@)
    } else {
        None
    }
}

/// A value without the double quotes around it.
pub open spec fn unquoted(v: Seq<char>) -> Seq<char> {
    trim_end_char(trim_start_char(v, '"'), '"')
}

/// The fact one line of `os-release` sets, if any.
pub open spec fn release_line_items(line: Seq<char>) -> Seq<(Seq<char>, FactView)> {
    match split_once_spec(line, '=') {
        Some(kv) => match release_fact_name(kv.0) {
            Some(name) => seq![(name, text_fact(unquoted(kv.1)))],
            None => Seq::empty(),
        },
        None => Seq::empty(),
    }
}

/// The facts the lines of `os-release` set, in order.
pub open spec fn release_items(lines: Seq<Seq<char>>) -> Seq<(Seq<char>, FactView)>
    decreases lines.len(),
{
    if lines.len() == 0 {
        Seq::empty()
    } else {
        release_items(lines.drop_last()) + release_line_items(lines.last())
    }
}

/// The host name facts: the name, and its first label.
pub open spec fn hostname_items(h: Option<Seq<char>>) -> Seq<(Seq<char>, FactView)> {
    match h {
        Some(h) => seq![("hostname"@, text_fact(h)), ("hostname_short"@, text_fact(split_char(h, '.')[0]))],
        None => Seq::empty(),
    }
}

/// The architecture facts: as reported, and by its common name.
pub open spec fn arch_items(a: Option<Seq<char>>) -> Seq<(Seq<char>, FactView)> {
    match a {
        Some(a) => seq![("architecture"@, text_fact(a)), ("machine"@, text_fact(machine_name(a)))],
        None => Seq::empty(),
    }
}

/// The family guessed from the distribution, when `os-release` named none.
pub open spec fn family_items(m: Seq<(Seq<char>, FactView)>) -> Seq<(Seq<char>, FactView)> {
    if lookup(m, "os_family"@) is None {
        match lookup(m, "distribution"@) {
            Some(d) => if d.0 == 0 {
                seq![("os_family"@, text_fact(os_family_of(lowercase(d.1))))]
            } else {
                Seq::empty()
            },
            None => Seq::empty(),
        }
    } else {
        Seq::empty()
    }
}

/// The table of families: ubuntu, debian, linuxmint, pop and elementary are
/// of the Debian family; fedora, centos, rhel, rocky, alma and oracle of the
/// Red Hat family; arch, manjaro and endeavouros of the Arch family; opensuse
/// and sles of the SUSE family; alpine and gentoo each of their own. Every
/// other identifier is of an unknown family.
pub proof fn law_os_family_table(d: Seq<char>)
    ensures
        (d == "ubuntu"@ || d == "debian"@ || d == "linuxmint"@ || d == "pop"@ || d == "elementary"@) ==> os_family_of(d) == "debian"@,
        (d == "fedora"@ || d == "centos"@ || d == "rhel"@ || d == "rocky"@ || d == "alma"@ || d == "oracle"@) ==> os_family_of(d) == "redhat"@,
        (d == "arch"@ || d == "manjaro"@ || d == "endeavouros"@) ==> os_family_of(d) == "arch"@,
        (d == "opensuse"@ || d == "sles"@) ==> os_family_of(d) == "suse"@,
        d == "alpine"@ ==> os_family_of(d) == "alpine"@,
        d == "gentoo"@ ==> os_family_of(d) == "gentoo"@,
        !(d == "ubuntu"@ || d == "debian"@ || d == "linuxmint"@ || d == "pop"@ || d == "elementary"@ || d == "fedora"@ || d == "centos"@ || d == "rhel"@ || d == "rocky"@ || d == "alma"@ || d == "oracle"@ || d == "arch"@ || d == "manjaro"@ || d == "endeavouros"@ || d == "opensuse"@ || d == "sles"@ || d == "alpine"@ || d == "gentoo"@) ==> os_family_of(d) == "unknown"@,
{
    reveal_strlit("ubuntu");
    assert("ubuntu"@[0] == 'u' && "ubuntu"@[1] == 'b');
    reveal_strlit("debian");
    assert("debian"@[0] == 'd' && "debian"@[1] == 'e');
    reveal_strlit("linuxmint");
    assert("linuxmint"@[0] == 'l' && "linuxmint"@[1] == 'i');
    reveal_strlit("pop");
    assert("pop"@[0] == 'p' && "pop"@[1] == 'o');
    reveal_strlit("elementary");
    assert("elementary"@[0] == 'e' && "elementary"@[1] == 'l');
    reveal_strlit("fedora");
    assert("fedora"@[0] == 'f' && "fedora"@[1] == 'e');
    reveal_strlit("centos");
    assert("centos"@[0] == 'c' && "centos"@[1] == 'e');
    reveal_strlit("rhel");
    assert("rhel"@[0] == 'r' && "rhel"@[1] == 'h');
    reveal_strlit("rocky");
    assert("rocky"@[0] == 'r' && "rocky"@[1] == 'o');
    reveal_strlit("alma");
    assert("alma"@[0] == 'a' && "alma"@[1] == 'l');
    reveal_strlit("oracle");
    assert("oracle"@[0] == 'o' && "oracle"@[1] == 'r');
    reveal_strlit("arch");
    assert("arch"@[0] == 'a' && "arch"@[1] == 'r');
    reveal_strlit("manjaro");
    assert("manjaro"@[0] == 'm' && "manjaro"@[1] == 'a');
    reveal_strlit("endeavouros");
    assert("endeavouros"@[0] == 'e' && "endeavouros"@[1] == 'n');
    reveal_strlit("opensuse");
    assert("opensuse"@[0] == 'o' && "opensuse"@[1] == 'p');
    reveal_strlit("sles");
    assert("sles"@[0] == 's' && "sles"@[1] == 'l');
    reveal_strlit("alpine");
    assert("alpine"@[0] == 'a' && "alpine"@[1] == 'l');
    reveal_strlit("gentoo");
    assert("gentoo"@[0] == 'g' && "gentoo"@[1] == 'e');
}

/// When `os-release` names no family (it has no `ID_LIKE`) but names the
/// distribution, the family fact is the one the table gives for the
/// distribution's identifier, read without regard to case.
pub proof fn law_family_guessed_from_distribution(m: Seq<(Seq<char>, FactView)>, d: Seq<char>)
    requires
        lookup(m, "os_family"@) is None,
        lookup(m, "distribution"@) == Some(text_fact(d)),
    ensures
        family_items(m) == seq![("os_family"@, text_fact(os_family_of(lowercase(d))))],
{
}

/// The answers the operating system facts are read from: the trimmed outputs
/// of `hostname -f`, `uname -s`, `uname -r`, `uname -m`, the content of
/// `/etc/os-release`, and the outputs of `whoami`, `id -u` and `id -g`;
/// `None` where a command failed.
#[derive(Debug, Clone)]
pub struct OsAnswers {
    /// `hostname -f`.
    pub hostname: Option<String>,
    /// `uname -s`.
    pub system: Option<String>,
    /// `uname -r`.
    pub kernel: Option<String>,
    /// `uname -m`.
    pub architecture: Option<String>,
    /// `/etc/os-release`.
    pub os_release: Option<String>,
    /// `whoami`.
    pub user: Option<String>,
    /// `id -u`.
    pub uid: Option<String>,
    /// `id -g`.
    pub gid: Option<String>,
}

/// The facts before the family is guessed.
pub open spec fn os_base_items(a: OsAnswers) -> Seq<(Seq<char>, FactView)> {
    hostname_items(opt_view(a.hostname)) + text_item("system"@, opt_view(a.system)) + text_item(
        "kernel"@,
        opt_view(a.kernel),
    ) + arch_items(opt_view(a.architecture)) + match opt_view(a.os_release) {
        Some(c) => release_items(text_lines(c)),
        None => Seq::empty(),
    }
}

/// The user facts.
pub open spec fn user_items(a: OsAnswers) -> Seq<(Seq<char>, FactView)> {
    text_item("user_id"@, opt_view(a.user)) + number_item("user_uid"@, opt_view(a.uid), u32::MAX as nat)
        + number_item("user_gid"@, opt_view(a.gid), u32::MAX as nat)
}

/// The operating system facts the answers give.
pub open spec fn os_facts_spec(a: OsAnswers) -> Seq<(Seq<char>, FactView)> {
    let m1 = merged(Seq::empty(), os_base_items(a));
    let m2 = merged(m1, family_items(m1));
    merged(m2, user_items(a))
}

/// The common name of a machine architecture.
fn machine_of(arch: &str) -> (r: String)
    ensures
        r@ == machine_name(arch@),
{
    if str_equal(arch, "x86_64") || str_equal(arch, "amd64") {
        copy_str("x86_64")
    } else if str_equal(arch, "aarch64") || str_equal(arch, "arm64") {
        copy_str("aarch64")
    } else if str_equal(arch, "armv7l") {
        copy_str("armv7l")
    } else if str_equal(arch, "i686") || str_equal(arch, "i386") {
        copy_str("i386")
    } else {
        copy_str(arch)
    }
}

/// The family of a distribution, given its lowercased identifier.
fn family_of(d: &str) -> (r: String)
    ensures
        r@ == os_family_of(d@),
{
    if str_equal(d, "ubuntu") || str_equal(d, "debian") || str_equal(d, "linuxmint") || str_equal(d, "pop")
        || str_equal(d, "elementary") {
        copy_str("debian")
    } else if str_equal(d, "fedora") || str_equal(d, "centos") || str_equal(d, "rhel") || str_equal(d, "rocky")
        || str_equal(d, "alma") || str_equal(d, "oracle") {
        copy_str("redhat")
    } else if str_equal(d, "arch") || str_equal(d, "manjaro") || str_equal(d, "endeavouros") {
        copy_str("arch")
    } else if str_equal(d, "opensuse") || str_equal(d, "sles") {
        copy_str("suse")
    } else if str_equal(d, "alpine") {
        copy_str("alpine")
    } else if str_equal(d, "gentoo") {
        copy_str("gentoo")
    } else {
        copy_str("unknown")
    }
}

/// The fact an `os-release` key sets.
fn release_name(k: &[char]) -> (r: Option<&'static str>)
    ensures
        match release_fact_name(k@) {
            Some(n) => r is Some && r.unwrap()@ == n,
            None => r is None,
        },
{
    if crate::text::chars_equal(k, "ID") {
        Some("distribution")
    } else if crate::text::chars_equal(k, "VERSION_ID") {
        Some("distribution_version")
    } else if crate::text::chars_equal(k, "ID_LIKE") {
        Some("os_family")
    } else if crate::text::chars_equal(k, "PRETTY_NAME") {
        Some("distribution_pretty_name")
    } else if crate::text::chars_equal(k, "VERSION_CODENAME") {
        Some("distribution_codename")
    } else {
        None
    }
}

/// Sets a text fact when the answer is there.
fn put_text(facts: &mut Vec<(String, FactValue)>, name: &str, answer: &Option<String>)
    ensures
        facts_view(final(facts)@) == merged(facts_view(old(facts)@), text_item(name@, opt_view(*answer))),
{
    match answer {
        Some(a) => {
            put(facts, name, FactValue::Str(a.clone()));
            proof {
                merged_one(facts_view(old(facts)@), name@, text_fact(a@));
            }
        },
        None => {},
    }
}

/// Sets a number fact when the answer is a number up to `u32::MAX`.
fn put_u32(facts: &mut Vec<(String, FactValue)>, name: &str, answer: &Option<String>)
    ensures
        facts_view(final(facts)@) == merged(facts_view(old(facts)@), number_item(name@, opt_view(*answer), u32::MAX as nat)),
{
    match answer {
        Some(a) => {
            let cs = chars_of(a.as_str());
            match crate::numbers::parse_unsigned(&cs, u32::MAX as u64) {
                Some(n) => {
                    put(facts, name, FactValue::Uint(n));
                    proof {
                        merged_one(facts_view(old(facts)@), name@, number_fact(n as int));
                    }
                },
                None => {},
            }
        },
        None => {},
    }
}

/// Sets the facts of the lines of `os-release`.
fn put_release(facts: &mut Vec<(String, FactValue)>, content: &str)
    ensures
        facts_view(final(facts)@) == merged(facts_view(old(facts)@), release_items(text_lines(content@))),
{
    let cs = chars_of(content);
    let lines = crate::text::lines_of(&cs);
    let ghost ls = lines@.map_values(|l: Vec<char>| l@);
    let ghost start = facts_view(facts@);
    let mut i: usize = 0;
    proof {
        assert(ls.take(0) =~= Seq::<Seq<char>>::empty());
    }
    while i < lines.len()
        invariant
            i <= lines@.len(),
            ls == lines@.map_values(|l: Vec<char>| l@),
            ls == text_lines(content@),
            facts_view(facts@) == merged(start, release_items(ls.take(i as int))),
        decreases lines@.len() - i,
    {
        proof {
            assert(ls.take(i + 1).drop_last() =~= ls.take(i as int));
            assert(ls.take(i + 1).last() == lines@[i as int]@);
            merged_concat(start, release_items(ls.take(i as int)), release_line_items(lines@[i as int]@));
        }
        match crate::text::split_once(&lines[i], '=') {
            Some((k, v)) => match release_name(&k) {
                Some(name) => {
                    let a = crate::text::trim_start_matches(&v, '"');
                    let b = crate::text::trim_end_matches(&a, '"');
                    let ghost before = facts_view(facts@);
                    put(facts, name, FactValue::Str(string_of(&b)));
                    proof {
                        merged_one(before, name@, text_fact(b@));
                    }
                },
                None => {
                    proof {
                        assert(release_line_items(lines@[i as int]@) =~= Seq::<(Seq<char>, FactView)>::empty());
                    }
                },
            },
            None => {},
        }
        i = i + 1;
    }
    proof {
        assert(ls.take(lines@.len() as int) =~= ls);
    }
}

/// Reads the operating system facts from the answers of their commands.
pub fn os_facts(a: &OsAnswers) -> (r: Vec<(String, FactValue)>)
    ensures
        facts_view(r@) == os_facts_spec(*a),
{
    let mut facts: Vec<(String, FactValue)> = Vec::new();
    let ghost empty = facts_view(facts@);
    proof {
        assert(empty =~= Seq::<(Seq<char>, FactView)>::empty());
    }
    match &a.hostname {
        Some(h) => {
            put(&mut facts, "hostname", FactValue::Str(h.clone()));
            let hc = chars_of(h.as_str());
            let short = match crate::text::find_char(&hc, '.') {
                Some(i) => crate::text::sub_chars(&hc, 0, i),
                None => hc.clone(),
            };
            proof {
                lemma_first_piece(h@, '.');
            }
            put(&mut facts, "hostname_short", FactValue::Str(string_of(&short)));
            proof {
                let items = hostname_items(opt_view(a.hostname));
                assert(items.drop_last() =~= seq![("hostname"@, text_fact(h@))]);
                merged_one(empty, "hostname"@, text_fact(h@));
            }
        },
        None => {},
    }
    let ghost m_host = facts_view(facts@);
    put_text(&mut facts, "system", &a.system);
    put_text(&mut facts, "kernel", &a.kernel);
    let ghost m_kernel = facts_view(facts@);
    match &a.architecture {
        Some(arch) => {
            put(&mut facts, "architecture", FactValue::Str(arch.clone()));
            let ghost m_a = facts_view(facts@);
            put(&mut facts, "machine", FactValue::Str(machine_of(arch.as_str())));
            proof {
                let items = arch_items(opt_view(a.architecture));
                assert(items.drop_last() =~= seq![("architecture"@, text_fact(arch@))]);
                merged_one(m_kernel, "architecture"@, text_fact(arch@));
            }
        },
        None => {},
    }
    let ghost m_arch = facts_view(facts@);
    match &a.os_release {
        Some(c) => put_release(&mut facts, c.as_str()),
        None => {},
    }
    proof {
        let h = hostname_items(opt_view(a.hostname));
        let s = text_item("system"@, opt_view(a.system));
        let k = text_item("kernel"@, opt_view(a.kernel));
        let ar = arch_items(opt_view(a.architecture));
        let rel = match opt_view(a.os_release) {
            Some(c) => release_items(text_lines(c)),
            None => Seq::empty(),
        };
        merged_concat(empty, h, s);
        merged_concat(empty, h + s, k);
        merged_concat(empty, h + s + k, ar);
        merged_concat(empty, h + s + k + ar, rel);
        assert(merged(m_arch, rel) == facts_view(facts@));
    }
    let ghost m1 = facts_view(facts@);
    proof {
        lemma_lookup_facts(facts@, "os_family"@);
        lemma_lookup_facts(facts@, "distribution"@);
    }
    let has_family = crate::assoc::find_key(&facts, "os_family").is_some();
    if !has_family {
        match crate::assoc::find_key(&facts, "distribution") {
            Some(i) => {
                let family = match &facts[i].1 {
                    FactValue::Str(d) => {
                        let lower = str_to_lowercase(d.as_str());
                        Some(family_of(lower.as_str()))
                    },
                    _ => None,
                };
                match family {
                    Some(f) => {
                        let ghost fv = f@;
                        put(&mut facts, "os_family", FactValue::Str(f));
                        proof {
                            merged_one(m1, "os_family"@, text_fact(fv));
                        }
                    },
                    None => {
                        proof {
                            assert(family_items(m1) =~= Seq::<(Seq<char>, FactView)>::empty());
                        }
                    },
                }
            },
            None => {},
        }
    }
    let ghost m2 = facts_view(facts@);
    proof {
        assert(m2 == merged(m1, family_items(m1)));
    }
    put_text(&mut facts, "user_id", &a.user);
    let ghost mu = facts_view(facts@);
    put_u32(&mut facts, "user_uid", &a.uid);
    let ghost mi = facts_view(facts@);
    put_u32(&mut facts, "user_gid", &a.gid);
    proof {
        let u = text_item("user_id"@, opt_view(a.user));
        let ui = number_item("user_uid"@, opt_view(a.uid), u32::MAX as nat);
        let gi = number_item("user_gid"@, opt_view(a.gid), u32::MAX as nat);
        merged_concat(m2, u, ui);
        merged_concat(m2, u + ui, gi);
    }
    facts
}

/// Where `first_index_of` points there is the character, and nowhere before.
proof fn lemma_first_index_found(s: Seq<char>, c: char)
    ensures
        match crate::text::first_index_of(s, c) {
            Some(i) => 0 <= i < s.len() && s[i] == c,
            None => forall|k: int| 0 <= k < s.len() ==> s[k] != c,
        },
    decreases s.len(),
{
    if s.len() > 0 {
        lemma_first_index_found(s.drop_last(), c);
        assert forall|k: int| 0 <= k < s.len() - 1 implies s[k] == s.drop_last()[k] by {}
    }
}

/// A text cuts into one piece exactly when it does not hold the character.
proof fn lemma_split_single(s: Seq<char>, c: char)
    ensures
        (split_char(s, c).len() == 1) == (crate::text::first_index_of(s, c) is None),
        split_char(s, c).len() >= 1,
    decreases s.len(),
{
    if s.len() > 0 {
        lemma_split_single(s.drop_last(), c);
    }
}

/// The first piece of a text cut at `c` is the text before its first `c`, or all of it.
proof fn lemma_first_piece(s: Seq<char>, c: char)
    ensures
        split_char(s, c)[0] == match crate::text::first_index_of(s, c) {
            Some(i) => s.take(i),
            None => s,
        },
    decreases s.len(),
{
    if s.len() > 0 {
        let p = s.drop_last();
        lemma_first_piece(p, c);
        lemma_split_single(p, c);
        lemma_first_index_found(p, c);
        assert(s =~= p.push(s.last()));
        match crate::text::first_index_of(p, c) {
            Some(i) => {
                assert(s.take(i) =~= p.take(i));
            },
            None => {
                if s.last() == c {
                    assert(s.take(p.len() as int) =~= p);
                }
            },
        }
    } else {
        assert(split_char(s, c) =~= seq![Seq::<char>::empty()]);
    }
}

/// Looking a fact up through views finds what the facts hold.
proof fn lemma_lookup_facts(v: Seq<(String, FactValue)>, k: Seq<char>)
    ensures
        crate::assoc::key_index(facts_view(v), k) == crate::assoc::key_index(entries(v), k),
        match crate::assoc::key_index(entries(v), k) {
            Some(i) => 0 <= i < v.len() && lookup(facts_view(v), k) == Some(fact_view(v[i].1)),
            None => lookup(facts_view(v), k) is None,
        },
{
    let f = |x: FactValue| fact_view(x);
    crate::assoc::lemma_key_index_map_values(entries(v), f, k);
    crate::assoc::lemma_key_index_found(entries(v), k);
    assert(entries(v).map_values(|p: (Seq<char>, FactValue)| (p.0, f(p.1))) =~= facts_view(v));
}

/// The answers the hardware facts are read from: the content of
/// `/proc/cpuinfo`, of `/proc/meminfo`, and the output of `df -B1 /`.
#[derive(Debug, Clone)]
pub struct HardwareAnswers {
    /// `/proc/cpuinfo`.
    pub cpuinfo: Option<String>,
    /// `/proc/meminfo`.
    pub meminfo: Option<String>,
    /// `df -B1 /`.
    pub df: Option<String>,
}

/// The number of cores a `cpu cores` value gives: an `i32`, or 0.
pub open spec fn cores_value(t: Seq<char>) -> int {
    match crate::numbers::signed_literal(t) {
        Some(v) => if i32::MIN <= v <= i32::MAX { v } else { 0 },
        None => 0,
    }
}

/// What the lines of `/proc/cpuinfo` say: the number of processors, the
/// last model name, and the last number of cores.
pub open spec fn cpu_scan(lines: Seq<Seq<char>>) -> (nat, Seq<char>, int)
    decreases lines.len(),
{
    if lines.len() == 0 {
        (0, Seq::empty(), 0)
    } else {
        let st = cpu_scan(lines.drop_last());
        let l = lines.last();
        if has_prefix(l, "processor"@) {
            ((st.0 + 1) as nat, st.1, st.2)
        } else if has_prefix(l, "model name"@) {
            match split_once_spec(l, ':') {
                Some(kv) => (st.0, trim_ws(kv.1), st.2),
                None => st,
            }
        } else if has_prefix(l, "cpu cores"@) {
            match split_once_spec(l, ':') {
                Some(kv) => (st.0, st.1, cores_value(trim_ws(kv.1))),
                None => st,
            }
        } else {
            st
        }
    }
}

/// The processor facts.
pub open spec fn cpu_items(c: Option<Seq<char>>) -> Seq<(Seq<char>, FactView)> {
    match c {
        Some(c) => {
            let st = cpu_scan(text_lines(c));
            seq![("processor_count"@, number_fact(st.0 as int))] + (if st.1.len() > 0 {
                seq![("processor"@, text_fact(st.1))]
            } else {
                Seq::empty()
            }) + (if st.2 > 0 {
                seq![("processor_cores"@, number_fact(st.2))]
            } else {
                Seq::empty()
            })
        },
        None => Seq::empty(),
    }
}

/// A memory fact in MiB, from a line whose second word is a number of KiB.
pub open spec fn kib_item(name: Seq<char>, line: Seq<char>) -> Seq<(Seq<char>, FactView)> {
    let ws = words(line);
    if ws.len() > 1 {
        match parse_unsigned_spec(ws[1], u64::MAX as nat) {
            Some(kb) => seq![(name, number_fact((kb / 1024) as int))],
            None => Seq::empty(),
        }
    } else {
        Seq::empty()
    }
}

/// The fact one line of `/proc/meminfo` sets, if any.
pub open spec fn mem_line_items(l: Seq<char>) -> Seq<(Seq<char>, FactView)> {
    if has_prefix(l, "MemTotal:"@) {
        kib_item("memtotal_mb"@, l)
    } else if has_prefix(l, "MemFree:"@) {
        kib_item("memfree_mb"@, l)
    } else if has_prefix(l, "SwapTotal:"@) {
        kib_item("swaptotal_mb"@, l)
    } else {
        Seq::empty()
    }
}

/// The facts the lines of `/proc/meminfo` set, in order.
pub open spec fn mem_items(lines: Seq<Seq<char>>) -> Seq<(Seq<char>, FactView)>
    decreases lines.len(),
{
    if lines.len() == 0 {
        Seq::empty()
    } else {
        mem_items(lines.drop_last()) + mem_line_items(lines.last())
    }
}

/// The disk facts of the root file system: from the second line of `df`, when
/// it has at least four words, the sizes in its second to fourth words.
pub open spec fn df_items(out: Seq<char>) -> Seq<(Seq<char>, FactView)> {
    let ls = text_lines(out);
    if ls.len() > 1 && words(ls[1]).len() >= 4 {
        let ps = words(ls[1]);
        number_item("disk_total_bytes"@, Some(ps[1]), u64::MAX as nat) + number_item(
            "disk_used_bytes"@,
            Some(ps[2]),
            u64::MAX as nat,
        ) + number_item("disk_available_bytes"@, Some(ps[3]), u64::MAX as nat)
    } else {
        Seq::empty()
    }
}

/// The hardware facts the answers give.
pub open spec fn hardware_facts_spec(a: HardwareAnswers) -> Seq<(Seq<char>, FactView)> {
    merged(
        Seq::empty(),
        cpu_items(opt_view(a.cpuinfo)) + match opt_view(a.meminfo) {
            Some(m) => mem_items(text_lines(m)),
            None => Seq::empty(),
        } + match opt_view(a.df) {
            Some(d) => df_items(d),
            None => Seq::empty(),
        },
    )
}

/// Sets a number fact when the text is a number.
fn put_u64_text(facts: &mut Vec<(String, FactValue)>, name: &str, text: &Vec<char>)
    ensures
        facts_view(final(facts)@) == merged(facts_view(old(facts)@), number_item(name@, Some(text@), u64::MAX as nat)),
{
    match crate::numbers::parse_unsigned(text, u64::MAX) {
        Some(n) => {
            put(facts, name, FactValue::Uint(n));
            proof {
                merged_one(facts_view(old(facts)@), name@, number_fact(n as int));
            }
        },
        None => {},
    }
}

/// Sets the processor facts.
fn put_cpu(facts: &mut Vec<(String, FactValue)>, content: &str)
    ensures
        facts_view(final(facts)@) == merged(facts_view(old(facts)@), cpu_items(Some(content@))),
{
    let cs = chars_of(content);
    let lines = crate::text::lines_of(&cs);
    let ghost ls = lines@.map_values(|l: Vec<char>| l@);
    let mut count: u64 = 0;
    let mut model: Vec<char> = Vec::new();
    let mut cores: i64 = 0;
    let mut i: usize = 0;
    proof {
        assert(ls.take(0) =~= Seq::<Seq<char>>::empty());
    }
    while i < lines.len()
        invariant
            i <= lines@.len(),
            ls == lines@.map_values(|l: Vec<char>| l@),
            ls == text_lines(content@),
            count as nat == cpu_scan(ls.take(i as int)).0,
            count <= i,
            model@ == cpu_scan(ls.take(i as int)).1,
            cores as int == cpu_scan(ls.take(i as int)).2,
        decreases lines@.len() - i,
    {
        proof {
            assert(ls.take(i + 1).drop_last() =~= ls.take(i as int));
            assert(ls.take(i + 1).last() == lines@[i as int]@);
        }
        let l = &lines[i];
        if crate::text::starts_with(l, "processor") {
            count = count + 1;
        } else if crate::text::starts_with(l, "model name") {
            match crate::text::split_once(l, ':') {
                Some((_, v)) => {
                    model = crate::text::trim(&v);
                },
                None => {},
            }
        } else if crate::text::starts_with(l, "cpu cores") {
            match crate::text::split_once(l, ':') {
                Some((_, v)) => {
                    let t = crate::text::trim(&v);
                    cores = match crate::numbers::parse_i64(&t) {
                        Some(n) => if -2147483648 <= n && n <= 2147483647 { n } else { 0 },
                        None => 0,
                    };
                },
                None => {},
            }
        }
        i = i + 1;
    }
    proof {
        assert(ls.take(lines@.len() as int) =~= ls);
    }
    let ghost start = facts_view(facts@);
    put(facts, "processor_count", FactValue::Uint(count));
    proof {
        merged_one(start, "processor_count"@, number_fact(count as int));
    }
    let ghost a1 = seq![("processor_count"@, number_fact(count as int))];
    let ghost m1 = facts_view(facts@);
    let ghost b = if model@.len() > 0 {
        seq![("processor"@, text_fact(model@))]
    } else {
        Seq::<(Seq<char>, FactView)>::empty()
    };
    if model.len() > 0 {
        put(facts, "processor", FactValue::Str(string_of(&model)));
        proof {
            merged_one(m1, "processor"@, text_fact(model@));
        }
    }
    let ghost m2 = facts_view(facts@);
    let ghost c = if cores > 0 {
        seq![("processor_cores"@, number_fact(cores as int))]
    } else {
        Seq::<(Seq<char>, FactView)>::empty()
    };
    if cores > 0 {
        put(facts, "processor_cores", FactValue::Uint(cores as u64));
        proof {
            merged_one(m2, "processor_cores"@, number_fact(cores as int));
        }
    }
    proof {
        merged_concat(start, a1, b);
        merged_concat(start, a1 + b, c);
    }
}

/// Sets the memory facts.
fn put_mem(facts: &mut Vec<(String, FactValue)>, content: &str)
    ensures
        facts_view(final(facts)@) == merged(facts_view(old(facts)@), mem_items(text_lines(content@))),
{
    let cs = chars_of(content);
    let lines = crate::text::lines_of(&cs);
    let ghost ls = lines@.map_values(|l: Vec<char>| l@);
    let ghost start = facts_view(facts@);
    let mut i: usize = 0;
    proof {
        assert(ls.take(0) =~= Seq::<Seq<char>>::empty());
    }
    while i < lines.len()
        invariant
            i <= lines@.len(),
            ls == lines@.map_values(|l: Vec<char>| l@),
            ls == text_lines(content@),
            facts_view(facts@) == merged(start, mem_items(ls.take(i as int))),
        decreases lines@.len() - i,
    {
        proof {
            assert(ls.take(i + 1).drop_last() =~= ls.take(i as int));
            assert(ls.take(i + 1).last() == lines@[i as int]@);
            merged_concat(start, mem_items(ls.take(i as int)), mem_line_items(lines@[i as int]@));
        }
        let l = &lines[i];
        let name: Option<&str> = if crate::text::starts_with(l, "MemTotal:") {
            Some("memtotal_mb")
        } else if crate::text::starts_with(l, "MemFree:") {
            Some("memfree_mb")
        } else if crate::text::starts_with(l, "SwapTotal:") {
            Some("swaptotal_mb")
        } else {
            None
        };
        match name {
            Some(n) => {
                let ws = crate::text::split_words(l);
                proof {
                    if ws@.len() > 1 {
                        assert(ws@.map_values(|w: Vec<char>| w@)[1] == ws@[1]@);
                    }
                }
                if ws.len() > 1 {
                    match crate::numbers::parse_unsigned(&ws[1], u64::MAX) {
                        Some(kb) => {
                            let ghost before = facts_view(facts@);
                            put(facts, n, FactValue::Uint(kb / 1024));
                            proof {
                                merged_one(before, n@, number_fact((kb / 1024) as int));
                            }
                        },
                        None => {},
                    }
                }
            },
            None => {},
        }
        i = i + 1;
    }
    proof {
        assert(ls.take(lines@.len() as int) =~= ls);
    }
}

/// Sets the disk facts.
fn put_df(facts: &mut Vec<(String, FactValue)>, out: &str)
    ensures
        facts_view(final(facts)@) == merged(facts_view(old(facts)@), df_items(out@)),
{
    let cs = chars_of(out);
    let lines = crate::text::lines_of(&cs);
    let ghost ls = lines@.map_values(|l: Vec<char>| l@);
    let ghost start = facts_view(facts@);
    if lines.len() > 1 {
        let ws = crate::text::split_words(&lines[1]);
        let ghost wv = ws@.map_values(|w: Vec<char>| w@);
        proof {
            assert(ls[1] == lines@[1]@);
        }
        if ws.len() >= 4 {
            proof {
                assert(wv[1] == ws@[1]@);
                assert(wv[2] == ws@[2]@);
                assert(wv[3] == ws@[3]@);
            }
            put_u64_text(facts, "disk_total_bytes", &ws[1]);
            let ghost m1 = facts_view(facts@);
            put_u64_text(facts, "disk_used_bytes", &ws[2]);
            put_u64_text(facts, "disk_available_bytes", &ws[3]);
            proof {
                let a = number_item("disk_total_bytes"@, Some(wv[1]), u64::MAX as nat);
                let b = number_item("disk_used_bytes"@, Some(wv[2]), u64::MAX as nat);
                let c = number_item("disk_available_bytes"@, Some(wv[3]), u64::MAX as nat);
                merged_concat(start, a, b);
                merged_concat(start, a + b, c);
            }
        }
    }
}

/// Reads the hardware facts from the answers of their commands.
pub fn hardware_facts(a: &HardwareAnswers) -> (r: Vec<(String, FactValue)>)
    ensures
        facts_view(r@) == hardware_facts_spec(*a),
{
    let mut facts: Vec<(String, FactValue)> = Vec::new();
    let ghost empty = facts_view(facts@);
    proof {
        assert(empty =~= Seq::<(Seq<char>, FactView)>::empty());
    }
    match &a.cpuinfo {
        Some(c) => put_cpu(&mut facts, c.as_str()),
        None => {},
    }
    let ghost m1 = facts_view(facts@);
    match &a.meminfo {
        Some(m) => put_mem(&mut facts, m.as_str()),
        None => {},
    }
    match &a.df {
        Some(d) => put_df(&mut facts, d.as_str()),
        None => {},
    }
    proof {
        let x = cpu_items(opt_view(a.cpuinfo));
        let y = match opt_view(a.meminfo) {
            Some(m) => mem_items(text_lines(m)),
            None => Seq::empty(),
        };
        let z = match opt_view(a.df) {
            Some(d) => df_items(d),
            None => Seq::empty(),
        };
        merged_concat(empty, x, y);
        merged_concat(empty, x + y, z);
    }
    facts
}

/// The network interfaces a listing of `/sys/class/net` names: its lines,
/// trimmed, without empty ones and the loopback `lo`.
pub open spec fn interface_names_spec(lines: Seq<Seq<char>>) -> Seq<Seq<char>>
    decreases lines.len(),
{
    if lines.len() == 0 {
        Seq::empty()
    } else {
        let n = trim_ws(lines.last());
        interface_names_spec(lines.drop_last()) + if n.len() > 0 && n != "lo"@ {
            seq![n]
        } else {
            Seq::empty()
        }
    }
}

/// The interfaces a listing of `/sys/class/net` names.
pub fn interface_names(listing: &str) -> (r: Vec<String>)
    ensures
        crate::text::views(r@) == interface_names_spec(text_lines(listing@)),
{
    let cs = chars_of(listing);
    let lines = crate::text::lines_of(&cs);
    let ghost ls = lines@.map_values(|l: Vec<char>| l@);
    let mut out: Vec<String> = Vec::new();
    let mut i: usize = 0;
    proof {
        assert(ls.take(0) =~= Seq::<Seq<char>>::empty());
    }
    while i < lines.len()
        invariant
            i <= lines@.len(),
            ls == lines@.map_values(|l: Vec<char>| l@),
            ls == text_lines(listing@),
            crate::text::views(out@) == interface_names_spec(ls.take(i as int)),
        decreases lines@.len() - i,
    {
        proof {
            assert(ls.take(i + 1).drop_last() =~= ls.take(i as int));
            assert(ls.take(i + 1).last() == lines@[i as int]@);
        }
        let n = crate::text::trim(&lines[i]);
        let ghost before = crate::text::views(out@);
        if n.len() > 0 && !crate::text::chars_equal(&n, "lo") {
            out.push(string_of(&n));
            proof {
                assert(crate::text::views(out@) =~= before + seq![n@]);
            }
        } else {
            proof {
                assert(before + Seq::<Seq<char>>::empty() =~= before);
            }
        }
        i = i + 1;
    }
    proof {
        assert(ls.take(lines@.len() as int) =~= ls);
    }
    out
}

/// What is known of one network interface.
#[derive(Debug, Clone, PartialEq)]
pub struct InterfaceFacts {
    /// Interface name.
    pub device: String,
    /// Hardware address, unless it is all zeros.
    pub macaddress: Option<String>,
    /// Maximum transmission unit.
    pub mtu: Option<u32>,
    /// Whether the interface is up.
    pub active: Option<bool>,
}

/// The facts of an interface from the contents of its `address`, `mtu` and
/// `operstate` files: the trimmed address unless it is all zeros, the trimmed
/// MTU when it is a number, and whether the trimmed state is `up`.
pub fn interface_facts(
    name: &str,
    address: &Option<String>,
    mtu: &Option<String>,
    state: &Option<String>,
) -> (r: InterfaceFacts)
    ensures
        r.device@ == name@,
        opt_view(r.macaddress) == match opt_view(*address) {
            Some(a) => if trim_ws(a) != "00:00:00:00:00:00"@ { Some(trim_ws(a)) } else { None },
            None => None,
        },
        r.mtu == match opt_view(*mtu) {
            Some(m) => match parse_unsigned_spec(trim_ws(m), u32::MAX as nat) {
                Some(v) => Some(v as u32),
                None => None::<u32>,
            },
            None => None::<u32>,
        },
        r.active == match opt_view(*state) {
            Some(st) => Some(trim_ws(st) == "up"@),
            None => None::<bool>,
        },
{
    let macaddress = match address {
        Some(a) => {
            let t = crate::text::trim(&chars_of(a.as_str()));
            if crate::text::chars_equal(&t, "00:00:00:00:00:00") {
                None
            } else {
                Some(string_of(&t))
            }
        },
        None => None,
    };
    let mtu_value = match mtu {
        Some(m) => {
            let t = crate::text::trim(&chars_of(m.as_str()));
            match crate::numbers::parse_unsigned(&t, u32::MAX as u64) {
                Some(v) => Some(v as u32),
                None => None,
            }
        },
        None => None,
    };
    let active = match state {
        Some(st) => {
            let t = crate::text::trim(&chars_of(st.as_str()));
            Some(crate::text::chars_equal(&t, "up"))
        },
        None => None,
    };
    InterfaceFacts { device: copy_str(name), macaddress, mtu: mtu_value, active }
}

/// Where `pat` first occurs in `s`, if anywhere.
pub open spec fn find_text(s: Seq<char>, pat: Seq<char>) -> Option<int>
    decreases s.len(),
{
    if pat.len() == 0 {
        Some(0)
    } else if s.len() < pat.len() {
        None
    } else if s.take(pat.len() as int) == pat {
        Some(0)
    } else {
        match find_text(s.drop_first(), pat) {
            Some(i) => Some(i + 1),
            None => None,
        }
    }
}

/// The text between the first and the second `src ` of a route, or after the
/// first when there is no second.
pub open spec fn after_src(s: Seq<char>) -> Option<Seq<char>> {
    match find_text(s, "src "@) {
        Some(i) => {
            let rest = s.skip(i + 4);
            match find_text(rest, "src "@) {
                Some(j) => Some(rest.take(j)),
                None => Some(rest),
            }
        },
        None => None,
    }
}

/// The source address `ip route get` reports: the first word after `src `.
pub open spec fn default_ipv4_spec(route: Seq<char>) -> Option<Seq<char>> {
    match after_src(route) {
        Some(piece) => if words(piece).len() > 0 { Some(words(piece)[0]) } else { None },
        None => None,
    }
}

/// Finds where `pat` first occurs in `s[from..]`, counting from `from`.
fn find_text_from(s: &[char], pat: &[char], from: usize) -> (r: Option<usize>)
    requires
        from <= s@.len(),
        pat@.len() > 0,
    ensures
        match find_text(s@.skip(from as int), pat@) {
            Some(i) => r is Some && r.unwrap() as int == from + i,
            None => r is None,
        },
        r is Some ==> r.unwrap() + pat@.len() <= s@.len(),
    decreases s@.len() - from,
{
    let n = s.len();
    let m = pat.len();
    if n - from < m {
        return None;
    }
    let mut k: usize = 0;
    let mut same = true;
    while k < m
        invariant
            k <= m == pat@.len(),
            from + m <= n == s@.len(),
            same == (forall|j: int| 0 <= j < k ==> s@[from + j] == pat@[j]),
        decreases m - k,
    {
        if s[from + k] != pat[k] {
            same = false;
        }
        k = k + 1;
    }
    proof {
        let t = s@.skip(from as int);
        if same {
            assert(t.take(m as int) =~= pat@);
        } else {
            let j = choose|j: int| 0 <= j < m && s@[from + j] != pat@[j];
            assert(t.take(m as int)[j] != pat@[j]);
        }
        assert(t.drop_first() =~= s@.skip(from + 1));
    }
    if same {
        Some(from)
    } else {
        match find_text_from(s, pat, from + 1) {
            Some(i) => Some(i),
            None => None,
        }
    }
}

/// The source address `ip route get` reports.
pub fn default_ipv4(route: &str) -> (r: Option<String>)
    ensures
        opt_view(r) == default_ipv4_spec(route@),
{
    let s = chars_of(route);
    let pat = chars_of("src ");
    proof {
        reveal_strlit("src ");
        assert(s@.skip(0) =~= s@);
    }
    match find_text_from(&s, &pat, 0) {
        None => None,
        Some(i) => {
            let n = s.len();
            let start = i + 4;
            let rest = crate::text::sub_chars(&s, start, n);
            proof {
                assert(rest@ =~= s@.skip(i + 4));
                assert(rest@.skip(0) =~= rest@);
            }
            let piece = match find_text_from(&rest, &pat, 0) {
                Some(j) => crate::text::sub_chars(&rest, 0, j),
                None => rest.clone(),
            };
            proof {
                match find_text(rest@, "src "@) {
                    Some(j) => {
                        assert(piece@ =~= rest@.take(j));
                    },
                    None => {},
                }
            }
            let ws = crate::text::split_words(&piece);
            if ws.len() > 0 {
                proof {
                    assert(ws@.map_values(|w: Vec<char>| w@)[0] == ws@[0]@);
                }
                Some(string_of(&ws[0]))
            } else {
                None
            }
        },
    }
}

/// The zone of a link into the time zone database: the link without its
/// `/usr/share/zoneinfo/` prefix.
pub open spec fn zone_of_link(link: Seq<char>) -> Option<Seq<char>> {
    if has_prefix(link, "/usr/share/zoneinfo/"@) {
        Some(link.skip(20))
    } else {
        None
    }
}

/// The time zone: the trimmed content of `/etc/timezone` when it could be
/// read, else the zone `/etc/localtime` links to.
pub fn timezone(timezone_file: &Option<String>, localtime_link: &Option<String>) -> (r: Option<String>)
    ensures
        opt_view(r) == match opt_view(*timezone_file) {
            Some(t) => Some(trim_ws(t)),
            None => match opt_view(*localtime_link) {
                Some(l) => zone_of_link(l),
                None => None,
            },
        },
{
    match timezone_file {
        Some(t) => Some(string_of(&crate::text::trim(&chars_of(t.as_str())))),
        None => match localtime_link {
            Some(l) => {
                let lc = chars_of(l.as_str());
                if crate::text::starts_with(&lc, "/usr/share/zoneinfo/") {
                    proof {
                        reveal_strlit("/usr/share/zoneinfo/");
                    }
                    let n = lc.len();
                    let z = crate::text::sub_chars(&lc, 20, n);
                    proof {
                        assert(z@ =~= lc@.skip(20));
                    }
                    Some(string_of(&z))
                } else {
                    None
                }
            },
            None => None,
        },
    }
}

/// The variables `printenv` prints, as `name=value` lines; a later line for
/// the same name wins.
pub open spec fn env_items(lines: Seq<Seq<char>>) -> Seq<(Seq<char>, Seq<char>)>
    decreases lines.len(),
{
    if lines.len() == 0 {
        Seq::empty()
    } else {
        env_items(lines.drop_last()) + match split_once_spec(lines.last(), '=') {
            Some(kv) => seq![kv],
            None => Seq::empty(),
        }
    }
}

/// The environment variables in the output of `printenv`.
pub fn env_vars(output: &str) -> (r: Vec<(String, String)>)
    ensures
        crate::metrics::types::label_views(r@) == merged(Seq::empty(), env_items(text_lines(output@))),
{
    let cs = chars_of(output);
    let lines = crate::text::lines_of(&cs);
    let ghost ls = lines@.map_values(|l: Vec<char>| l@);
    let mut vars: Vec<(String, String)> = Vec::new();
    let ghost empty = crate::metrics::types::label_views(vars@);
    proof {
        assert(empty =~= Seq::<(Seq<char>, Seq<char>)>::empty());
        assert(ls.take(0) =~= Seq::<Seq<char>>::empty());
    }
    let mut i: usize = 0;
    while i < lines.len()
        invariant
            i <= lines@.len(),
            ls == lines@.map_values(|l: Vec<char>| l@),
            ls == text_lines(output@),
            empty == Seq::<(Seq<char>, Seq<char>)>::empty(),
            crate::metrics::types::label_views(vars@) == merged(empty, env_items(ls.take(i as int))),
        decreases lines@.len() - i,
    {
        proof {
            assert(ls.take(i + 1).drop_last() =~= ls.take(i as int));
            assert(ls.take(i + 1).last() == lines@[i as int]@);
        }
        match crate::text::split_once(&lines[i], '=') {
            Some((k, v)) => {
                let ghost before = crate::metrics::types::label_views(vars@);
                let ghost raw = entries(vars@);
                let key = string_of(&k);
                let value = string_of(&v);
                let ghost vv = value;
                crate::assoc::insert(&mut vars, key, value);
                proof {
                    insert_map_values(raw, |x: String| x@, k@, vv);
                    assert(raw.map_values(|p: (Seq<char>, String)| (p.0, (|x: String| x@)(p.1))) =~= before);
                    assert(entries(vars@).map_values(|p: (Seq<char>, String)| (p.0, (|x: String| x@)(p.1)))
                        =~= crate::metrics::types::label_views(vars@));
                    merged_concat(empty, env_items(ls.take(i as int)), seq![(k@, v@)]);
                    merged_one(before, k@, v@);
                }
            },
            None => {
                proof {
                    assert(env_items(ls.take(i + 1)) =~= env_items(ls.take(i as int)));
                }
            },
        }
        i = i + 1;
    }
    proof {
        assert(ls.take(lines@.len() as int) =~= ls);
    }
    vars
}

/// The Python version `python3 --version` reports: what follows `Python `, trimmed.
pub fn python_version(output: &str) -> (r: Option<String>)
    ensures
        opt_view(r) == (if has_prefix(output@, "Python "@) {
            Some(trim_ws(output@.skip(7)))
        } else {
            None
        }),
{
    let cs = chars_of(output);
    if crate::text::starts_with(&cs, "Python ") {
        proof {
            reveal_strlit("Python ");
        }
        let n = cs.len();
        let rest = crate::text::sub_chars(&cs, 7, n);
        proof {
            assert(rest@ =~= cs@.skip(7));
        }
        Some(string_of(&crate::text::trim(&rest)))
    } else {
        None
    }
}

} // verus!

verus! {

/// The fact subsets to gather.
#[derive(Debug, Clone, Copy, PartialEq, Eq, Structural)]
pub struct FactSubsets {
    /// Operating system facts (`os` or `min`).
    pub os: bool,
    /// Hardware facts.
    pub hardware: bool,
    /// Network facts.
    pub network: bool,
    /// Date and time facts (`date_time`).
    pub date_time: bool,
    /// Environment facts.
    pub env: bool,
}

/// Whether a subset list names `name`.
fn lists(subset: &[String], name: &str) -> (r: bool)
    ensures
        r == crate::text::views(subset@).contains(name@),
{
    let mut i: usize = 0;
    while i < subset.len()
        invariant
            i <= subset@.len(),
            forall|k: int| 0 <= k < i ==> subset@[k]@ != name@,
        decreases subset@.len() - i,
    {
        if str_equal(subset[i].as_str(), name) {
            proof {
                assert(crate::text::views(subset@)[i as int] == name@);
            }
            return true;
        }
        i = i + 1;
    }
    proof {
        if crate::text::views(subset@).contains(name@) {
            let k = choose|k: int| 0 <= k < crate::text::views(subset@).len() && crate::text::views(subset@)[k] == name@;
            assert(subset@[k]@ == name@);
        }
    }
    false
}

/// The subsets a `gather_subset` list asks for: everything when there is no
/// list or it names `all`; otherwise those it names, `min` standing for `os`.
pub fn wanted_subsets(subset: Option<&[String]>) -> (r: FactSubsets)
    ensures
        match subset {
            None => r == (FactSubsets { os: true, hardware: true, network: true, date_time: true, env: true }),
            Some(s) => {
                let v = crate::text::views(s@);
                let all = v.contains("all"@);
                &&& r.os == (all || v.contains("os"@) || v.contains("min"@))
                &&& r.hardware == (all || v.contains("hardware"@))
                &&& r.network == (all || v.contains("network"@))
                &&& r.date_time == (all || v.contains("date_time"@))
                &&& r.env == (all || v.contains("env"@))
            },
        },
{
    match subset {
        None => FactSubsets { os: true, hardware: true, network: true, date_time: true, env: true },
        Some(s) => {
            let all = lists(s, "all");
            FactSubsets {
                os: all || lists(s, "os") || lists(s, "min"),
                hardware: all || lists(s, "hardware"),
                network: all || lists(s, "network"),
                date_time: all || lists(s, "date_time"),
                env: all || lists(s, "env"),
            }
        },
    }
}

/// Module for gathering facts about a host.
pub struct FactsModule;

impl FactsModule {
    /// The module's name.
    pub fn name(&self) -> (r: &'static str)
        ensures
            r@ == "gather_facts"@,
    {
        "gather_facts"
    }

    /// What the module does.
    pub fn description(&self) -> (r: &'static str)
        ensures
            r@ == "Gather facts about the target system"@,
    {
        "Gather facts about the target system"
    }
}

} // verus!
