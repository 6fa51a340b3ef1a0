//! Hosts of the inventory: connection settings, group membership, variables,
//! and the parsing of a host line of an INI inventory.
use vstd::prelude::*;
use vstd::string::StringExecFns;
use crate::assoc::{entries, insert_entry, key_index, lookup, merged, read_after_insert};
use crate::numbers::{parse_unsigned, parse_unsigned_spec};
use crate::text::{
    chars_equal, chars_of, copy_str, split_once, split_once_spec, split_words, str_equal,
    str_to_lowercase, string_of, lowercase, words,
};

verus! {

/// Connection type for a host.
#[derive(Debug, Clone, Copy, PartialEq, Eq, Structural)]
pub enum ConnectionType {
    /// SSH connection (default).
    Ssh,
    /// Local connection.
    Local,
    /// Docker container connection.
    Docker,
    /// Podman container connection.
    Podman,
    /// WinRM connection for Windows hosts.
    Winrm,
}

impl ConnectionType {
    /// The lowercase name by which the connection type is displayed.
    pub fn as_str(&self) -> (r: &'static str)
        ensures
            r@ == connection_name(*self),
    {
        match self {
            ConnectionType::Ssh => "ssh",
            ConnectionType::Local => "local",
            ConnectionType::Docker => "docker",
            ConnectionType::Podman => "podman",
            ConnectionType::Winrm => "winrm",
        }
    }
}

/// The display name of a connection type.
pub open spec fn connection_name(c: ConnectionType) -> Seq<char> {
    match c {
        ConnectionType::Ssh => "ssh"@,
        ConnectionType::Local => "local"@,
        ConnectionType::Docker => "docker"@,
        ConnectionType::Podman => "podman"@,
        ConnectionType::Winrm => "winrm"@,
    }
}

/// The connection type an already lowercased name designates.
pub open spec fn connection_named(lower: Seq<char>) -> Option<ConnectionType> {
    if lower == "ssh"@ {
        Some(ConnectionType::Ssh)
    } else if lower == "local"@ {
        Some(ConnectionType::Local)
    } else if lower == "docker"@ {
        Some(ConnectionType::Docker)
    } else if lower == "podman"@ {
        Some(ConnectionType::Podman)
    } else if lower == "winrm"@ {
        Some(ConnectionType::Winrm)
    } else {
        None
    }
}

impl Default for ConnectionType {
    /// SSH unless said otherwise.
    fn default() -> (r: Self)
        ensures
            r == ConnectionType::Ssh,
    {
        ConnectionType::Ssh
    }
}

/// The SSH port used when none is given.
pub fn default_ssh_port() -> (r: u16)
    ensures
        r == 22,
{
    22
}

/// Host keys are checked unless said otherwise.
pub fn default_host_key_checking() -> (r: bool)
    ensures
        r,
{
    true
}

/// The SSH connection timeout, in seconds, used when none is given.
pub fn default_timeout() -> (r: u32)
    ensures
        r == 10,
{
    10
}

/// The privilege escalation method used when none is given.
pub fn default_become_method() -> (r: String)
    ensures
        r@ == "sudo"@,
{
    copy_str("sudo")
}

/// The user to become when none is given.
pub fn default_become_user() -> (r: String)
    ensures
        r@ == "root"@,
{
    copy_str("root")
}

/// Hosts are enabled unless said otherwise.
pub fn default_enabled() -> (r: bool)
    ensures
        r,
{
    true
}

/// SSH connection parameters.
#[derive(Debug, Clone, PartialEq, Eq)]
pub struct SshParams {
    /// SSH port.
    pub port: u16,
    /// SSH user.
    pub user: Option<String>,
    /// SSH private key file path.
    pub private_key_file: Option<String>,
    /// SSH password.
    pub password: Option<String>,
    /// SSH common args.
    pub common_args: Option<String>,
    /// SSH extra args.
    pub extra_args: Option<String>,
    /// SSH executable path.
    pub executable: Option<String>,
    /// SSH pipelining enabled.
    pub pipelining: bool,
    /// SSH host key checking.
    pub host_key_checking: bool,
    /// SSH connection timeout in seconds.
    pub timeout: u32,
}

/// The SSH parameters of a host that sets none.
pub open spec fn default_ssh(p: SshParams) -> bool {
    &&& p.port == 22
    &&& p.user is None
    &&& p.private_key_file is None
    &&& p.password is None
    &&& p.common_args is None
    &&& p.extra_args is None
    &&& p.executable is None
    &&& !p.pipelining
    &&& p.host_key_checking
    &&& p.timeout == 10
}

impl Default for SshParams {
    /// Port 22, no user or key, host keys checked, a ten second timeout.
    fn default() -> (r: Self)
        ensures
            default_ssh(r),
    {
        SshParams {
            port: default_ssh_port(),
            user: None,
            private_key_file: None,
            password: None,
            common_args: None,
            extra_args: None,
            executable: None,
            pipelining: false,
            host_key_checking: default_host_key_checking(),
            timeout: default_timeout(),
        }
    }
}

/// Connection parameters for a host.
#[derive(Debug, Clone, PartialEq, Eq)]
pub struct ConnectionParams {
    /// Connection type.
    pub connection: ConnectionType,
    /// SSH-specific parameters.
    pub ssh: SshParams,
    /// Privilege escalation (`become`) enabled.
    pub become_: bool,
    /// Privilege escalation method.
    pub become_method: String,
    /// User to become.
    pub become_user: String,
    /// Password for privilege escalation.
    pub become_password: Option<String>,
    /// Python interpreter path on the remote host.
    pub python_interpreter: Option<String>,
    /// Shell executable on the remote host.
    pub shell_executable: Option<String>,
}

/// The connection parameters of a host that sets none.
pub open spec fn default_connection(p: ConnectionParams) -> bool {
    &&& p.connection == ConnectionType::Ssh
    &&& default_ssh(p.ssh)
    &&& !p.become_
    &&& p.become_method@ == "sudo"@
    &&& p.become_user@ == "root"@
    &&& p.become_password is None
    &&& p.python_interpreter is None
    &&& p.shell_executable is None
}

impl Default for ConnectionParams {
    /// SSH with default parameters, no privilege escalation (sudo to root when enabled).
    fn default() -> (r: Self)
        ensures
            default_connection(r),
    {
        ConnectionParams {
            connection: ConnectionType::Ssh,
            ssh: SshParams::default(),
            become_: false,
            become_method: default_become_method(),
            become_user: default_become_user(),
            become_password: None,
            python_interpreter: None,
            shell_executable: None,
        }
    }
}

/// Errors that can occur when parsing a host definition.
#[derive(Debug, Clone, PartialEq, Eq)]
pub enum HostParseError {
    /// The line holds no host name.
    EmptyInput,
    /// A port that is not an integer in 1..=65535.
    InvalidPort(String),
    /// An unknown connection type.
    InvalidConnectionType(String),
}

/// The message of a host line error.
pub open spec fn host_error_message(e: HostParseError) -> Seq<char> {
    match e {
        HostParseError::EmptyInput => "empty input"@,
        HostParseError::InvalidPort(v) => "invalid port: "@ + v@,
        HostParseError::InvalidConnectionType(v) => "invalid connection type: "@ + v@,
    }
}

impl HostParseError {
    /// The error's message.
    pub fn message(&self) -> (r: String)
        ensures
            r@ == host_error_message(*self),
    {
        match self {
            HostParseError::EmptyInput => copy_str("empty input"),
            HostParseError::InvalidPort(v) => crate::text::concat2("invalid port: ", v.as_str()),
            HostParseError::InvalidConnectionType(v) => crate::text::concat2("invalid connection type: ", v.as_str()),
        }
    }
}

} // verus!

verus! {

/// The value of an inventory variable.
#[derive(Debug, Clone, PartialEq)]
pub enum VarValue {
    /// No value.
    Null,
    /// A boolean.
    Bool(bool),
    /// An integer.
    Int(i64),
    /// An integer above `i64::MAX`.
    UInt(u64),
    /// A number with a fraction or an exponent, kept as its text.
    Float(String),
    /// A sequence, a mapping or a tagged value, kept as its text.
    Nested(String),
    /// A string.
    Str(String),
}

impl VarValue {
    /// A copy of the value.
    pub fn duplicate(&self) -> (r: VarValue)
        ensures
            r == *self,
    {
        match self {
            VarValue::Null => VarValue::Null,
            VarValue::Bool(b) => VarValue::Bool(*b),
            VarValue::Int(i) => VarValue::Int(*i),
            VarValue::UInt(u) => VarValue::UInt(*u),
            VarValue::Float(t) => VarValue::Float(t.clone()),
            VarValue::Nested(t) => VarValue::Nested(t.clone()),
            VarValue::Str(s) => VarValue::Str(s.clone()),
        }
    }
}

/// The text of a string value (empty for the others).
pub open spec fn value_text(v: VarValue) -> Seq<char> {
    match v {
        VarValue::Str(s) => s@,
        _ => Seq::empty(),
    }
}

/// Variables whose values are all strings, taken as text.
pub open spec fn text_vars(m: Seq<(Seq<char>, VarValue)>) -> Seq<(Seq<char>, Seq<char>)> {
    m.map_values(|p: (Seq<char>, VarValue)| (p.0, value_text(p.1)))
}

/// Every value is a string.
pub open spec fn all_text(m: Seq<(Seq<char>, VarValue)>) -> bool {
    forall|i: int| 0 <= i < m.len() ==> (#[trigger] m[i]).1 is Str
}

/// A managed host. Its variables are kept in insertion order.
#[derive(Debug, Clone)]
pub struct Host {
    /// Host name (hostname, address or alias).
    pub name: String,
    /// Address to connect to when it differs from the name.
    pub ansible_host: Option<String>,
    /// Connection parameters.
    pub connection: ConnectionParams,
    /// Host-specific variables.
    pub vars: Vec<(String, VarValue)>,
    /// Groups this host belongs to.
    pub groups: Vec<String>,
    /// Whether the host is enabled.
    pub enabled: bool,
}

/// The `key=value` split of a word, at its first `=`.
pub open spec fn key_value(w: Seq<char>) -> Option<(Seq<char>, Seq<char>)> {
    split_once_spec(w, '=')
}

/// The value of the last `key=value` word for `key`.
pub open spec fn last_value(ws: Seq<Seq<char>>, key: Seq<char>) -> Option<Seq<char>>
    decreases ws.len(),
{
    if ws.len() == 0 {
        None
    } else {
        match key_value(ws.last()) {
            Some(kv) => if kv.0 == key { Some(kv.1) } else { last_value(ws.drop_last(), key) },
            None => last_value(ws.drop_last(), key),
        }
    }
}

/// The keys that set a connection parameter rather than a variable.
pub open spec fn is_connection_key(k: Seq<char>) -> bool {
    k == "ansible_host"@ || k == "ansible_port"@ || k == "ansible_user"@ || k == "ansible_ssh_private_key_file"@
        || k == "ansible_ssh_pass"@ || k == "ansible_connection"@ || k == "ansible_become"@ || k
        == "ansible_become_method"@ || k == "ansible_become_user"@ || k == "ansible_python_interpreter"@
}

/// The SSH port a decimal text gives: an integer in 1..=65535.
pub open spec fn host_port(v: Seq<char>) -> Option<nat> {
    match parse_unsigned_spec(v, 65535) {
        Some(p) => if p != 0 { Some(p) } else { None },
        None => None,
    }
}

/// What is wrong with a word, if anything: `(0, value)` for a bad port,
/// `(1, value)` for an unknown connection type.
pub open spec fn word_error(w: Seq<char>) -> Option<(int, Seq<char>)> {
    match key_value(w) {
        Some(kv) => if kv.0 == "ansible_port"@ && host_port(kv.1) is None {
            Some((0, kv.1))
        } else if kv.0 == "ansible_connection"@ && connection_named(lowercase(kv.1)) is None {
            Some((1, kv.1))
        } else {
            None
        },
        None => None,
    }
}

/// The first word that is wrong, and what is wrong with it.
pub open spec fn first_error(ws: Seq<Seq<char>>) -> Option<(int, Seq<char>)>
    decreases ws.len(),
{
    if ws.len() == 0 {
        None
    } else {
        match first_error(ws.drop_last()) {
            Some(e) => Some(e),
            None => word_error(ws.last()),
        }
    }
}

/// The variables that the words set: every `key=value` word whose key is not
/// a connection parameter, inserted in order.
pub open spec fn word_vars(ws: Seq<Seq<char>>) -> Seq<(Seq<char>, Seq<char>)>
    decreases ws.len(),
{
    if ws.len() == 0 {
        Seq::empty()
    } else {
        let prev = word_vars(ws.drop_last());
        match key_value(ws.last()) {
            Some(kv) => if is_connection_key(kv.0) { prev } else { insert_entry(prev, kv.0, kv.1) },
            None => prev,
        }
    }
}

/// The views of an optional string.
pub open spec fn opt_view(o: Option<String>) -> Option<Seq<char>> {
    match o {
        Some(s) => Some(s@),
        None => None,
    }
}

/// What an `ansible_become` value means.
pub open spec fn become_value(v: Seq<char>) -> bool {
    lowercase(v) == "true"@ || v == "1"@
}

/// A host parsed from the words after its name, none of which is wrong.
pub open spec fn parsed_host(h: Host, name: Seq<char>, ws: Seq<Seq<char>>) -> bool {
    &&& h.name@ == name
    &&& opt_view(h.ansible_host) == last_value(ws, "ansible_host"@)
    &&& h.connection.ssh.port == match last_value(ws, "ansible_port"@) {
        Some(v) => host_port(v).unwrap(),
        None => 22,
    }
    &&& opt_view(h.connection.ssh.user) == last_value(ws, "ansible_user"@)
    &&& opt_view(h.connection.ssh.private_key_file) == last_value(ws, "ansible_ssh_private_key_file"@)
    &&& opt_view(h.connection.ssh.password) == last_value(ws, "ansible_ssh_pass"@)
    &&& h.connection.connection == match last_value(ws, "ansible_connection"@) {
        Some(v) => connection_named(lowercase(v)).unwrap(),
        None => ConnectionType::Ssh,
    }
    &&& h.connection.become_ == match last_value(ws, "ansible_become"@) {
        Some(v) => become_value(v),
        None => false,
    }
    &&& h.connection.become_method@ == match last_value(ws, "ansible_become_method"@) {
        Some(v) => v,
        None => "sudo"@,
    }
    &&& h.connection.become_user@ == match last_value(ws, "ansible_become_user"@) {
        Some(v) => v,
        None => "root"@,
    }
    &&& opt_view(h.connection.python_interpreter) == last_value(ws, "ansible_python_interpreter"@)
    &&& h.connection.ssh.common_args is None
    &&& h.connection.ssh.extra_args is None
    &&& h.connection.ssh.executable is None
    &&& !h.connection.ssh.pipelining
    &&& h.connection.ssh.host_key_checking
    &&& h.connection.ssh.timeout == 10
    &&& h.connection.become_password is None
    &&& h.connection.shell_executable is None
    &&& all_text(entries(h.vars@))
    &&& text_vars(entries(h.vars@)) == word_vars(ws)
    &&& h.groups@.len() == 0
    &&& h.enabled
}

/// Whether a word is a `key=value` word for `key`.
pub open spec fn sets_key(w: Seq<char>, key: Seq<char>) -> bool {
    match key_value(w) {
        Some(kv) => kv.0 == key,
        None => false,
    }
}

/// Whether the word at `j` is the last one that sets `key`, and sets it to `v`.
pub open spec fn last_set_at(ws: Seq<Seq<char>>, key: Seq<char>, j: int, v: Seq<char>) -> bool {
    &&& 0 <= j < ws.len()
    &&& key_value(ws[j]) == Some((key, v))
    &&& forall|k: int| j < k < ws.len() ==> !sets_key(#[trigger] ws[k], key)
}

/// The last word that sets a key gives its value.
proof fn lemma_last_value_at(ws: Seq<Seq<char>>, key: Seq<char>, j: int, v: Seq<char>)
    requires
        last_set_at(ws, key, j, v),
    ensures
        last_value(ws, key) == Some(v),
    decreases ws.len(),
{
    if j < ws.len() - 1 {
        assert(!sets_key(ws[ws.len() - 1], key));
        assert forall|k: int| j < k < ws.drop_last().len() implies !sets_key(#[trigger] ws.drop_last()[k], key) by {
            assert(ws.drop_last()[k] == ws[k]);
        }
        lemma_last_value_at(ws.drop_last(), key, j, v);
    }
}

/// A key no word sets has no value.
proof fn lemma_last_value_unset(ws: Seq<Seq<char>>, key: Seq<char>)
    requires
        forall|k: int| 0 <= k < ws.len() ==> !sets_key(#[trigger] ws[k], key),
    ensures
        last_value(ws, key) is None,
    decreases ws.len(),
{
    if ws.len() > 0 {
        assert(!sets_key(ws[ws.len() - 1], key));
        assert forall|k: int| 0 <= k < ws.drop_last().len() implies !sets_key(#[trigger] ws.drop_last()[k], key) by {
            assert(ws.drop_last()[k] == ws[k]);
        }
        lemma_last_value_unset(ws.drop_last(), key);
    }
}

/// A connection key set on a host line takes the value of the last word that
/// sets it: `ansible_host` the address, `ansible_user` the user,
/// `ansible_ssh_private_key_file` the key file, `ansible_ssh_pass` the
/// password, `ansible_python_interpreter` the interpreter,
/// `ansible_become_method` and `ansible_become_user` the become settings,
/// `ansible_become` whether to become, `ansible_port` the port and
/// `ansible_connection` the connection type.
pub proof fn law_host_word_sets_connection(h: Host, name: Seq<char>, ws: Seq<Seq<char>>, key: Seq<char>, j: int, v: Seq<char>)
    requires
        parsed_host(h, name, ws),
        last_set_at(ws, key, j, v),
    ensures
        key == "ansible_host"@ ==> opt_view(h.ansible_host) == Some(v),
        key == "ansible_user"@ ==> opt_view(h.connection.ssh.user) == Some(v),
        key == "ansible_ssh_private_key_file"@ ==> opt_view(h.connection.ssh.private_key_file) == Some(v),
        key == "ansible_ssh_pass"@ ==> opt_view(h.connection.ssh.password) == Some(v),
        key == "ansible_python_interpreter"@ ==> opt_view(h.connection.python_interpreter) == Some(v),
        key == "ansible_become_method"@ ==> h.connection.become_method@ == v,
        key == "ansible_become_user"@ ==> h.connection.become_user@ == v,
        key == "ansible_become"@ ==> h.connection.become_ == (lowercase(v) == "true"@ || v == "1"@),
        key == "ansible_port"@ ==> (host_port(v) matches Some(p) ==> h.connection.ssh.port == p),
        key == "ansible_connection"@ ==> (connection_named(lowercase(v)) matches Some(c)
            ==> h.connection.connection == c),
{
    lemma_last_value_at(ws, key, j, v);
}

/// A connection key no word sets keeps its default: no address, user, key
/// file, password or interpreter, port 22, an SSH connection, no become,
/// become method `sudo` and become user `root`.
pub proof fn law_host_unset_connection_defaults(h: Host, name: Seq<char>, ws: Seq<Seq<char>>, key: Seq<char>)
    requires
        parsed_host(h, name, ws),
        forall|k: int| 0 <= k < ws.len() ==> !sets_key(#[trigger] ws[k], key),
    ensures
        key == "ansible_host"@ ==> h.ansible_host is None,
        key == "ansible_user"@ ==> h.connection.ssh.user is None,
        key == "ansible_ssh_private_key_file"@ ==> h.connection.ssh.private_key_file is None,
        key == "ansible_ssh_pass"@ ==> h.connection.ssh.password is None,
        key == "ansible_python_interpreter"@ ==> h.connection.python_interpreter is None,
        key == "ansible_become_method"@ ==> h.connection.become_method@ == "sudo"@,
        key == "ansible_become_user"@ ==> h.connection.become_user@ == "root"@,
        key == "ansible_become"@ ==> !h.connection.become_,
        key == "ansible_port"@ ==> h.connection.ssh.port == 22,
        key == "ansible_connection"@ ==> h.connection.connection == ConnectionType::Ssh,
{
    lemma_last_value_unset(ws, key);
}

/// The last word that sets a key that is no connection parameter gives the
/// variable's value.
proof fn lemma_word_vars_at(ws: Seq<Seq<char>>, key: Seq<char>, j: int, v: Seq<char>)
    requires
        last_set_at(ws, key, j, v),
        !is_connection_key(key),
    ensures
        lookup(word_vars(ws), key) == Some(v),
    decreases ws.len(),
{
    let prev = word_vars(ws.drop_last());
    if j == ws.len() - 1 {
        read_after_insert(prev, key, v, key);
    } else {
        assert(!sets_key(ws[ws.len() - 1], key));
        assert forall|k: int| j < k < ws.drop_last().len() implies !sets_key(#[trigger] ws.drop_last()[k], key) by {
            assert(ws.drop_last()[k] == ws[k]);
        }
        lemma_word_vars_at(ws.drop_last(), key, j, v);
        if let Some(kv) = key_value(ws.last()) {
            read_after_insert(prev, kv.0, kv.1, key);
        }
    }
}

/// A key no word sets is no variable.
proof fn lemma_word_vars_unset(ws: Seq<Seq<char>>, key: Seq<char>)
    requires
        forall|k: int| 0 <= k < ws.len() ==> !sets_key(#[trigger] ws[k], key),
    ensures
        lookup(word_vars(ws), key) is None,
    decreases ws.len(),
{
    if ws.len() > 0 {
        let prev = word_vars(ws.drop_last());
        assert(!sets_key(ws[ws.len() - 1], key));
        assert forall|k: int| 0 <= k < ws.drop_last().len() implies !sets_key(#[trigger] ws.drop_last()[k], key) by {
            assert(ws.drop_last()[k] == ws[k]);
        }
        lemma_word_vars_unset(ws.drop_last(), key);
        if let Some(kv) = key_value(ws.last()) {
            read_after_insert(prev, kv.0, kv.1, key);
        }
    }
}

/// Every other key set on a host line becomes a variable holding the text of
/// the last word that sets it; a key no word sets is no variable.
pub proof fn law_host_word_sets_variable(h: Host, name: Seq<char>, ws: Seq<Seq<char>>, key: Seq<char>, j: int, v: Seq<char>)
    requires
        parsed_host(h, name, ws),
        !is_connection_key(key),
    ensures
        last_set_at(ws, key, j, v) ==> lookup(text_vars(entries(h.vars@)), key) == Some(v),
        (forall|k: int| 0 <= k < ws.len() ==> !sets_key(#[trigger] ws[k], key)) ==> lookup(
            text_vars(entries(h.vars@)),
            key,
        ) is None,
{
    if last_set_at(ws, key, j, v) {
        lemma_word_vars_at(ws, key, j, v);
    }
    if forall|k: int| 0 <= k < ws.len() ==> !sets_key(#[trigger] ws[k], key) {
        lemma_word_vars_unset(ws, key);
    }
}

} // verus!

verus! {

broadcast use vstd::seq_lib::group_seq_properties;

/// The names of groups, by their views.
pub open spec fn group_names(v: Seq<String>) -> Seq<Seq<char>> {
    v.map_values(|g: String| g@)
}

/// The host that `Host::new` builds for `name`.
pub open spec fn fresh_host(h: Host, name: Seq<char>) -> bool {
    &&& h.name@ == name
    &&& h.ansible_host is None
    &&& default_connection(h.connection)
    &&& h.vars@.len() == 0
    &&& h.groups@.len() == 0
    &&& h.enabled
}

/// The address a host is reached at: its `ansible_host` if set, else its name.
pub open spec fn host_address(h: Host) -> Seq<char> {
    match h.ansible_host {
        Some(a) => a@,
        None => h.name@,
    }
}

/// Everything of a host but its variables and groups.
pub open spec fn same_settings(a: Host, b: Host) -> bool {
    &&& a.name == b.name
    &&& a.ansible_host == b.ansible_host
    &&& a.connection == b.connection
    &&& a.enabled == b.enabled
}

impl Host {
    /// A host with default connection settings, no variables and no groups.
    pub fn new(name: &str) -> (h: Host)
        ensures
            fresh_host(h, name@),
    {
        Host {
            name: copy_str(name),
            ansible_host: None,
            connection: ConnectionParams::default(),
            vars: Vec::new(),
            groups: Vec::new(),
            enabled: default_enabled(),
        }
    }

    /// A host reached at `address` rather than at its name.
    pub fn with_address(name: &str, address: &str) -> (h: Host)
        ensures
            h.name@ == name@,
            h.ansible_host is Some && h.ansible_host.unwrap()@ == address@,
            default_connection(h.connection),
            h.vars@.len() == 0,
            h.groups@.len() == 0,
            h.enabled,
    {
        let mut host = Host::new(name);
        host.ansible_host = Some(copy_str(address));
        host
    }

    /// The address to connect to.
    pub fn address(&self) -> (r: &str)
        ensures
            r@ == host_address(*self),
    {
        match &self.ansible_host {
            Some(a) => a.as_str(),
            None => self.name.as_str(),
        }
    }

    /// Sets a variable; an existing one keeps its place and takes the new value.
    pub fn set_var(&mut self, key: &str, value: VarValue)
        ensures
            entries(final(self).vars@) == insert_entry(entries(old(self).vars@), key@, value),
            same_settings(*final(self), *old(self)),
            final(self).groups == old(self).groups,
    {
        crate::assoc::insert(&mut self.vars, copy_str(key), value);
    }

    /// The value of a variable.
    pub fn get_var(&self, key: &str) -> (r: Option<&VarValue>)
        ensures
            match lookup(entries(self.vars@), key@) {
                Some(v) => r is Some && *r.unwrap() == v,
                None => r is None,
            },
    {
        crate::assoc::get(&self.vars, key)
    }

    /// Whether the host has a variable.
    pub fn has_var(&self, key: &str) -> (r: bool)
        ensures
            r == (lookup(entries(self.vars@), key@) is Some),
    {
        crate::assoc::find_key(&self.vars, key).is_some()
    }

    /// Adds the host to a group; a group it is in already is not added twice.
    pub fn add_to_group(&mut self, group: &str)
        ensures
            group_names(final(self).groups@) == if group_names(old(self).groups@).contains(group@) {
                group_names(old(self).groups@)
            } else {
                group_names(old(self).groups@).push(group@)
            },
            same_settings(*final(self), *old(self)),
            final(self).vars == old(self).vars,
    {
        if !self.in_group(group) {
            let ghost before = group_names(self.groups@);
            self.groups.push(copy_str(group));
            proof {
                assert(group_names(self.groups@) =~= before.push(group@));
            }
        }
    }

    /// Removes the host from a group.
    pub fn remove_from_group(&mut self, group: &str)
        ensures
            group_names(final(self).groups@) == group_names(old(self).groups@).filter(
                |g: Seq<char>| g != group@,
            ),
            same_settings(*final(self), *old(self)),
            final(self).vars == old(self).vars,
    {
        let ghost pred = |g: Seq<char>| g != group@;
        let mut kept: Vec<String> = Vec::new();
        let mut i: usize = 0;
        while i < self.groups.len()
            invariant
                i <= self.groups@.len(),
                pred == (|g: Seq<char>| g != group@),
                group_names(kept@) == group_names(self.groups@.take(i as int)).filter(pred),
            decreases self.groups@.len() - i,
        {
            let ghost before = kept@;
            proof {
                assert(group_names(self.groups@.take(i + 1)) =~= group_names(self.groups@.take(i as int)).push(
                    self.groups@[i as int]@,
                ));
                group_names(self.groups@.take(i as int)).lemma_filter_push(self.groups@[i as int]@, pred);
            }
            if !str_equal(self.groups[i].as_str(), group) {
                kept.push(self.groups[i].clone());
                proof {
                    assert(pred(self.groups@[i as int]@));
                    assert(group_names(kept@) =~= group_names(before).push(self.groups@[i as int]@));
                }
            } else {
                assert(!pred(self.groups@[i as int]@));
            }
            i = i + 1;
        }
        proof {
            assert(self.groups@.take(self.groups@.len() as int) =~= self.groups@);
        }
        self.groups = kept;
    }

    /// Whether the host is in a group.
    pub fn in_group(&self, group: &str) -> (r: bool)
        ensures
            r == group_names(self.groups@).contains(group@),
    {
        let mut i: usize = 0;
        while i < self.groups.len()
            invariant
                i <= self.groups@.len(),
                forall|k: int| 0 <= k < i ==> self.groups@[k]@ != group@,
            decreases self.groups@.len() - i,
        {
            if str_equal(self.groups[i].as_str(), group) {
                proof {
                    assert(group_names(self.groups@)[i as int] == group@);
                }
                return true;
            }
            i = i + 1;
        }
        proof {
            if group_names(self.groups@).contains(group@) {
                let k = choose|k: int| 0 <= k < group_names(self.groups@).len() && group_names(self.groups@)[k] == group@;
                assert(self.groups@[k]@ == group@);
            }
        }
        false
    }

    /// Sets the SSH port.
    pub fn set_port(&mut self, port: u16)
        ensures
            *final(self) == (Host {
                connection: ConnectionParams { ssh: SshParams { port, ..old(self).connection.ssh }, ..old(self).connection },
                ..*old(self)
            }),
    {
        self.connection.ssh.port = port;
    }

    /// Sets the SSH user.
    pub fn set_user(&mut self, user: &str)
        ensures
            final(self).connection.ssh.user is Some,
            final(self).connection.ssh.user.unwrap()@ == user@,
            *final(self) == (Host {
                connection: ConnectionParams {
                    ssh: SshParams { user: final(self).connection.ssh.user, ..old(self).connection.ssh },
                    ..old(self).connection
                },
                ..*old(self)
            }),
    {
        self.connection.ssh.user = Some(copy_str(user));
    }

    /// Sets the SSH private key file.
    pub fn set_private_key(&mut self, key_file: &str)
        ensures
            final(self).connection.ssh.private_key_file is Some,
            final(self).connection.ssh.private_key_file.unwrap()@ == key_file@,
            *final(self) == (Host {
                connection: ConnectionParams {
                    ssh: SshParams { private_key_file: final(self).connection.ssh.private_key_file, ..old(self).connection.ssh },
                    ..old(self).connection
                },
                ..*old(self)
            }),
    {
        self.connection.ssh.private_key_file = Some(copy_str(key_file));
    }

    /// Turns privilege escalation on.
    pub fn enable_become(&mut self)
        ensures
            *final(self) == (Host { connection: ConnectionParams { become_: true, ..old(self).connection }, ..*old(self) }),
    {
        self.connection.become_ = true;
    }

    /// Sets the privilege escalation method.
    pub fn set_become_method(&mut self, method: &str)
        ensures
            final(self).connection.become_method@ == method@,
            *final(self) == (Host {
                connection: ConnectionParams { become_method: final(self).connection.become_method, ..old(self).connection },
                ..*old(self)
            }),
    {
        self.connection.become_method = copy_str(method);
    }

    /// Sets the user to become.
    pub fn set_become_user(&mut self, user: &str)
        ensures
            final(self).connection.become_user@ == user@,
            *final(self) == (Host {
                connection: ConnectionParams { become_user: final(self).connection.become_user, ..old(self).connection },
                ..*old(self)
            }),
    {
        self.connection.become_user = copy_str(user);
    }

    /// Sets the connection type.
    pub fn set_connection(&mut self, conn: ConnectionType)
        ensures
            *final(self) == (Host { connection: ConnectionParams { connection: conn, ..old(self).connection }, ..*old(self) }),
    {
        self.connection.connection = conn;
    }

    /// Merges variables from another source; its values win.
    pub fn merge_vars(&mut self, other: &Vec<(String, VarValue)>)
        ensures
            entries(final(self).vars@) == merged(entries(old(self).vars@), entries(other@)),
            same_settings(*final(self), *old(self)),
            final(self).groups == old(self).groups,
    {
        let mut i: usize = 0;
        while i < other.len()
            invariant
                i <= other@.len(),
                entries(self.vars@) == merged(entries(old(self).vars@), entries(other@).take(i as int)),
                same_settings(*self, *old(self)),
                self.groups == old(self).groups,
            decreases other@.len() - i,
        {
            proof {
                assert(entries(other@).take(i + 1).drop_last() =~= entries(other@).take(i as int));
            }
            let key = other[i].0.clone();
            let value = other[i].1.duplicate();
            proof {
                assert(entries(other@).take(i + 1).last() == (key@, value));
            }
            self.set_var(key.as_str(), value);
            i = i + 1;
        }
        proof {
            assert(entries(other@).take(other@.len() as int) =~= entries(other@));
        }
    }
}

} // verus!

verus! {

/// The keys that set connection parameters are ten different words.
proof fn lemma_setting_keys_distinct()
    ensures
        "ansible_host"@ != "ansible_port"@,
        "ansible_host"@ != "ansible_user"@,
        "ansible_host"@ != "ansible_ssh_private_key_file"@,
        "ansible_host"@ != "ansible_ssh_pass"@,
        "ansible_host"@ != "ansible_connection"@,
        "ansible_host"@ != "ansible_become"@,
        "ansible_host"@ != "ansible_become_method"@,
        "ansible_host"@ != "ansible_become_user"@,
        "ansible_host"@ != "ansible_python_interpreter"@,
        "ansible_port"@ != "ansible_user"@,
        "ansible_port"@ != "ansible_ssh_private_key_file"@,
        "ansible_port"@ != "ansible_ssh_pass"@,
        "ansible_port"@ != "ansible_connection"@,
        "ansible_port"@ != "ansible_become"@,
        "ansible_port"@ != "ansible_become_method"@,
        "ansible_port"@ != "ansible_become_user"@,
        "ansible_port"@ != "ansible_python_interpreter"@,
        "ansible_user"@ != "ansible_ssh_private_key_file"@,
        "ansible_user"@ != "ansible_ssh_pass"@,
        "ansible_user"@ != "ansible_connection"@,
        "ansible_user"@ != "ansible_become"@,
        "ansible_user"@ != "ansible_become_method"@,
        "ansible_user"@ != "ansible_become_user"@,
        "ansible_user"@ != "ansible_python_interpreter"@,
        "ansible_ssh_private_key_file"@ != "ansible_ssh_pass"@,
        "ansible_ssh_private_key_file"@ != "ansible_connection"@,
        "ansible_ssh_private_key_file"@ != "ansible_become"@,
        "ansible_ssh_private_key_file"@ != "ansible_become_method"@,
        "ansible_ssh_private_key_file"@ != "ansible_become_user"@,
        "ansible_ssh_private_key_file"@ != "ansible_python_interpreter"@,
        "ansible_ssh_pass"@ != "ansible_connection"@,
        "ansible_ssh_pass"@ != "ansible_become"@,
        "ansible_ssh_pass"@ != "ansible_become_method"@,
        "ansible_ssh_pass"@ != "ansible_become_user"@,
        "ansible_ssh_pass"@ != "ansible_python_interpreter"@,
        "ansible_connection"@ != "ansible_become"@,
        "ansible_connection"@ != "ansible_become_method"@,
        "ansible_connection"@ != "ansible_become_user"@,
        "ansible_connection"@ != "ansible_python_interpreter"@,
        "ansible_become"@ != "ansible_become_method"@,
        "ansible_become"@ != "ansible_become_user"@,
        "ansible_become"@ != "ansible_python_interpreter"@,
        "ansible_become_method"@ != "ansible_become_user"@,
        "ansible_become_method"@ != "ansible_python_interpreter"@,
        "ansible_become_user"@ != "ansible_python_interpreter"@,
{
    reveal_strlit("ansible_host");
    reveal_strlit("ansible_port");
    reveal_strlit("ansible_user");
    reveal_strlit("ansible_ssh_private_key_file");
    reveal_strlit("ansible_ssh_pass");
    reveal_strlit("ansible_connection");
    reveal_strlit("ansible_become");
    reveal_strlit("ansible_become_method");
    reveal_strlit("ansible_become_user");
    reveal_strlit("ansible_python_interpreter");
    assert("ansible_host"@.len() == 12);
    assert("ansible_port"@.len() == 12);
    assert("ansible_user"@.len() == 12);
    assert("ansible_ssh_private_key_file"@.len() == 28);
    assert("ansible_ssh_pass"@.len() == 16);
    assert("ansible_connection"@.len() == 18);
    assert("ansible_become"@.len() == 14);
    assert("ansible_become_method"@.len() == 21);
    assert("ansible_become_user"@.len() == 19);
    assert("ansible_python_interpreter"@.len() == 26);
    assert("ansible_host"@[8] != "ansible_port"@[8]);
    assert("ansible_host"@[8] != "ansible_user"@[8]);
    assert("ansible_port"@[8] != "ansible_user"@[8]);
}

/// The words before and after one more word.
proof fn lemma_push_word(ws: Seq<Seq<char>>, w: Seq<char>)
    ensures
        ws.push(w).drop_last() == ws,
        ws.push(w).last() == w,
{
    assert(ws.push(w).drop_last() =~= ws);
}

/// Inserting a string value commutes with reading the values as text.
proof fn lemma_text_vars_insert(m: Seq<(Seq<char>, VarValue)>, k: Seq<char>, s: String)
    requires
        all_text(m),
    ensures
        all_text(insert_entry(m, k, VarValue::Str(s))),
        text_vars(insert_entry(m, k, VarValue::Str(s))) == insert_entry(text_vars(m), k, s@),
{
    let f = |v: VarValue| value_text(v);
    crate::assoc::lemma_key_index_map_values(m, f, k);
    crate::assoc::lemma_key_index_found(m, k);
    assert(m.map_values(|p: (Seq<char>, VarValue)| (p.0, f(p.1))) =~= text_vars(m));
    let n = insert_entry(m, k, VarValue::Str(s));
    match key_index(m, k) {
        Some(i) => {
            assert(text_vars(n) =~= text_vars(m).update(i, (k, s@)));
        },
        None => {
            assert(text_vars(n) =~= text_vars(m).push((k, s@)));
        },
    }
    assert forall|i: int| 0 <= i < n.len() implies (#[trigger] n[i]).1 is Str by {
        if key_index(m, k) is None && i == m.len() {
        } else if key_index(m, k) == Some(i) {
        } else {
            assert(m[i].1 is Str);
        }
    }
}

/// The connection type that a lowercased name designates.
pub(crate) fn connection_from_lower(lc: &[char]) -> (r: Option<ConnectionType>)
    ensures
        r == connection_named(lc@),
{
    if chars_equal(lc, "ssh") {
        Some(ConnectionType::Ssh)
    } else if chars_equal(lc, "local") {
        Some(ConnectionType::Local)
    } else if chars_equal(lc, "docker") {
        Some(ConnectionType::Docker)
    } else if chars_equal(lc, "podman") {
        Some(ConnectionType::Podman)
    } else if chars_equal(lc, "winrm") {
        Some(ConnectionType::Winrm)
    } else {
        None
    }
}

/// The error that `e` of `word_error` stands for.
pub open spec fn error_for(x: HostParseError, e: (int, Seq<char>)) -> bool {
    if e.0 == 0 {
        x matches HostParseError::InvalidPort(v) && v@ == e.1
    } else {
        x matches HostParseError::InvalidConnectionType(v) && v@ == e.1
    }
}

/// Applies one `key=value` word of a host line.
#[verifier::rlimit(40)]
fn apply_word(host: &mut Host, w: &Vec<char>, Ghost(name): Ghost<Seq<char>>, Ghost(done): Ghost<Seq<Seq<char>>>) -> (r: Result<(), HostParseError>)
    requires
        parsed_host(*old(host), name, done),
    ensures
        match word_error(w@) {
            Some(e) => r matches Err(x) && error_for(x, e),
            None => r is Ok && parsed_host(*final(host), name, done.push(w@)),
        },
{
    proof {
        lemma_setting_keys_distinct();
        lemma_push_word(done, w@);
    }
    let ghost ws = done.push(w@);
    match split_once(w.as_slice(), '=') {
        None => Ok(()),
        Some((k, v)) => {
            let ghost old_vars = entries(host.vars@);
            if chars_equal(&k, "ansible_host") {
                host.ansible_host = Some(string_of(&v));
                Ok(())
            } else if chars_equal(&k, "ansible_port") {
                match parse_unsigned(&v, 65535) {
                    Some(p) => if p != 0 {
                        host.connection.ssh.port = p as u16;
                        Ok(())
                    } else {
                        Err(HostParseError::InvalidPort(string_of(&v)))
                    },
                    None => Err(HostParseError::InvalidPort(string_of(&v))),
                }
            } else if chars_equal(&k, "ansible_user") {
                host.connection.ssh.user = Some(string_of(&v));
                Ok(())
            } else if chars_equal(&k, "ansible_ssh_private_key_file") {
                host.connection.ssh.private_key_file = Some(string_of(&v));
                Ok(())
            } else if chars_equal(&k, "ansible_ssh_pass") {
                host.connection.ssh.password = Some(string_of(&v));
                Ok(())
            } else if chars_equal(&k, "ansible_connection") {
                let value = string_of(&v);
                let lower = str_to_lowercase(value.as_str());
                let lc = chars_of(lower.as_str());
                match connection_from_lower(&lc) {
                    Some(c) => {
                        host.connection.connection = c;
                        Ok(())
                    },
                    None => Err(HostParseError::InvalidConnectionType(value)),
                }
            } else if chars_equal(&k, "ansible_become") {
                let value = string_of(&v);
                let lower = str_to_lowercase(value.as_str());
                let lc = chars_of(lower.as_str());
                host.connection.become_ = chars_equal(&lc, "true") || chars_equal(&v, "1");
                Ok(())
            } else if chars_equal(&k, "ansible_become_method") {
                host.connection.become_method = string_of(&v);
                Ok(())
            } else if chars_equal(&k, "ansible_become_user") {
                host.connection.become_user = string_of(&v);
                Ok(())
            } else if chars_equal(&k, "ansible_python_interpreter") {
                host.connection.python_interpreter = Some(string_of(&v));
                Ok(())
            } else {
                let key = string_of(&k);
                let value = string_of(&v);
                proof {
                    lemma_text_vars_insert(old_vars, k@, value);
                }
                crate::assoc::insert(&mut host.vars, key, VarValue::Str(value));
                Ok(())
            }
        },
    }
}

impl Host {
    /// Parses a host line of an INI inventory: the host name, then
    /// `key=value` words. Connection keys set connection parameters, the
    /// other keys become string variables, words without `=` are ignored.
    pub fn parse(input: &str) -> (r: Result<Host, HostParseError>)
        ensures
            words(input@).len() == 0 ==> r matches Err(HostParseError::EmptyInput),
            words(input@).len() > 0 ==> match first_error(words(input@).drop_first()) {
                Some(e) => r matches Err(x) && error_for(x, e),
                None => r matches Ok(h) && parsed_host(h, words(input@)[0], words(input@).drop_first()),
            },
    {
        let cs = chars_of(input);
        let ws = split_words(&cs);
        let ghost all = words(input@);
        proof {
            assert(ws@.len() == all.len());
            assert(forall|i: int| 0 <= i < ws@.len() ==> ws@[i]@ == all[i]) by {
                assert forall|i: int| 0 <= i < ws@.len() implies ws@[i]@ == all[i] by {
                    assert(ws@.map_values(|w: Vec<char>| w@)[i] == ws@[i]@);
                }
            }
        }
        if ws.len() == 0 {
            return Err(HostParseError::EmptyInput);
        }
        let ghost rest = all.drop_first();
        let name = string_of(&ws[0]);
        let mut host = Host::new(name.as_str());
        proof {
            assert(text_vars(entries(host.vars@)) =~= word_vars(rest.take(0)));
        }
        let mut i: usize = 1;
        while i < ws.len()
            invariant
                1 <= i <= ws@.len(),
                ws@.len() == all.len(),
                all == words(input@),
                rest == all.drop_first(),
                forall|j: int| 0 <= j < ws@.len() ==> ws@[j]@ == all[j],
                first_error(rest.take(i - 1)) is None,
                parsed_host(host, all[0], rest.take(i - 1)),
            decreases ws@.len() - i,
        {
            let ghost done = rest.take(i - 1);
            proof {
                assert(rest.take(i as int) =~= done.push(ws@[i as int]@));
                lemma_push_word(done, ws@[i as int]@);
            }
            match apply_word(&mut host, &ws[i], Ghost(all[0]), Ghost(done)) {
                Ok(()) => {},
                Err(e) => {
                    proof {
                        assert(first_error(rest.take(i as int)) == word_error(ws@[i as int]@));
                        first_error_extends(rest, i as int);
                    }
                    return Err(e);
                },
            }
            i = i + 1;
        }
        proof {
            assert(rest.take(i - 1) =~= rest);
        }
        Ok(host)
    }
}

/// A word that is wrong stays the first wrong word of every longer line.
proof fn first_error_extends(ws: Seq<Seq<char>>, n: int)
    requires
        0 <= n <= ws.len(),
        first_error(ws.take(n)) is Some,
    ensures
        first_error(ws) == first_error(ws.take(n)),
    decreases ws.len() - n,
{
    if n < ws.len() {
        assert(ws.take(n + 1).drop_last() =~= ws.take(n));
        first_error_extends(ws, n + 1);
    } else {
        assert(ws.take(n) =~= ws);
    }
}

} // verus!
