//! Documents of the YAML and JSON inventory formats, and host variables as
//! those formats give them.
use vstd::prelude::*;
use super::host::{
    become_value, connection_named, ConnectionParams, ConnectionType, Host, HostParseError, SshParams, VarValue,
    same_settings,
};
use super::ini::inventory_port;
use super::InventoryError;
use crate::assoc::{entries, insert_entry};
use crate::text::{chars_of, lowercase};

verus! {

/// A value of a YAML or JSON document.
#[derive(Debug)]
pub enum Data {
    /// `null`.
    Null,
    /// A boolean.
    Bool(bool),
    /// An integer that fits `i64`.
    Int(i64),
    /// An integer above `i64::MAX`.
    UInt(u64),
    /// Any other number, as its text.
    Float(String),
    /// A string.
    Str(String),
    /// A sequence: its items, and its text.
    List(Vec<Data>, String),
    /// A mapping: its entries in order, and its text.
    Mapping(Vec<(Data, Data)>, String),
    /// A tagged YAML value, as its text.
    Tagged(String),
}

/// The text of a string value.
pub open spec fn str_of(d: Data) -> Option<Seq<char>> {
    match d {
        Data::Str(s) => Some(s@),
        _ => None,
    }
}

/// The value of the first entry whose key is the string `key`.
pub open spec fn map_get(m: Seq<(Data, Data)>, key: Seq<char>) -> Option<Data>
    decreases m.len(),
{
    if m.len() == 0 {
        None
    } else if str_of(m[0].0) == Some(key) {
        Some(m[0].1)
    } else {
        map_get(m.drop_first(), key)
    }
}

/// The entries of a mapping value.
pub open spec fn map_entries(d: Data) -> Option<Seq<(Data, Data)>> {
    match d {
        Data::Mapping(m, _) => Some(m@),
        _ => None,
    }
}

/// `v` is the variable value that `d` gives: scalars as they are, other
/// values as their text.
pub open spec fn var_of(d: Data, v: VarValue) -> bool {
    match d {
        Data::Null => v == VarValue::Null,
        Data::Bool(b) => v == VarValue::Bool(b),
        Data::Int(i) => v == VarValue::Int(i),
        Data::UInt(u) => v == VarValue::UInt(u),
        Data::Float(t) => (v matches VarValue::Float(t2) && t2@ == t@),
        Data::Str(s) => (v matches VarValue::Str(s2) && s2@ == s@),
        Data::List(_, t) => (v matches VarValue::Nested(t2) && t2@ == t@),
        Data::Mapping(_, t) => (v matches VarValue::Nested(t2) && t2@ == t@),
        Data::Tagged(t) => (v matches VarValue::Nested(t2) && t2@ == t@),
    }
}

/// The variable value a document value gives.
pub fn to_var(d: &Data) -> (v: VarValue)
    ensures
        var_of(*d, v),
{
    match d {
        Data::Null => VarValue::Null,
        Data::Bool(b) => VarValue::Bool(*b),
        Data::Int(i) => VarValue::Int(*i),
        Data::UInt(u) => VarValue::UInt(*u),
        Data::Float(t) => VarValue::Float(t.clone()),
        Data::Str(s) => VarValue::Str(s.clone()),
        Data::List(_, t) => VarValue::Nested(t.clone()),
        Data::Mapping(_, t) => VarValue::Nested(t.clone()),
        Data::Tagged(t) => VarValue::Nested(t.clone()),
    }
}

/// Finds the value of the first entry whose key is the string `key`.
pub fn find_entry<'a>(m: &'a Vec<(Data, Data)>, key: &str) -> (r: Option<&'a Data>)
    ensures
        match map_get(m@, key@) {
            Some(d) => r is Some && *r.unwrap() == d,
            None => r is None,
        },
{
    let mut i: usize = 0;
    proof {
        assert(m@.skip(0) =~= m@);
    }
    while i < m.len()
        invariant
            i <= m@.len(),
            map_get(m@, key@) == map_get(m@.skip(i as int), key@),
        decreases m@.len() - i,
    {
        proof {
            assert(m@.skip(i as int).drop_first() =~= m@.skip(i + 1));
            assert(m@.skip(i as int)[0] == m@[i as int]);
        }
        match &m[i].0 {
            Data::Str(s) => {
                if crate::text::str_equal(s.as_str(), key) {
                    return Some(&m[i].1);
                }
            },
            _ => {},
        }
        i = i + 1;
    }
    None
}

/// The host after one variable of a YAML or JSON inventory: the connection
/// settings take string values (other values leave them), `ansible_port`
/// must be a port, `ansible_become` reads booleans and the strings `true`
/// and `1`, `ansible_connection` is also kept as a variable, and any other
/// key is a variable.
pub open spec fn host_var_step(h: Host, key: Seq<char>, v: VarValue, h2: Host, r: Result<(), InventoryError>) -> bool {
    if key == "ansible_port"@ {
        match inventory_port(v) {
            Some(p) => r is Ok && h2 == (Host {
                connection: ConnectionParams { ssh: SshParams { port: p, ..h.connection.ssh }, ..h.connection },
                ..h
            }),
            None => h2 == h && (r matches Err(InventoryError::HostParse(HostParseError::InvalidPort(m))) && m@
                == "expected an integer in 1..=65535"@),
        }
    } else {
        &&& r is Ok
        &&& if key == "ansible_host"@ {
            h2 == match v {
                VarValue::Str(s) => Host { ansible_host: Some(s), ..h },
                _ => h,
            }
        } else if key == "ansible_user"@ {
            h2 == match v {
                VarValue::Str(s) => Host {
                    connection: ConnectionParams { ssh: SshParams { user: Some(s), ..h.connection.ssh }, ..h.connection },
                    ..h
                },
                _ => h,
            }
        } else if key == "ansible_ssh_private_key_file"@ {
            h2 == match v {
                VarValue::Str(s) => Host {
                    connection: ConnectionParams {
                        ssh: SshParams { private_key_file: Some(s), ..h.connection.ssh },
                        ..h.connection
                    },
                    ..h
                },
                _ => h,
            }
        } else if key == "ansible_connection"@ {
            &&& entries(h2.vars@) == insert_entry(entries(h.vars@), key, v)
            &&& h2.name == h.name
            &&& h2.ansible_host == h.ansible_host
            &&& h2.enabled == h.enabled
            &&& h2.groups == h.groups
            &&& h2.connection == match v {
                VarValue::Str(s) => ConnectionParams {
                    connection: match connection_named(s@) {
                        Some(c) => c,
                        None => ConnectionType::Ssh,
                    },
                    ..h.connection
                },
                _ => h.connection,
            }
        } else if key == "ansible_become"@ {
            h2 == Host {
                connection: ConnectionParams {
                    become_: match v {
                        VarValue::Bool(b) => b,
                        VarValue::Str(s) => become_value(s@),
                        _ => false,
                    },
                    ..h.connection
                },
                ..h
            }
        } else if key == "ansible_become_method"@ {
            h2 == match v {
                VarValue::Str(s) => Host { connection: ConnectionParams { become_method: s, ..h.connection }, ..h },
                _ => h,
            }
        } else if key == "ansible_become_user"@ {
            h2 == match v {
                VarValue::Str(s) => Host { connection: ConnectionParams { become_user: s, ..h.connection }, ..h },
                _ => h,
            }
        } else if key == "ansible_python_interpreter"@ {
            h2 == match v {
                VarValue::Str(s) => Host { connection: ConnectionParams { python_interpreter: Some(s), ..h.connection }, ..h },
                _ => h,
            }
        } else {
            &&& entries(h2.vars@) == insert_entry(entries(h.vars@), key, v)
            &&& same_settings(h2, h)
            &&& h2.groups == h.groups
        }
    }
}

/// Applies one variable of a YAML or JSON inventory to a host, as
/// `host_var_step` states it.
pub fn apply_host_var(host: &mut Host, key: &str, value: VarValue) -> (r: Result<(), InventoryError>)
    ensures
        host_var_step(*old(host), key@, value, *final(host), r),
{
    proof {
        reveal_strlit("ansible_port");
        reveal_strlit("ansible_host");
        reveal_strlit("ansible_user");
        reveal_strlit("ansible_ssh_private_key_file");
        reveal_strlit("ansible_connection");
        reveal_strlit("ansible_become");
        reveal_strlit("ansible_become_method");
        reveal_strlit("ansible_become_user");
        reveal_strlit("ansible_python_interpreter");
        assert("ansible_port"@.len() == 12);
        assert("ansible_host"@.len() == 12);
        assert("ansible_user"@.len() == 12);
        assert("ansible_ssh_private_key_file"@.len() == 28);
        assert("ansible_connection"@.len() == 18);
        assert("ansible_become"@.len() == 14);
        assert("ansible_become_method"@.len() == 21);
        assert("ansible_become_user"@.len() == 19);
        assert("ansible_python_interpreter"@.len() == 26);
        assert("ansible_port"@[8] == 'p' && "ansible_host"@[8] == 'h' && "ansible_user"@[8] == 'u');
    }
    let k = key;
    if crate::text::str_equal(k, "ansible_port") {
        let p = super::ini::parse_inventory_port(&value)?;
        host.connection.ssh.port = p;
        return Ok(());
    }
    if crate::text::str_equal(k, "ansible_connection") {
        host.set_var(key, value.duplicate());
        match value {
            VarValue::Str(s) => {
                let cs = chars_of(s.as_str());
                host.connection.connection = match super::host::connection_from_lower(&cs) {
                    Some(c) => c,
                    None => ConnectionType::Ssh,
                };
            },
            _ => {},
        }
        return Ok(());
    }
    if crate::text::str_equal(k, "ansible_become") {
        host.connection.become_ = match value {
            VarValue::Bool(b) => b,
            VarValue::Str(s) => {
                let lower = crate::text::str_to_lowercase(s.as_str());
                crate::text::str_equal(lower.as_str(), "true") || crate::text::str_equal(s.as_str(), "1")
            },
            _ => false,
        };
        return Ok(());
    }
    let is_setting = crate::text::str_equal(k, "ansible_host") || crate::text::str_equal(k, "ansible_user")
        || crate::text::str_equal(k, "ansible_ssh_private_key_file") || crate::text::str_equal(k, "ansible_become_method")
        || crate::text::str_equal(k, "ansible_become_user") || crate::text::str_equal(k, "ansible_python_interpreter");
    if !is_setting {
        host.set_var(key, value);
        return Ok(());
    }
    match value {
        VarValue::Str(s) => {
            if crate::text::str_equal(k, "ansible_host") {
                host.ansible_host = Some(s);
            } else if crate::text::str_equal(k, "ansible_user") {
                host.connection.ssh.user = Some(s);
            } else if crate::text::str_equal(k, "ansible_ssh_private_key_file") {
                host.connection.ssh.private_key_file = Some(s);
            } else if crate::text::str_equal(k, "ansible_become_method") {
                host.connection.become_method = s;
            } else if crate::text::str_equal(k, "ansible_become_user") {
                host.connection.become_user = s;
            } else {
                host.connection.python_interpreter = Some(s);
            }
        },
        _ => {},
    }
    Ok(())
}

} // verus!
