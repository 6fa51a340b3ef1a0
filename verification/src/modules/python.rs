//! Running Ansible's Python modules: where modules are searched for, and how a
//! module and its arguments are wrapped into one Python program.
use vstd::prelude::*;
use vstd::string::StringExecFns;
use vstd::string::StringSliceAdditionalSpecFns;
use base64::Engine;
use crate::numbers::{format_i64, signed_decimal};
use crate::text::{chars_of, concat3, copy_str, first_index_of, find_char, split_char, str_equal, string_of, trim, trim_ws, views};
use super::{ModuleError, ModuleResult};

verus! {

/// The character of a six-bit value in the standard base64 alphabet:
/// `A`-`Z`, `a`-`z`, `0`-`9`, `+`, `/`.
pub open spec fn base64_char(v: int) -> char {
    if v < 26 {
        (65 + v) as char
    } else if v < 52 {
        (71 + v) as char
    } else if v < 62 {
        (v - 4) as char
    } else if v == 62 {
        '+'
    } else {
        '/'
    }
}

/// The standard base64 encoding (RFC 4648), with `=` padding, of some bytes:
/// each group of three bytes becomes four characters of six bits each, and a
/// last group of one or two bytes is padded to four characters.
pub open spec fn base64_standard(b: Seq<u8>) -> Seq<char>
    decreases b.len(),
{
    if b.len() == 0 {
        Seq::empty()
    } else if b.len() == 1 {
        let x = b[0] as int;
        seq![base64_char(x / 4), base64_char((x % 4) * 16), '=', '=']
    } else if b.len() == 2 {
        let x = b[0] as int;
        let y = b[1] as int;
        seq![base64_char(x / 4), base64_char((x % 4) * 16 + y / 16), base64_char((y % 16) * 4), '=']
    } else {
        let x = b[0] as int;
        let y = b[1] as int;
        let z = b[2] as int;
        seq![base64_char(x / 4), base64_char((x % 4) * 16 + y / 16), base64_char((y % 16) * 4 + z / 64), base64_char(z % 64)]
            + base64_standard(b.subrange(3, b.len() as int))
    }
}

/// Calls `base64::engine::general_purpose::STANDARD.encode`, which panics when
/// the encoded length does not fit in memory sizes (excluded by `requires`).
/// The contract claims that it writes the standard alphabet with padding,
/// as `base64_standard` states it.
#[verifier::external_body]
fn base64_encode(bytes: &[u8]) -> (r: String)
    requires
        bytes@.len() <= usize::MAX / 2,
    ensures
        r@ == base64_standard(bytes@),
{
    base64::engine::general_purpose::STANDARD.encode(bytes)
}

/// `rel` appended to `base` as `Path::join` does on Unix: an absolute `rel`
/// replaces `base`, otherwise one `/` separates them unless `base` is empty
/// or already ends with one.
pub open spec fn joined_path(base: Seq<char>, rel: Seq<char>) -> Seq<char> {
    if rel.len() > 0 && rel[0] == '/' {
        rel
    } else if base.len() == 0 || base.last() == '/' {
        base + rel
    } else {
        base + "/"@ + rel
    }
}

/// Joins a relative path to a base path.
pub fn join_path(base: &str, rel: &str) -> (r: String)
    ensures
        r@ == joined_path(base@, rel@),
{
    let b = chars_of(base);
    let r = chars_of(rel);
    if r.len() > 0 && r[0] == '/' {
        copy_str(rel)
    } else if b.len() == 0 || b[b.len() - 1] == '/' {
        crate::text::concat2(base, rel)
    } else {
        concat3(base, "/", rel)
    }
}

/// The search path of a user's home directory (its collections, then its
/// modules), then the system-wide locations, then the `:`-separated entries of
/// the library path.
pub open spec fn search_paths(home: Option<Seq<char>>, library: Option<Seq<char>>) -> Seq<Seq<char>> {
    let user = match home {
        Some(h) => seq![joined_path(h, ".ansible/collections"@), joined_path(h, ".ansible/plugins/modules"@)],
        None => Seq::empty(),
    };
    let system = seq!["/usr/share/ansible/plugins/modules"@, "/usr/lib/python3/dist-packages/ansible/modules"@];
    let extra = match library {
        Some(l) => split_char(l, ':'),
        None => Seq::empty(),
    };
    user + system + extra
}

/// Executes Ansible Python modules.
pub struct PythonModuleExecutor {
    module_paths: Vec<String>,
    module_cache: Vec<(String, String)>,
}

impl PythonModuleExecutor {
    /// The directories searched for modules, in order.
    pub closed spec fn paths_view(&self) -> Seq<Seq<char>> {
        views(self.module_paths@)
    }

    /// The modules already found: each module name with its path.
    pub closed spec fn cache_view(&self) -> Seq<(Seq<char>, Seq<char>)> {
        self.module_cache@.map_values(|p: (String, String)| (p.0@, p.1@))
    }

    /// An executor whose search path follows the user's home directory and
    /// the library path, when they are given.
    pub fn new_with_env(home: Option<&str>, library: Option<&str>) -> (e: PythonModuleExecutor)
        ensures
            e.paths_view() == search_paths(
                match home {
                    Some(h) => Some(h@),
                    None => None,
                },
                match library {
                    Some(l) => Some(l@),
                    None => None,
                },
            ),
            e.paths_view().len() >= 2,
            e.cache_view().len() == 0,
    {
        let mut paths: Vec<String> = Vec::new();
        match home {
            Some(h) => {
                paths.push(join_path(h, ".ansible/collections"));
                paths.push(join_path(h, ".ansible/plugins/modules"));
            },
            None => {},
        }
        paths.push(copy_str("/usr/share/ansible/plugins/modules"));
        paths.push(copy_str("/usr/lib/python3/dist-packages/ansible/modules"));
        let ghost fixed = views(paths@);
        match library {
            Some(l) => {
                let parts = crate::inventory::pattern::split_on_char(l, ':');
                let mut i: usize = 0;
                while i < parts.len()
                    invariant
                        i <= parts@.len(),
                        views(paths@) == fixed + views(parts@.take(i as int)),
                    decreases parts@.len() - i,
                {
                    let ghost before = views(paths@);
                    paths.push(parts[i].clone());
                    proof {
                        assert(views(parts@.take(i + 1)) =~= views(parts@.take(i as int)).push(parts@[i as int]@));
                        assert(views(paths@) =~= before.push(parts@[i as int]@));
                    }
                    i = i + 1;
                }
                proof {
                    assert(parts@.take(parts@.len() as int) =~= parts@);
                }
            },
            None => {},
        }
        let e = PythonModuleExecutor { module_paths: paths, module_cache: Vec::new() };
        proof {
            let hv = match home {
                Some(h) => Some(h@),
                None => None::<Seq<char>>,
            };
            let lv = match library {
                Some(l) => Some(l@),
                None => None::<Seq<char>>,
            };
            assert(e.paths_view() =~= search_paths(hv, lv));
        }
        e
    }

    /// Puts a directory first in the search path.
    pub fn add_module_path(&mut self, path: &str)
        ensures
            final(self).paths_view() == seq![path@] + old(self).paths_view(),
            final(self).cache_view() == old(self).cache_view(),
    {
        self.module_paths.insert(0, copy_str(path));
        proof {
            assert(views(self.module_paths@) =~= seq![path@] + views(old(self).module_paths@));
        }
    }

    /// The directories searched for modules, in order.
    pub fn module_paths(&self) -> (r: &Vec<String>)
        ensures
            views(r@) == self.paths_view(),
    {
        &self.module_paths
    }
}

/// The opening of the wrapper program, up to the encoded module.
pub open spec fn wrapper_head() -> Seq<char> {
    "#!/usr/bin/env python\n# -*- coding: utf-8 -*-\n# Rustible AnsiballZ-compatible module wrapper\nimport sys\nimport os\nimport json\nimport base64\nimport tempfile\n\nMODULE_B64 = '"@
}

/// The text between the encoded module and the encoded arguments.
pub open spec fn wrapper_middle() -> Seq<char> {
    "'\nARGS_B64 = '"@
}

/// The rest of the wrapper program, after the encoded arguments.
pub open spec fn wrapper_tail() -> Seq<char> {
    "'\n\ndef main():\n    # Decode module and args\n    module_code = base64.b64decode(MODULE_B64).decode('utf-8')\n    args_json = base64.b64decode(ARGS_B64).decode('utf-8')\n    args = json.loads(args_json)\n    \n    # Create temp file for module\n    fd, module_path = tempfile.mkstemp(suffix='.py', prefix='rustible_')\n    try:\n        with os.fdopen(fd, 'w') as f:\n            f.write(module_code)\n        \n        # Set up module arguments in environment (Ansible style)\n        os.environ['ANSIBLE_MODULE_ARGS'] = args_json\n        \n        # Import and execute the module\n        import importlib.util\n        spec = importlib.util.spec_from_file_location(\"ansible_module\", module_path)\n        module = importlib.util.module_from_spec(spec)\n        \n        # Capture result\n        result = {'changed': False, 'failed': False}\n        \n        try:\n            # Many Ansible modules have a main() that returns or prints JSON\n            if hasattr(module, 'main'):\n                spec.loader.exec_module(module)\n                # Check if module.main exists after loading\n                if callable(getattr(module, 'main', None)):\n                    ret = module.main()\n                    if isinstance(ret, dict):\n                        result.update(ret)\n            else:\n                # Execute module directly\n                spec.loader.exec_module(module)\n        except SystemExit as e:\n            # Ansible modules often call exit_json/fail_json which raises SystemExit\n            pass\n        except Exception as e:\n            result['failed'] = True\n            result['msg'] = str(e)\n        \n        print(json.dumps(result))\n        \n    finally:\n        try:\n            os.unlink(module_path)\n        except:\n            pass\n\nif __name__ == '__main__':\n    main()\n"@
}

/// Wraps a module's source and its JSON arguments into one Python program
/// that decodes them, runs the module and prints its result as JSON. Both
/// travel base64-encoded, so no quoting can break the program.
pub fn bundle_script(module_source: &str, args_json: &str) -> (r: String)
    requires
        module_source.spec_bytes().len() <= usize::MAX / 2,
        args_json.spec_bytes().len() <= usize::MAX / 2,
    ensures
        r@ == wrapper_head() + base64_standard(module_source.spec_bytes()) + wrapper_middle()
            + base64_standard(args_json.spec_bytes()) + wrapper_tail(),
{
    let module_b64 = base64_encode(module_source.as_bytes());
    let args_b64 = base64_encode(args_json.as_bytes());
    let mut out = copy_str("#!/usr/bin/env python\n# -*- coding: utf-8 -*-\n# Rustible AnsiballZ-compatible module wrapper\nimport sys\nimport os\nimport json\nimport base64\nimport tempfile\n\nMODULE_B64 = '");
    out.append(module_b64.as_str());
    out.append("'\nARGS_B64 = '");
    out.append(args_b64.as_str());
    out.append("'\n\ndef main():\n    # Decode module and args\n    module_code = base64.b64decode(MODULE_B64).decode('utf-8')\n    args_json = base64.b64decode(ARGS_B64).decode('utf-8')\n    args = json.loads(args_json)\n    \n    # Create temp file for module\n    fd, module_path = tempfile.mkstemp(suffix='.py', prefix='rustible_')\n    try:\n        with os.fdopen(fd, 'w') as f:\n            f.write(module_code)\n        \n        # Set up module arguments in environment (Ansible style)\n        os.environ['ANSIBLE_MODULE_ARGS'] = args_json\n        \n        # Import and execute the module\n        import importlib.util\n        spec = importlib.util.spec_from_file_location(\"ansible_module\", module_path)\n        module = importlib.util.module_from_spec(spec)\n        \n        # Capture result\n        result = {'changed': False, 'failed': False}\n        \n        try:\n            # Many Ansible modules have a main() that returns or prints JSON\n            if hasattr(module, 'main'):\n                spec.loader.exec_module(module)\n                # Check if module.main exists after loading\n                if callable(getattr(module, 'main', None)):\n                    ret = module.main()\n                    if isinstance(ret, dict):\n                        result.update(ret)\n            else:\n                # Execute module directly\n                spec.loader.exec_module(module)\n        except SystemExit as e:\n            # Ansible modules often call exit_json/fail_json which raises SystemExit\n            pass\n        except Exception as e:\n            result['failed'] = True\n            result['msg'] = str(e)\n        \n        print(json.dumps(result))\n        \n    finally:\n        try:\n            os.unlink(module_path)\n        except:\n            pass\n\nif __name__ == '__main__':\n    main()\n");
    out
}

/// The shell word that runs a Python program: the program travels
/// base64-encoded inside a one-line `exec`.
pub fn python_shell_word(program: &str) -> (r: String)
    requires
        program.spec_bytes().len() <= usize::MAX / 2,
    ensures
        r@ == "\"import base64,sys;exec(base64.b64decode('"@ + base64_standard(program.spec_bytes()) + "').decode())\""@,
{
    let b64 = base64_encode(program.as_bytes());
    concat3("\"import base64,sys;exec(base64.b64decode('", b64.as_str(), "').decode())\"")
}

/// The JSON document in a module's output: the trimmed output from its first
/// `{` on (the whole trimmed output when there is none), so that a preamble
/// before the document is skipped.
pub open spec fn json_payload_of(stdout: Seq<char>) -> Seq<char> {
    let t = trim_ws(stdout);
    match first_index_of(t, '{') {
        Some(p) => t.skip(p),
        None => t,
    }
}

/// The message for a module whose output is not a result document: its exit
/// code and error output when it failed, else the parser's error and the output.
pub open spec fn unreadable_result_message(
    exit_code: i32,
    stderr: Seq<char>,
    module_name: Seq<char>,
    error: Seq<char>,
    stdout: Seq<char>,
) -> Seq<char> {
    if exit_code != 0 {
        "Module "@ + module_name + " failed with exit code "@ + signed_decimal(exit_code as int) + ": "@ + trim_ws(stderr)
    } else {
        "Failed to parse module "@ + module_name + " output as JSON: "@ + error + ". Output: "@ + trim_ws(stdout)
    }
}

/// The keys of a result document that the result itself reads, and so are
/// not passed on as data.
pub open spec fn reserved_key(key: Seq<char>) -> bool {
    key == "changed"@ || key == "failed"@ || key == "msg"@ || key == "skipped"@ || key == "failure_msg"@
}

impl PythonModuleExecutor {
    /// The part of a module's output that holds its result document.
    pub fn json_payload(stdout: &str) -> (r: String)
        ensures
            r@ == json_payload_of(stdout@),
    {
        let t = trim(&chars_of(stdout));
        match find_char(&t, '{') {
            Some(p) => string_of(&crate::text::sub_chars(&t, p, t.len())),
            None => string_of(&t),
        }
    }

    /// The error for a module whose output could not be read as a result
    /// document, given the parser's message.
    pub fn unreadable_result(
        exit_code: i32,
        stderr: &str,
        module_name: &str,
        error: &str,
        stdout: &str,
    ) -> (r: ModuleError)
        ensures
            r matches ModuleError::ExecutionFailed(m) && m@ == unreadable_result_message(
                exit_code,
                stderr@,
                module_name@,
                error@,
                stdout@,
            ),
    {
        if exit_code != 0 {
            let mut m = concat3("Module ", module_name, " failed with exit code ");
            m.append(format_i64(exit_code as i64).as_str());
            m.append(": ");
            m.append(string_of(&trim(&chars_of(stderr))).as_str());
            ModuleError::ExecutionFailed(m)
        } else {
            let mut m = concat3("Failed to parse module ", module_name, " output as JSON: ");
            m.append(error);
            m.append(". Output: ");
            m.append(string_of(&trim(&chars_of(stdout))).as_str());
            ModuleError::ExecutionFailed(m)
        }
    }

    /// What a module's result says: a failed module is an error with its
    /// message (`Module failed` without one); otherwise whether it changed
    /// something and its message, `Module <name> executed successfully`
    /// without one.
    pub fn result_outcome(
        failed: bool,
        changed: bool,
        msg: Option<&str>,
        module_name: &str,
    ) -> (r: ModuleResult<(bool, String)>)
        ensures
            failed ==> (r matches Err(ModuleError::ExecutionFailed(m)) && m@ == match msg {
                Some(t) => t@,
                None => "Module failed"@,
            }),
            !failed ==> (r matches Ok((c, m)) && c == changed && m@ == match msg {
                Some(t) => t@,
                None => "Module "@ + module_name@ + " executed successfully"@,
            }),
    {
        if failed {
            return Err(ModuleError::ExecutionFailed(match msg {
                Some(t) => copy_str(t),
                None => copy_str("Module failed"),
            }));
        }
        let m = match msg {
            Some(t) => copy_str(t),
            None => concat3("Module ", module_name, " executed successfully"),
        };
        Ok((changed, m))
    }

    /// Whether a key of a result document is one the result itself reads,
    /// and so is not passed on as data.
    pub fn is_reserved_key(key: &str) -> (r: bool)
        ensures
            r == reserved_key(key@),
    {
        str_equal(key, "changed") || str_equal(key, "failed") || str_equal(key, "msg") || str_equal(key, "skipped")
            || str_equal(key, "failure_msg")
    }
}

} // verus!
