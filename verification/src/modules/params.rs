//! Reading module parameters. A parameter's value is a JSON value, and each
//! reader takes it as the type the module needs: strings, booleans written
//! in several ways, integers written as numbers or text, and lists.
use vstd::prelude::*;
use crate::inventory::data::Data;
use crate::numbers::{decimal, format_decimal, format_i64, parse_i64, parse_unsigned, parse_unsigned_spec, signed_decimal, signed_literal};
use crate::text::{
    chars_of, concat2, copy_str, split_char, split_on, str_equal, str_to_lowercase, string_of, trim, trim_end_char,
    trim_end_matches, trim_start_char, trim_start_matches, trim_ws, lowercase, views,
};
use super::{ModuleError, ModuleResult};

verus! {

/// A module's parameters: each name with its JSON value.
pub type ModuleParams = Vec<(String, Data)>;

/// The value of the first parameter of a name.
pub open spec fn param_value(params: Seq<(String, Data)>, key: Seq<char>) -> Option<Data>
    decreases params.len(),
{
    if params.len() == 0 {
        None
    } else if params[0].0@ == key {
        Some(params[0].1)
    } else {
        param_value(params.drop_first(), key)
    }
}

proof fn lemma_param_value(params: Seq<(String, Data)>, key: Seq<char>, i: int)
    requires
        0 <= i <= params.len(),
        forall|k: int| 0 <= k < i ==> (#[trigger] params[k]).0@ != key,
        i < params.len() ==> params[i].0@ == key,
    ensures
        param_value(params, key) == if i < params.len() { Some(params[i].1) } else { None },
    decreases params.len(),
{
    if params.len() > 0 {
        let rest = params.drop_first();
        if params[0].0@ != key {
            assert forall|k: int| 0 <= k < i - 1 implies (#[trigger] rest[k]).0@ != key by {
                assert(rest[k] == params[k + 1]);
            }
            if i > 0 {
                lemma_param_value(rest, key, i - 1);
            } else {
                lemma_param_value(rest, key, 0);
            }
        }
    }
}

/// The JSON text of a value.
pub open spec fn json_text(d: Data) -> Seq<char> {
    match d {
        Data::Null => "null"@,
        Data::Bool(b) => if b { "true"@ } else { "false"@ },
        Data::Int(i) => signed_decimal(i as int),
        Data::UInt(u) => decimal(u as nat),
        Data::Float(t) => t@,
        Data::Str(s) => s@,
        Data::List(_, t) => t@,
        Data::Mapping(_, t) => t@,
        Data::Tagged(t) => t@,
    }
}

/// The text a value gives: a string as it is, any other value as its JSON
/// text without surrounding double quotes.
pub open spec fn value_text(d: Data) -> Seq<char> {
    match d {
        Data::Str(s) => s@,
        _ => trim_end_char(trim_start_char(json_text(d), '"'), '"'),
    }
}

/// A lowercased word that means true, or false, for a boolean parameter.
pub open spec fn bool_word(lower: Seq<char>) -> Option<bool> {
    if lower == "true"@ || lower == "yes"@ || lower == "1"@ || lower == "on"@ {
        Some(true)
    } else if lower == "false"@ || lower == "no"@ || lower == "0"@ || lower == "off"@ {
        Some(false)
    } else {
        None
    }
}

/// The items of a list parameter: a list's items by their texts, or the
/// comma-separated pieces of a string, each trimmed.
pub open spec fn list_items(d: Data) -> Option<Seq<Seq<char>>> {
    match d {
        Data::List(items, _) => Some(items@.map_values(|x: Data| value_text(x))),
        Data::Str(s) => Some(split_char(s@, ',').map_values(|p: Seq<char>| trim_ws(p))),
        _ => None,
    }
}

/// The integer an integer parameter's value gives: a JSON integer that fits
/// `i64`, or a text `str::parse` reads as one.
pub open spec fn i64_value(d: Data) -> Option<i64> {
    match d {
        Data::Int(i) => Some(i),
        Data::Str(s) => match signed_literal(s@) {
            Some(v) => if i64::MIN <= v <= i64::MAX { Some(v as i64) } else { None },
            None => None,
        },
        _ => None,
    }
}

/// The text of a parameter, if it is given.
pub open spec fn text_param(params: Seq<(String, Data)>, key: Seq<char>) -> Option<Seq<char>> {
    match param_value(params, key) {
        Some(d) => Some(value_text(d)),
        None => None,
    }
}

/// The value of a boolean parameter, `default` when it is missing or unreadable.
pub open spec fn bool_param_or(params: Seq<(String, Data)>, key: Seq<char>, default: bool) -> bool {
    match param_value(params, key) {
        Some(Data::Bool(b)) => b,
        Some(Data::Str(s)) => match bool_word(lowercase(s@)) {
            Some(b) => b,
            None => default,
        },
        _ => default,
    }
}

/// Finds the first parameter of a name.
pub(crate) fn find_param(params: &ModuleParams, key: &str) -> (r: Option<usize>)
    ensures
        match r {
            Some(i) => i < params@.len() && param_value(params@, key@) == Some(params@[i as int].1),
            None => param_value(params@, key@) is None,
        },
{
    let mut i: usize = 0;
    while i < params.len()
        invariant
            i <= params@.len(),
            forall|k: int| 0 <= k < i ==> (#[trigger] params@[k]).0@ != key@,
        decreases params@.len() - i,
    {
        if str_equal(params[i].0.as_str(), key) {
            proof {
                lemma_param_value(params@, key@, i as int);
            }
            return Some(i);
        }
        i = i + 1;
    }
    proof {
        lemma_param_value(params@, key@, params@.len() as int);
    }
    None
}

/// The JSON text of a value.
fn json_text_of(d: &Data) -> (r: String)
    ensures
        r@ == json_text(*d),
{
    match d {
        Data::Null => copy_str("null"),
        Data::Bool(b) => if *b { copy_str("true") } else { copy_str("false") },
        Data::Int(i) => format_i64(*i),
        Data::UInt(u) => format_decimal(*u),
        Data::Float(t) => copy_str(t.as_str()),
        Data::Str(s) => copy_str(s.as_str()),
        Data::List(_, t) => copy_str(t.as_str()),
        Data::Mapping(_, t) => copy_str(t.as_str()),
        Data::Tagged(t) => copy_str(t.as_str()),
    }
}

/// The text a value gives.
pub fn value_text_of(d: &Data) -> (r: String)
    ensures
        r@ == value_text(*d),
{
    match d {
        Data::Str(s) => copy_str(s.as_str()),
        _ => {
            let t = chars_of(json_text_of(d).as_str());
            string_of(&trim_end_matches(&trim_start_matches(&t, '"'), '"'))
        },
    }
}

/// The reading of a module's parameters.
pub trait ParamExt {
    /// A parameter as text.
    fn get_string(&self, key: &str) -> ModuleResult<Option<String>>;

    /// A parameter that must be given, as text.
    fn get_string_required(&self, key: &str) -> ModuleResult<String>;

    /// A boolean parameter.
    fn get_bool(&self, key: &str) -> ModuleResult<Option<bool>>;

    /// A boolean parameter, with a default for a missing or unreadable one.
    fn get_bool_or(&self, key: &str, default: bool) -> bool;

    /// An integer parameter.
    fn get_i64(&self, key: &str) -> ModuleResult<Option<i64>>;

    /// A non-negative integer parameter that fits `u32`.
    fn get_u32(&self, key: &str) -> ModuleResult<Option<u32>>;

    /// A list parameter.
    fn get_vec_string(&self, key: &str) -> ModuleResult<Option<Vec<String>>>;
}

impl ParamExt for ModuleParams {
    fn get_string(&self, key: &str) -> (r: ModuleResult<Option<String>>)
        ensures
            match param_value(self@, key@) {
                None => r matches Ok(None),
                Some(d) => r matches Ok(Some(s)) && s@ == value_text(d),
            },
    {
        match find_param(self, key) {
            None => Ok(None),
            Some(i) => Ok(Some(value_text_of(&self[i].1))),
        }
    }

    fn get_string_required(&self, key: &str) -> (r: ModuleResult<String>)
        ensures
            match param_value(self@, key@) {
                None => r matches Err(ModuleError::MissingParameter(m)) && m@ == key@,
                Some(d) => r matches Ok(s) && s@ == value_text(d),
            },
    {
        match find_param(self, key) {
            None => Err(ModuleError::MissingParameter(copy_str(key))),
            Some(i) => Ok(value_text_of(&self[i].1)),
        }
    }

    fn get_bool(&self, key: &str) -> (r: ModuleResult<Option<bool>>)
        ensures
            match param_value(self@, key@) {
                None => r matches Ok(None),
                Some(Data::Bool(b)) => r matches Ok(Some(x)) && x == b,
                Some(Data::Str(s)) => match bool_word(lowercase(s@)) {
                    Some(b) => r matches Ok(Some(x)) && x == b,
                    None => r matches Err(ModuleError::InvalidParameter(m)) && m@ == key@ + " must be a boolean"@,
                },
                Some(_) => r matches Err(ModuleError::InvalidParameter(m)) && m@ == key@ + " must be a boolean"@,
            },
    {
        match find_param(self, key) {
            None => Ok(None),
            Some(i) => match &self[i].1 {
                Data::Bool(b) => Ok(Some(*b)),
                Data::Str(s) => {
                    let l = str_to_lowercase(s.as_str());
                    let w = l.as_str();
                    if str_equal(w, "true") || str_equal(w, "yes") || str_equal(w, "1") || str_equal(w, "on") {
                        Ok(Some(true))
                    } else if str_equal(w, "false") || str_equal(w, "no") || str_equal(w, "0") || str_equal(w, "off") {
                        Ok(Some(false))
                    } else {
                        Err(ModuleError::InvalidParameter(concat2(key, " must be a boolean")))
                    }
                },
                _ => Err(ModuleError::InvalidParameter(concat2(key, " must be a boolean"))),
            },
        }
    }

    fn get_bool_or(&self, key: &str, default: bool) -> (r: bool)
        ensures
            r == match param_value(self@, key@) {
                Some(Data::Bool(b)) => b,
                Some(Data::Str(s)) => match bool_word(lowercase(s@)) {
                    Some(b) => b,
                    None => default,
                },
                _ => default,
            },
    {
        match self.get_bool(key) {
            Ok(Some(b)) => b,
            _ => default,
        }
    }

    fn get_i64(&self, key: &str) -> (r: ModuleResult<Option<i64>>)
        ensures
            match param_value(self@, key@) {
                None => r matches Ok(None),
                Some(Data::Int(i)) => r matches Ok(Some(x)) && x == i,
                Some(Data::Str(s)) => match signed_literal(s@) {
                    Some(v) => if i64::MIN <= v <= i64::MAX {
                        r matches Ok(Some(x)) && x == v
                    } else {
                        r matches Err(ModuleError::InvalidParameter(m)) && m@ == key@ + " must be an integer"@
                    },
                    None => r matches Err(ModuleError::InvalidParameter(m)) && m@ == key@ + " must be an integer"@,
                },
                Some(_) => r matches Err(ModuleError::InvalidParameter(m)) && m@ == key@ + " must be an integer"@,
            },
    {
        match find_param(self, key) {
            None => Ok(None),
            Some(i) => match &self[i].1 {
                Data::Int(v) => Ok(Some(*v)),
                Data::Str(s) => match parse_i64(&chars_of(s.as_str())) {
                    Some(v) => Ok(Some(v)),
                    None => Err(ModuleError::InvalidParameter(concat2(key, " must be an integer"))),
                },
                _ => Err(ModuleError::InvalidParameter(concat2(key, " must be an integer"))),
            },
        }
    }

    fn get_u32(&self, key: &str) -> (r: ModuleResult<Option<u32>>)
        ensures
            match param_value(self@, key@) {
                None => r matches Ok(None),
                Some(Data::Int(i)) => if 0 <= i <= u32::MAX {
                    r matches Ok(Some(x)) && x == i
                } else {
                    r matches Err(ModuleError::InvalidParameter(m)) && m@ == key@ + " must be a positive integer"@
                },
                Some(Data::Str(s)) => match parse_unsigned_spec(s@, u32::MAX as nat) {
                    Some(v) => r matches Ok(Some(x)) && x == v,
                    None => r matches Err(ModuleError::InvalidParameter(m)) && m@ == key@ + " must be a positive integer"@,
                },
                Some(_) => r matches Err(ModuleError::InvalidParameter(m)) && m@ == key@ + " must be a positive integer"@,
            },
    {
        match find_param(self, key) {
            None => Ok(None),
            Some(i) => match &self[i].1 {
                Data::Int(v) => if 0 <= *v && *v <= 0xffff_ffff {
                    Ok(Some(*v as u32))
                } else {
                    Err(ModuleError::InvalidParameter(concat2(key, " must be a positive integer")))
                },
                Data::Str(s) => match parse_unsigned(&chars_of(s.as_str()), 0xffff_ffffu64) {
                    Some(v) => Ok(Some(v as u32)),
                    None => Err(ModuleError::InvalidParameter(concat2(key, " must be a positive integer"))),
                },
                _ => Err(ModuleError::InvalidParameter(concat2(key, " must be a positive integer"))),
            },
        }
    }

    fn get_vec_string(&self, key: &str) -> (r: ModuleResult<Option<Vec<String>>>)
        ensures
            match param_value(self@, key@) {
                None => r matches Ok(None),
                Some(d) => match list_items(d) {
                    Some(items) => r matches Ok(Some(v)) && views(v@) == items,
                    None => r matches Err(ModuleError::InvalidParameter(m)) && m@ == key@ + " must be an array"@,
                },
            },
    {
        match find_param(self, key) {
            None => Ok(None),
            Some(i) => match &self[i].1 {
                Data::List(items, _) => {
                    let ghost want = items@.map_values(|x: Data| value_text(x));
                    let mut out: Vec<String> = Vec::new();
                    let mut j: usize = 0;
                    while j < items.len()
                        invariant
                            j <= items@.len(),
                            want == items@.map_values(|x: Data| value_text(x)),
                            views(out@) == want.take(j as int),
                        decreases items@.len() - j,
                    {
                        let ghost prev = out@;
                        let t = value_text_of(&items[j]);
                        out.push(t);
                        proof {
                            assert(views(out@) =~= views(prev).push(want[j as int]));
                            assert(want.take(j + 1) =~= want.take(j as int).push(want[j as int]));
                        }
                        j = j + 1;
                    }
                    proof {
                        assert(want.take(items@.len() as int) =~= want);
                    }
                    Ok(Some(out))
                },
                Data::Str(s) => {
                    let pieces = split_on(&chars_of(s.as_str()), ',');
                    let ghost ps = pieces@.map_values(|l: Vec<char>| l@);
                    let ghost want = split_char(s@, ',').map_values(|p: Seq<char>| trim_ws(p));
                    let mut out: Vec<String> = Vec::new();
                    let mut j: usize = 0;
                    while j < pieces.len()
                        invariant
                            j <= pieces@.len(),
                            ps == pieces@.map_values(|l: Vec<char>| l@),
                            ps == split_char(s@, ','),
                            want == split_char(s@, ',').map_values(|p: Seq<char>| trim_ws(p)),
                            views(out@) == want.take(j as int),
                        decreases pieces@.len() - j,
                    {
                        let ghost prev = out@;
                        let t = string_of(&trim(&pieces[j]));
                        out.push(t);
                        proof {
                            assert(ps[j as int] == pieces@[j as int]@);
                            assert(views(out@) =~= views(prev).push(want[j as int]));
                            assert(want.take(j + 1) =~= want.take(j as int).push(want[j as int]));
                        }
                        j = j + 1;
                    }
                    proof {
                        assert(want.take(pieces@.len() as int) =~= want);
                    }
                    Ok(Some(out))
                },
                _ => Err(ModuleError::InvalidParameter(concat2(key, " must be an array"))),
            },
        }
    }
}

} // verus!
