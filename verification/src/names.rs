//! Sets of names kept in vectors: a name is added once, and removing a name
//! removes every copy of it.
use vstd::prelude::*;
use crate::text::{copy_str, str_equal, views};

verus! {

broadcast use vstd::seq_lib::group_seq_properties;

/// Whether a name is among the given ones.
pub fn contains_name(names: &[String], name: &str) -> (r: bool)
    ensures
        r == views(names@).contains(name@),
{
    let mut i: usize = 0;
    while i < names.len()
        invariant
            i <= names@.len(),
            forall|k: int| 0 <= k < i ==> names@[k]@ != name@,
        decreases names@.len() - i,
    {
        if str_equal(names[i].as_str(), name) {
            proof {
                assert(views(names@)[i as int] == name@);
            }
            return true;
        }
        i = i + 1;
    }
    proof {
        if views(names@).contains(name@) {
            let k = choose|k: int| 0 <= k < views(names@).len() && views(names@)[k] == name@;
            assert(names@[k]@ == name@);
        }
    }
    false
}

/// Adds a name unless it is there already.
pub fn insert_name(names: &mut Vec<String>, name: &str)
    ensures
        views(final(names)@) == if views(old(names)@).contains(name@) {
            views(old(names)@)
        } else {
            views(old(names)@).push(name@)
        },
{
    if !contains_name(names.as_slice(), name) {
        let ghost before = views(names@);
        names.push(copy_str(name));
        proof {
            assert(views(names@) =~= before.push(name@));
        }
    }
}

/// Removes every copy of a name, and says whether there was one.
pub fn remove_name(names: &mut Vec<String>, name: &str) -> (r: bool)
    ensures
        views(final(names)@) == views(old(names)@).filter(|g: Seq<char>| g != name@),
        r == views(old(names)@).contains(name@),
{
    let ghost pred = |g: Seq<char>| g != name@;
    let mut kept: Vec<String> = Vec::new();
    let mut found = false;
    let mut i: usize = 0;
    while i < names.len()
        invariant
            i <= names@.len(),
            pred == (|g: Seq<char>| g != name@),
            views(kept@) == views(names@.take(i as int)).filter(pred),
            found == views(names@.take(i as int)).contains(name@),
        decreases names@.len() - i,
    {
        let ghost before = kept@;
        proof {
            assert(views(names@.take(i + 1)) =~= views(names@.take(i as int)).push(names@[i as int]@));
            views(names@.take(i as int)).lemma_filter_push(names@[i as int]@, pred);
        }
        if !str_equal(names[i].as_str(), name) {
            kept.push(names[i].clone());
            proof {
                assert(pred(names@[i as int]@));
                assert(views(kept@) =~= views(before).push(names@[i as int]@));
            }
        } else {
            found = true;
            proof {
                assert(!pred(names@[i as int]@));
            }
        }
        proof {
            let t = views(names@.take(i + 1));
            if found {
                if views(names@.take(i as int)).contains(name@) {
                    let k = choose|k: int| 0 <= k < i && views(names@.take(i as int))[k] == name@;
                    assert(t[k] == name@);
                } else {
                    assert(t[i as int] == name@);
                }
            } else {
                assert forall|k: int| 0 <= k < t.len() implies t[k] != name@ by {
                    if k < i {
                        assert(t[k] == views(names@.take(i as int))[k]);
                    }
                }
            }
        }
        i = i + 1;
    }
    proof {
        assert(names@.take(names@.len() as int) =~= names@);
    }
    *names = kept;
    found
}

} // verus!
