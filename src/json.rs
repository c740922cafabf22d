//! A structured document as read from a configuration file.

use vstd::prelude::*;

verus! {

/// One value of a structured (JSON) document.
///
/// Numbers are kept as the configuration model reads them: a non-negative
/// integer that fits in 64 bits is held exactly, any other number only by
/// its text.
#[derive(Debug)]
pub enum Json {
    Null,
    Bool(bool),
    Unsigned(u64),
    OtherNumber(String),
    Str(String),
    Array(Vec<Json>),
    Object(Vec<(String, Json)>),
}

/// The value stored under `key` in the members of an object. Where a key
/// occurs more than once, its last occurrence counts.
pub open spec fn member(fields: Seq<(String, Json)>, key: Seq<char>) -> Option<Json>
    decreases fields.len(),
{
    if fields.len() == 0 {
        None
    } else if fields.last().0@ == key {
        Some(fields.last().1)
    } else {
        member(fields.drop_last(), key)
    }
}

/// Looks up the value stored under `key` among the members of an object.
pub fn get_member<'a>(fields: &'a Vec<(String, Json)>, key: &str) -> (r: Option<&'a Json>)
    ensures
        match r {
            Some(j) => member(fields@, key@) == Some(*j),
            None => member(fields@, key@) is None,
        },
{
    let wanted = key.to_owned();
    let mut found: Option<&'a Json> = None;
    let mut i: usize = 0;
    while i < fields.len()
        invariant
            i <= fields@.len(),
            wanted@ == key@,
            match found {
                Some(j) => member(fields@.subrange(0, i as int), key@) == Some(*j),
                None => member(fields@.subrange(0, i as int), key@) is None,
            },
        decreases fields@.len() - i,
    {
        let ghost prefix = fields@.subrange(0, i as int + 1);
        assert(prefix.drop_last() =~= fields@.subrange(0, i as int));
        if fields[i].0 == wanted {
            found = Some(&fields[i].1);
        }
        i = i + 1;
    }
    assert(fields@.subrange(0, fields@.len() as int) =~= fields@);
    found
}

} // verus!
