//! Tag names that stand for one logical field in both feed vocabularies.

use vstd::prelude::*;
use vstd::string::StringExecFns;

verus! {

/// Elements that hold the main text of an entry.
pub const KEYS_CONTENT: [&'static str; 2] = ["content", "description"];

/// Elements that hold the date of an entry.
pub const KEYS_DATE: [&'static str; 4] = ["published", "updated", "pubDate", "date"];

/// Elements that open an entry.
pub const KEYS_ENTRY: [&'static str; 2] = ["entry", "item"];

/// Elements that hold the title of an entry.
pub const KEYS_TITLE: [&'static str; 1] = ["title"];

/// The names of an alias set, each as a sequence of characters.
pub open spec fn names_of(keys: Seq<&str>) -> Seq<Seq<char>> {
    keys.map_values(|key: &str| key@)
}

/// The names of an alias set that is held as owned strings.
pub open spec fn names_in(keys: Seq<String>) -> Seq<Seq<char>> {
    keys.map_values(|key: String| key@)
}

/// An owned copy of an alias set.
pub fn own_keys(keys: &[&str]) -> (owned: Vec<String>)
    ensures
        names_in(owned@) == names_of(keys@),
{
    let mut owned: Vec<String> = Vec::new();
    let mut i: usize = 0;
    while i < keys.len()
        invariant
            i <= keys.len(),
            owned.len() == i,
            forall|j: int| 0 <= j < i ==> owned@[j]@ == keys@[j]@,
        decreases keys.len() - i,
    {
        owned.push(String::from_str(keys[i]));
        i += 1;
    }
    owned
}

/// Membership in an alias set: exact and case-sensitive.
pub fn is_key(keys: &Vec<String>, name: &String) -> (member: bool)
    ensures
        member == names_in(keys@).contains(name@),
{
    let mut i: usize = 0;
    while i < keys.len()
        invariant
            i <= keys.len(),
            forall|j: int| 0 <= j < i ==> names_in(keys@)[j] != name@,
        decreases keys.len() - i,
    {
        if keys[i] == *name {
            assert(names_in(keys@)[i as int] == name@);
            return true;
        }
        i += 1;
    }
    false
}

} // verus!
