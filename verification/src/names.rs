//! Output files and the rule that completes their names.

use vstd::prelude::*;
use vstd::string::*;

verus! {

/// One file of the icon set: its name inside the target directory and its
/// bytes.
#[derive(Debug)]
pub struct NamedFile {
    pub name: String,
    pub bytes: Vec<u8>,
}

/// `name` as it is, if it holds a dot anywhere; else `name` followed by
/// `extension`.
pub open spec fn completed_name(name: Seq<char>, extension: Seq<char>) -> Seq<char> {
    if name.contains('.') {
        name
    } else {
        name + extension
    }
}

/// Whether `name` holds a dot.
pub fn has_dot(name: &str) -> (r: bool)
    ensures
        r == name@.contains('.'),
{
    let n: usize = name.unicode_len();
    let mut i: usize = 0;
    while i < n
        invariant
            0 <= i <= n,
            n == name@.len(),
            forall|j: int| 0 <= j < i ==> name@[j] != '.',
        decreases n - i,
    {
        if name.get_char(i) == '.' {
            return true;
        }
        i = i + 1;
    }
    false
}

/// Appends `extension` to `name` unless `name` already holds a dot.
pub fn with_default_extension(name: &str, extension: &str) -> (r: String)
    ensures
        r@ == completed_name(name@, extension@),
{
    let mut full = String::from_str(name);
    if !has_dot(name) {
        full.append(extension);
    }
    full
}

} // verus!
