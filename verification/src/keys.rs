//! Keys: the strings that candidates and store rows are compared by.

use vstd::prelude::*;

verus! {

/// A key as contracts see it: the characters of an address string.
pub type Key = Seq<char>;

/// The keys of a list of strings, in order.
pub open spec fn keys_of(strings: Seq<String>) -> Seq<Key> {
    strings.map_values(|s: String| s@)
}

} // verus!
