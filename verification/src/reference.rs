//! The text inserted on accept: `@"<absolute path>"`.

use vstd::prelude::*;
use vstd::string::*;

verus! {

/// The insertion text for an absolute path: a literal `@`, then the path
/// wrapped in double quotes.
pub open spec fn at_quoted_spec(abs: Seq<char>) -> Seq<char> {
    seq!['@', '"'] + abs + seq!['"']
}

/// Build the insertion string. Always quoted, even without spaces.
pub fn at_quoted(abs: &str) -> (r: String)
    ensures
        r@ == at_quoted_spec(abs@),
{
    let mut s = String::from_str("@\"");
    s.append(abs);
    s.append("\"");
    proof {
        reveal_strlit("@\"");
        reveal_strlit("\"");
    }
    assert(s@ =~= at_quoted_spec(abs@));
    s
}

} // verus!
