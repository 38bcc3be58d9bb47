use vstd::prelude::*;
use vstd::string::StrSliceExecFns;

verus! {

/// Strips the first and last character from a lexeme, as when recovering
/// the contents of a quoted string literal.  A text shorter than two
/// characters comes back empty.
///
/// The concrete grammar that turns a token stream into a tree lives in an
/// external parser; this helper serves it.
pub fn to_raw_string(string: &str) -> (r: &str)
    ensures
        string@.len() >= 2 ==> r@ == string@.subrange(1, string@.len() - 1),
        string@.len() < 2 ==> r@ == Seq::<char>::empty(),
{
    let n = string.unicode_len();
    if n >= 2 {
        string.substring_char(1, n - 1)
    } else {
        let empty = string.substring_char(0, 0);
        proof {
            assert(string@.subrange(0, 0) =~= Seq::<char>::empty());
        }
        empty
    }
}

} // verus!
