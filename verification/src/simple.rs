//! A greeting, to try the library out.

use vstd::prelude::*;

verus! {

/// The greeting for `name`.
pub open spec fn greeting(name: Seq<char>) -> Seq<char> {
    "Hello, "@ + name + "!"@
}

/// Greets `name`.
pub fn greet(name: String) -> (r: String)
    ensures
        r@ == greeting(name@),
{
    let mut out = String::new();
    out.append("Hello, ");
    out.append(name.as_str());
    out.append("!");
    assert(out@ =~= greeting(name@));
    out
}

} // verus!
