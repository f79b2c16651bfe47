//! Values that clients write in several ways.

use vstd::prelude::*;

use crate::registry;
use crate::text::same;

verus! {

/// A boolean of a query string: `1`, `true`, `True` and the empty text are true, `0`,
/// `false` and `False` are false, and a missing one is left to the caller.
pub open spec fn query_bool(s: Option<Seq<char>>) -> Result<Option<bool>, Seq<char>> {
    match s {
        None => Ok(None),
        Some(t) => if t == "1"@ || t == "true"@ || t == "True"@ || t.len() == 0 {
            Ok(Some(true))
        } else if t == "0"@ || t == "false"@ || t == "False"@ {
            Ok(Some(false))
        } else {
            Err("provided string was not `true` or `false`: "@ + t)
        },
    }
}

pub fn flexible_bool(s: Option<&str>) -> (r: Result<Option<bool>, String>)
    ensures
        match r {
            Ok(b) => query_bool(registry::opt_str(s)) == Ok::<Option<bool>, Seq<char>>(b),
            Err(e) => query_bool(registry::opt_str(s)) == Err::<Option<bool>, Seq<char>>(e@),
        },
{
    match s {
        None => Ok(None),
        Some(t) => {
            if same(t, "1") || same(t, "true") || same(t, "True") || t.is_empty() {
                Ok(Some(true))
            } else if same(t, "0") || same(t, "false") || same(t, "False") {
                Ok(Some(false))
            } else {
                let mut e: String = "provided string was not `true` or `false`: ".to_owned();
                e.append(t);
                Err(e)
            }
        },
    }
}

} // verus!
