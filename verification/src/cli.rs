//! Reading the command line.

use vstd::prelude::*;
use crate::text::str_eq;
use crate::installer::flag_value_from;
use crate::utils::opt_view;

verus! {

/// Whether some argument is `a`.
pub open spec fn has_arg(args: Seq<String>, a: Seq<char>) -> bool {
    exists|i: int| 0 <= i < args.len() && #[trigger] args[i]@ == a
}

/// Whether some argument is `a`.
pub fn any_arg(args: &[String], a: &str) -> (r: bool)
    ensures
        r == has_arg(args@, a@),
{
    let mut i: usize = 0;
    while i < args.len()
        invariant
            i <= args@.len(),
            forall|j: int| 0 <= j < i ==> args@[j]@ != a@,
        decreases args.len() - i,
    {
        if str_eq(args[i].as_str(), a) {
            return true;
        }
        i = i + 1;
    }
    false
}

/// The value after the first `flag` that has one.
pub fn parse_str_flag(args: &[String], flag: &str) -> (r: Option<String>)
    ensures
        opt_view(r) == flag_value_from(args@, flag@, 0),
{
    let mut i: usize = 0;
    while i < args.len()
        invariant
            i <= args@.len(),
            flag_value_from(args@, flag@, i as int) == flag_value_from(args@, flag@, 0),
        decreases args.len() - i,
    {
        if str_eq(args[i].as_str(), flag) && i + 1 < args.len() {
            return Some(args[i + 1].clone());
        }
        i = i + 1;
    }
    None
}

} // verus!
