//! Stable names of configured indicators.

use vstd::prelude::*;
use vstd::string::StrSliceExecFns;
use crate::text::{concat3, join, join_strings, owned, remove_chars, remove_each, replace_chars, replace_each, views};

verus! {

/// The arguments joined with `_`, with `.` written `p`, `-` written `n`, and
/// spaces removed.
pub open spec fn sanitized_args(args: Seq<Seq<char>>) -> Seq<char> {
    remove_each(replace_each(replace_each(join(args, "_"@), seq!['.'], 'p'), seq!['-'], 'n'), seq![' '])
}

/// The name of an indicator configured with `args`: the acronym alone when
/// the sanitized arguments are empty, else `acronym_args`.
pub open spec fn deterministic_name(acronym: Seq<char>, args: Seq<Seq<char>>) -> Seq<char> {
    let s = sanitized_args(args);
    if s.len() == 0 { acronym } else { acronym + "_"@ + s }
}

/// A stable name for an indicator built from its acronym and arguments, such
/// as `SMA_20` or `BB_20_2p0`.
pub fn indicator_deterministic_name(acronym: &str, args: &Vec<String>) -> (r: String)
    ensures
        r@ == deterministic_name(acronym@, views(args@)),
{
    let joined = join_strings(args, "_");
    let dots = vec!['.'];
    let minus = vec!['-'];
    let space = vec![' '];
    let a = replace_chars(joined.as_str(), &dots, 'p');
    let b = replace_chars(a.as_str(), &minus, 'n');
    let sanitized = remove_chars(b.as_str(), &space);
    assert(dots@ =~= seq!['.']);
    assert(minus@ =~= seq!['-']);
    assert(space@ =~= seq![' ']);
    if sanitized.unicode_len() == 0 {
        owned(acronym)
    } else {
        concat3(acronym, "_", sanitized.as_str())
    }
}

} // verus!
