//! The text of per-experiment log files: which spans carry a log file, where
//! the file is, and how each event is written as a line.

use vstd::prelude::*;
use vstd::string::StrSliceExecFns;
use crate::text::{chars_of, concat, concat3, owned, str_eq, string_of_range};

verus! {

/// The span name used to scope per-experiment logging.
pub const EXPERIMENT_SPAN: &'static str = "experiment";

/// Field name carrying the absolute path of the per-experiment log file.
pub const LOG_PATH_FIELD: &'static str = "log_path";

/// Whether a span is an experiment span.
pub fn is_experiment_span(name: &str) -> (r: bool)
    ensures
        r == (name@ == EXPERIMENT_SPAN@),
{
    str_eq(name, EXPERIMENT_SPAN)
}

/// An event's body after one more field: the `message` field is appended
/// bare; any other field as `name=value`, after a space when the body is not
/// empty.
pub open spec fn with_field(body: Seq<char>, name: Seq<char>, value: Seq<char>) -> Seq<char> {
    if name == "message"@ {
        body + value
    } else if body.len() == 0 {
        name + "="@ + value
    } else {
        body + " "@ + name + "="@ + value
    }
}

/// Append a field, given its rendered value, to an event's body.
pub fn append_field(body: &mut String, name: &str, value: &str)
    ensures
        final(body)@ == with_field(old(body)@, name@, value@),
{
    if str_eq(name, "message") {
        let next = concat(body.as_str(), value);
        *body = next;
    } else {
        let pair = concat3(name, "=", value);
        let next = if body.unicode_len() == 0 {
            pair
        } else {
            concat3(body.as_str(), " ", pair.as_str())
        };
        *body = next;
    }
}

/// `s` with every leading and trailing `"` removed (`trim_matches('"')`).
pub open spec fn trim_quotes(s: Seq<char>) -> Seq<char>
    decreases s.len(),
{
    if s.len() > 0 && s[0] == '"' {
        trim_quotes(s.drop_first())
    } else if s.len() > 0 && s.last() == '"' {
        trim_quotes(s.drop_last())
    } else {
        s
    }
}

/// The log file path carried by a span field, if this is the path field: a
/// plain string value as it is, a `Debug`-rendered value without its
/// surrounding quotes.
pub fn log_path_value(name: &str, value: &str, debug_rendered: bool) -> (r: Option<String>)
    ensures
        name@ != LOG_PATH_FIELD@ ==> r is None,
        name@ == LOG_PATH_FIELD@ && !debug_rendered ==> r is Some && r->Some_0@ == value@,
        name@ == LOG_PATH_FIELD@ && debug_rendered ==> r is Some && r->Some_0@ == trim_quotes(value@),
{
    if !str_eq(name, LOG_PATH_FIELD) {
        return None;
    }
    if !debug_rendered {
        return Some(owned(value));
    }
    let cs = chars_of(value);
    let mut lo: usize = 0;
    let mut hi: usize = cs.len();
    assert(value@.subrange(0, cs.len() as int) =~= value@);
    while lo < hi && cs[lo] == '"'
        invariant
            lo <= hi == cs.len(),
            cs@ == value@,
            trim_quotes(value@) == trim_quotes(value@.subrange(lo as int, hi as int)),
        decreases hi - lo,
    {
        assert(value@.subrange(lo as int, hi as int).drop_first() =~= value@.subrange(lo + 1, hi as int));
        lo = lo + 1;
    }
    while lo < hi && cs[hi - 1] == '"'
        invariant
            lo <= hi <= cs.len(),
            cs@ == value@,
            lo < hi ==> cs@[lo as int] != '"',
            trim_quotes(value@) == trim_quotes(value@.subrange(lo as int, hi as int)),
        decreases hi - lo,
    {
        let ghost t = value@.subrange(lo as int, hi as int);
        assert(t[0] == cs@[lo as int]);
        assert(t.drop_last() =~= value@.subrange(lo as int, hi - 1));
        hi = hi - 1;
    }
    proof {
        let t = value@.subrange(lo as int, hi as int);
        if t.len() > 0 {
            assert(t[0] == cs@[lo as int]);
            assert(t.last() == cs@[hi - 1]);
        }
    }
    Some(string_of_range(&cs, lo, hi))
}

/// `s` padded on the right with spaces to at least `width` characters.
pub open spec fn pad_right(s: Seq<char>, width: nat) -> Seq<char> {
    if s.len() >= width {
        s
    } else {
        s + Seq::new((width - s.len()) as nat, |i: int| ' ')
    }
}

/// One line of an experiment log: time stamp, level padded to five
/// characters, target, and body.
pub open spec fn log_line_spec(ts: Seq<char>, level: Seq<char>, target: Seq<char>, body: Seq<char>) -> Seq<char> {
    ts + " "@ + pad_right(level, 5) + " "@ + target + ": "@ + body
}

/// One line of an experiment log (without its line break).
pub fn log_line(ts: &str, level: &str, target: &str, body: &str) -> (r: String)
    ensures
        r@ == log_line_spec(ts@, level@, target@, body@),
{
    let mut padded = owned(level);
    let n = level.unicode_len();
    let mut k: usize = n;
    while k < 5
        invariant
            n == level@.len(),
            n <= k,
            n < 5 ==> k <= 5,
            n >= 5 ==> k == n,
            padded@ == level@ + Seq::new((k - n) as nat, |i: int| ' '),
        decreases 5 - k,
    {
        crate::text::push_char(&mut padded, ' ');
        assert(padded@ =~= level@ + Seq::new((k + 1 - n) as nat, |i: int| ' '));
        k = k + 1;
    }
    proof {
        if level@.len() >= 5 {
            assert(padded@ =~= level@);
        }
    }
    let head = concat3(ts, " ", padded.as_str());
    let mid = concat3(head.as_str(), " ", target);
    concat3(mid.as_str(), ": ", body)
}

} // verus!
