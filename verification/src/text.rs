//! Character-level text helpers with exact contracts over `Seq<char>`.
//!
//! Every string operation the library performs (case folding, character
//! replacement, substring search, joining, number formatting) goes through
//! these helpers, so each one is stated once here over the string's view.

use vstd::prelude::*;

verus! {

// ───────────────────────────── specifications ─────────────────────────────

/// The ASCII upper-case form of one character; other characters are unchanged.
pub open spec fn upper_char(c: char) -> char {
    if 'a' <= c && c <= 'z' {
        ((c as u32) - 32) as char
    } else {
        c
    }
}

/// The ASCII lower-case form of one character; other characters are unchanged.
pub open spec fn lower_char(c: char) -> char {
    if 'A' <= c && c <= 'Z' {
        ((c as u32) + 32) as char
    } else {
        c
    }
}

/// ASCII upper-casing of a whole string (`str::to_ascii_uppercase`).
pub open spec fn upper(s: Seq<char>) -> Seq<char> {
    Seq::new(s.len(), |i: int| upper_char(s[i]))
}

/// ASCII lower-casing of a whole string (`str::to_ascii_lowercase`).
pub open spec fn lower(s: Seq<char>) -> Seq<char> {
    Seq::new(s.len(), |i: int| lower_char(s[i]))
}

/// Replace every occurrence of any character of `targets` by `with`.
pub open spec fn replace_each(s: Seq<char>, targets: Seq<char>, with: char) -> Seq<char> {
    Seq::new(s.len(), |i: int| if targets.contains(s[i]) { with } else { s[i] })
}

/// Remove every occurrence of any character of `targets`, keeping the order of the rest.
pub open spec fn remove_each(s: Seq<char>, targets: Seq<char>) -> Seq<char>
    decreases s.len(),
{
    if s.len() == 0 {
        s
    } else {
        let rest = remove_each(s.drop_last(), targets);
        if targets.contains(s.last()) {
            rest
        } else {
            rest.push(s.last())
        }
    }
}

/// `p` occurs in `s` starting at position `i`.
pub open spec fn occurs_at(s: Seq<char>, p: Seq<char>, i: int) -> bool {
    0 <= i && i + p.len() <= s.len() && s.subrange(i, i + p.len()) == p
}

/// `p` occurs somewhere in `s` (`str::contains`).
pub open spec fn contains_seq(s: Seq<char>, p: Seq<char>) -> bool {
    exists|i: int| occurs_at(s, p, i)
}

/// `s` starts with `p` (`str::starts_with`).
pub open spec fn has_prefix(s: Seq<char>, p: Seq<char>) -> bool {
    occurs_at(s, p, 0)
}

/// The parts joined with `sep` between each two neighbours (`[String]::join`).
pub open spec fn join(parts: Seq<Seq<char>>, sep: Seq<char>) -> Seq<char>
    decreases parts.len(),
{
    if parts.len() == 0 {
        Seq::empty()
    } else if parts.len() == 1 {
        parts[0]
    } else {
        join(parts.drop_last(), sep) + sep + parts.last()
    }
}

/// The views of a vector of strings.
pub open spec fn views(v: Seq<String>) -> Seq<Seq<char>> {
    Seq::new(v.len(), |i: int| v[i]@)
}

/// The views of a vector after a push.
pub proof fn lemma_views_push(v: Seq<String>, s: String)
    ensures
        views(v.push(s)) == views(v).push(s@),
{
    assert(views(v.push(s)) =~= views(v).push(s@));
}

/// The Unicode `White_Space` property, which `char::is_whitespace` and `str::trim` use.
pub open spec fn is_white(c: char) -> bool {
    ||| '\u{9}' <= c && c <= '\u{d}'
    ||| c == ' '
    ||| c == '\u{85}'
    ||| c == '\u{a0}'
    ||| c == '\u{1680}'
    ||| '\u{2000}' <= c && c <= '\u{200a}'
    ||| c == '\u{2028}'
    ||| c == '\u{2029}'
    ||| c == '\u{202f}'
    ||| c == '\u{205f}'
    ||| c == '\u{3000}'
}

/// The string is empty once surrounding white space is trimmed.
pub open spec fn is_blank_seq(s: Seq<char>) -> bool {
    forall|i: int| 0 <= i < s.len() ==> is_white(#[trigger] s[i])
}

/// The decimal digit character of `d < 10`.
pub open spec fn digit_char(d: nat) -> char {
    ((d + 48) as u32) as char
}

/// The decimal representation of `n`, without sign or leading zeros.
pub open spec fn decimal(n: nat) -> Seq<char>
    decreases n,
{
    if n < 10 {
        seq![digit_char(n)]
    } else {
        decimal(n / 10).push(digit_char(n % 10))
    }
}

/// The pieces of `s` between occurrences of `c` (`str::split` with a char pattern).
pub open spec fn split_char(s: Seq<char>, c: char) -> Seq<Seq<char>>
    decreases s.len(),
{
    if s.len() == 0 {
        seq![Seq::<char>::empty()]
    } else {
        let r = split_char(s.drop_last(), c);
        if s.last() == c {
            r.push(Seq::<char>::empty())
        } else {
            r.update(r.len() - 1, r.last().push(s.last()))
        }
    }
}

/// Position of the first `c` in `s`, or `s.len()` when there is none.
pub open spec fn find_char(s: Seq<char>, c: char) -> nat
    decreases s.len(),
{
    if s.len() == 0 {
        0
    } else if s[0] == c {
        0
    } else {
        1 + find_char(s.drop_first(), c)
    }
}

/// `split_char` always yields at least one piece.
pub proof fn lemma_split_nonempty(s: Seq<char>, c: char)
    ensures
        split_char(s, c).len() >= 1,
    decreases s.len(),
{
    if s.len() > 0 {
        lemma_split_nonempty(s.drop_last(), c);
    }
}

/// Facts about the first occurrence of `c`.
pub proof fn lemma_find_char(s: Seq<char>, c: char)
    ensures
        find_char(s, c) <= s.len(),
        find_char(s, c) < s.len() ==> s[find_char(s, c) as int] == c,
        forall|i: int| 0 <= i < find_char(s, c) ==> s[i] != c,
    decreases s.len(),
{
    if s.len() > 0 && s[0] != c {
        lemma_find_char(s.drop_first(), c);
        assert forall|i: int| 0 <= i < find_char(s, c) implies s[i] != c by {
            if i > 0 {
                assert(s[i] == s.drop_first()[i - 1]);
            }
        }
    }
}

/// Joining one more part appends the separator and the part.
pub proof fn lemma_join_push(parts: Seq<Seq<char>>, sep: Seq<char>, x: Seq<char>)
    ensures
        join(parts.push(x), sep) == if parts.len() == 0 { x } else { join(parts, sep) + sep + x },
{
    assert(parts.push(x).drop_last() =~= parts);
}

// ───────────────────────────── std wrappers ─────────────────────────────

/// Calls `String::push`, which appends one character to the end of the string.
#[verifier::external_body]
pub(crate) fn push_char(s: &mut String, c: char)
    ensures
        final(s)@ == old(s)@.push(c),
{
    s.push(c);
}

// ───────────────────────────── executable helpers ─────────────────────────────

/// The characters of a string, in order.
pub fn chars_of(s: &str) -> (v: Vec<char>)
    ensures
        v@ == s@,
{
    let n = s.unicode_len();
    let mut v: Vec<char> = Vec::new();
    let mut i: usize = 0;
    while i < n
        invariant
            n == s@.len(),
            i <= n,
            v@ == s@.subrange(0, i as int),
        decreases n - i,
    {
        let c = s.get_char(i);
        v.push(c);
        i = i + 1;
    }
    assert(v@ == s@);
    v
}

/// A string made of the given characters.
pub fn string_of(v: &Vec<char>) -> (s: String)
    ensures
        s@ == v@,
{
    let mut s = String::new();
    let mut i: usize = 0;
    while i < v.len()
        invariant
            i <= v.len(),
            s@ == v@.subrange(0, i as int),
        decreases v.len() - i,
    {
        push_char(&mut s, v[i]);
        i = i + 1;
    }
    assert(s@ == v@);
    s
}

/// Owned copy of a string slice.
pub fn owned(s: &str) -> (r: String)
    ensures
        r@ == s@,
{
    s.to_owned()
}

/// Concatenation of two strings.
pub fn concat(a: &str, b: &str) -> (r: String)
    ensures
        r@ == a@ + b@,
{
    let mut r = a.to_owned();
    r.append(b);
    r
}

/// Concatenation of three strings.
pub fn concat3(a: &str, b: &str, c: &str) -> (r: String)
    ensures
        r@ == a@ + b@ + c@,
{
    let mut r = a.to_owned();
    r.append(b);
    r.append(c);
    r
}

/// Map one character to its ASCII upper-case form.
pub fn to_upper_char(c: char) -> (r: char)
    ensures
        r == upper_char(c),
{
    if 'a' <= c && c <= 'z' {
        let v: u8 = (c as u8) - 32;
        v as char
    } else {
        c
    }
}

/// Map one character to its ASCII lower-case form.
pub fn to_lower_char(c: char) -> (r: char)
    ensures
        r == lower_char(c),
{
    if 'A' <= c && c <= 'Z' {
        let v: u8 = (c as u8) + 32;
        v as char
    } else {
        c
    }
}

/// Whether `c` is one of `targets`.
pub fn char_in(c: char, targets: &Vec<char>) -> (r: bool)
    ensures
        r == targets@.contains(c),
{
    let mut i: usize = 0;
    while i < targets.len()
        invariant
            i <= targets.len(),
            forall|j: int| 0 <= j < i ==> targets@[j] != c,
        decreases targets.len() - i,
    {
        if targets[i] == c {
            assert(targets@[i as int] == c);
            return true;
        }
        i = i + 1;
    }
    false
}

/// ASCII upper-case copy of `s` (`str::to_ascii_uppercase`).
pub fn to_upper(s: &str) -> (r: String)
    ensures
        r@ == upper(s@),
{
    let cs = chars_of(s);
    let mut out: Vec<char> = Vec::new();
    let mut i: usize = 0;
    while i < cs.len()
        invariant
            i <= cs.len(),
            cs@ == s@,
            out@ == upper(s@).subrange(0, i as int),
        decreases cs.len() - i,
    {
        out.push(to_upper_char(cs[i]));
        i = i + 1;
    }
    assert(out@ == upper(s@));
    string_of(&out)
}

/// ASCII lower-case copy of `s` (`str::to_ascii_lowercase`).
pub fn to_lower(s: &str) -> (r: String)
    ensures
        r@ == lower(s@),
{
    let cs = chars_of(s);
    let mut out: Vec<char> = Vec::new();
    let mut i: usize = 0;
    while i < cs.len()
        invariant
            i <= cs.len(),
            cs@ == s@,
            out@ == lower(s@).subrange(0, i as int),
        decreases cs.len() - i,
    {
        out.push(to_lower_char(cs[i]));
        i = i + 1;
    }
    assert(out@ == lower(s@));
    string_of(&out)
}

/// Replace every character of `targets` in `s` by `with` (`str::replace` with a char pattern).
pub fn replace_chars(s: &str, targets: &Vec<char>, with: char) -> (r: String)
    ensures
        r@ == replace_each(s@, targets@, with),
{
    let cs = chars_of(s);
    let mut out: Vec<char> = Vec::new();
    let mut i: usize = 0;
    while i < cs.len()
        invariant
            i <= cs.len(),
            cs@ == s@,
            out@ == replace_each(s@, targets@, with).subrange(0, i as int),
        decreases cs.len() - i,
    {
        let c = cs[i];
        if char_in(c, targets) {
            out.push(with);
        } else {
            out.push(c);
        }
        i = i + 1;
    }
    assert(out@ == replace_each(s@, targets@, with));
    string_of(&out)
}

/// Remove every character of `targets` from `s` (`str::replace` with an empty replacement).
pub fn remove_chars(s: &str, targets: &Vec<char>) -> (r: String)
    ensures
        r@ == remove_each(s@, targets@),
{
    let cs = chars_of(s);
    let mut out: Vec<char> = Vec::new();
    let mut i: usize = 0;
    assert(s@.subrange(0, 0) == Seq::<char>::empty());
    while i < cs.len()
        invariant
            i <= cs.len(),
            cs@ == s@,
            out@ == remove_each(s@.subrange(0, i as int), targets@),
        decreases cs.len() - i,
    {
        let c = cs[i];
        assert(s@.subrange(0, i + 1).drop_last() == s@.subrange(0, i as int));
        if !char_in(c, targets) {
            out.push(c);
        }
        i = i + 1;
    }
    assert(s@.subrange(0, cs.len() as int) == s@);
    string_of(&out)
}

/// Whether `p` occurs at position `i` of `s`.
fn occurs_at_exec(s: &Vec<char>, p: &Vec<char>, i: usize) -> (r: bool)
    requires
        i + p.len() <= s.len(),
    ensures
        r == occurs_at(s@, p@, i as int),
{
    let mut k: usize = 0;
    while k < p.len()
        invariant
            k <= p.len(),
            i + p.len() <= s.len(),
            forall|j: int| 0 <= j < k ==> s@[i + j] == p@[j],
        decreases p.len() - k,
    {
        if s[i + k] != p[k] {
            assert(s@.subrange(i as int, i + p.len())[k as int] != p@[k as int]);
            return false;
        }
        k = k + 1;
    }
    assert(s@.subrange(i as int, i + p.len()) =~= p@);
    true
}

/// Whether `p` occurs in `s` (`str::contains`).
pub fn contains_str(s: &str, p: &str) -> (r: bool)
    ensures
        r == contains_seq(s@, p@),
{
    let sc = chars_of(s);
    let pc = chars_of(p);
    if pc.len() > sc.len() {
        assert forall|i: int| !occurs_at(s@, p@, i) by {}
        return false;
    }
    let last = sc.len() - pc.len();
    let mut i: usize = 0;
    while i < last
        invariant
            sc@ == s@,
            pc@ == p@,
            i <= last,
            last + pc.len() == sc.len(),
            forall|j: int| 0 <= j < i ==> !occurs_at(s@, p@, j),
        decreases last - i,
    {
        if occurs_at_exec(&sc, &pc, i) {
            return true;
        }
        i = i + 1;
    }
    let r = occurs_at_exec(&sc, &pc, last);
    if !r {
        assert forall|j: int| !occurs_at(s@, p@, j) by {
            if 0 <= j && j + p@.len() <= s@.len() {
                assert(j <= last);
            }
        }
    }
    r
}

/// Whether `s` starts with `p` (`str::starts_with`).
pub fn starts_with_str(s: &str, p: &str) -> (r: bool)
    ensures
        r == has_prefix(s@, p@),
{
    let sc = chars_of(s);
    let pc = chars_of(p);
    if pc.len() > sc.len() {
        return false;
    }
    occurs_at_exec(&sc, &pc, 0)
}

/// Whether two strings are equal.
pub fn str_eq(a: &str, b: &str) -> (r: bool)
    ensures
        r == (a@ == b@),
{
    let ac = chars_of(a);
    let bc = chars_of(b);
    if ac.len() != bc.len() {
        return false;
    }
    let r = occurs_at_exec(&ac, &bc, 0);
    if r {
        assert(a@ =~= a@.subrange(0, b@.len() as int));
    } else {
        assert(a@ != b@) by {
            if a@ == b@ {
                assert(a@.subrange(0, b@.len() as int) =~= a@);
            }
        }
    }
    r
}

/// Whether every character of `s` is white space (`s.trim().is_empty()`).
pub fn is_blank(s: &str) -> (r: bool)
    ensures
        r == is_blank_seq(s@),
{
    let cs = chars_of(s);
    let mut i: usize = 0;
    while i < cs.len()
        invariant
            i <= cs.len(),
            cs@ == s@,
            forall|j: int| 0 <= j < i ==> is_white(#[trigger] s@[j]),
        decreases cs.len() - i,
    {
        let c = cs[i];
        let w = ('\u{9}' <= c && c <= '\u{d}') || c == ' ' || c == '\u{85}' || c == '\u{a0}'
            || c == '\u{1680}' || ('\u{2000}' <= c && c <= '\u{200a}') || c == '\u{2028}'
            || c == '\u{2029}' || c == '\u{202f}' || c == '\u{205f}' || c == '\u{3000}';
        if !w {
            assert(!is_white(s@[i as int]));
            return false;
        }
        i = i + 1;
    }
    true
}

/// Whether a character is white space (`char::is_whitespace`).
pub fn is_white_char(c: char) -> (r: bool)
    ensures
        r == is_white(c),
{
    ('\u{9}' <= c && c <= '\u{d}') || c == ' ' || c == '\u{85}' || c == '\u{a0}' || c == '\u{1680}' || ('\u{2000}'
        <= c && c <= '\u{200a}') || c == '\u{2028}' || c == '\u{2029}' || c == '\u{202f}' || c == '\u{205f}' || c
        == '\u{3000}'
}

/// `s` without leading and trailing white space (`str::trim`): the part from
/// its first to its last non-white character, or nothing when it is blank.
pub open spec fn trimmed(s: Seq<char>, lo: int, hi: int) -> bool {
    &&& 0 <= lo <= hi <= s.len()
    &&& forall|j: int| 0 <= j < lo ==> is_white(#[trigger] s[j])
    &&& forall|j: int| hi <= j < s.len() ==> is_white(#[trigger] s[j])
    &&& lo < hi ==> !is_white(s[lo]) && !is_white(s[hi - 1])
}

/// Trimming is determined by the string: any two bounds that meet [`trimmed`]
/// cut out the same text, so the contract of [`trim_str`] fixes its result.
pub proof fn law_trim_is_unique(s: Seq<char>, lo1: int, hi1: int, lo2: int, hi2: int)
    requires
        trimmed(s, lo1, hi1),
        trimmed(s, lo2, hi2),
    ensures
        s.subrange(lo1, hi1) == s.subrange(lo2, hi2),
{
    if lo1 < hi1 || lo2 < hi2 {
        if lo1 < hi1 {
            assert(!is_white(s[lo1]));
        } else {
            assert(!is_white(s[lo2]));
        }
        assert(lo1 < hi1 && lo2 < hi2) by {
            if lo1 >= hi1 {
                assert(!is_white(s[lo2]));
                if lo2 < lo1 {
                    assert(is_white(s[lo2]));
                } else {
                    assert(lo2 >= hi1);
                    assert(is_white(s[lo2]));
                }
            }
            if lo2 >= hi2 {
                assert(!is_white(s[lo1]));
                if lo1 < lo2 {
                    assert(is_white(s[lo1]));
                } else {
                    assert(lo1 >= hi2);
                    assert(is_white(s[lo1]));
                }
            }
        }
        if lo1 < lo2 {
            assert(is_white(s[lo1]));
        }
        if lo2 < lo1 {
            assert(is_white(s[lo2]));
        }
        if hi1 < hi2 {
            assert(is_white(s[hi2 - 1]));
        }
        if hi2 < hi1 {
            assert(is_white(s[hi1 - 1]));
        }
    }
}

/// The trimmed string (`str::trim`).
pub fn trim_str(s: &str) -> (r: String)
    ensures
        exists|lo: int, hi: int| trimmed(s@, lo, hi) && r@ == s@.subrange(lo, hi),
{
    let cs = chars_of(s);
    let mut lo: usize = 0;
    while lo < cs.len() && is_white_char(cs[lo])
        invariant
            lo <= cs.len(),
            cs@ == s@,
            forall|j: int| 0 <= j < lo ==> is_white(#[trigger] s@[j]),
        decreases cs.len() - lo,
    {
        lo = lo + 1;
    }
    let mut hi: usize = cs.len();
    while hi > lo && is_white_char(cs[hi - 1])
        invariant
            lo <= hi <= cs.len(),
            cs@ == s@,
            forall|j: int| hi <= j < cs.len() ==> is_white(#[trigger] s@[j]),
        decreases hi - lo,
    {
        hi = hi - 1;
    }
    let r = string_of_range(&cs, lo, hi);
    assert(trimmed(s@, lo as int, hi as int));
    r
}

/// Join the strings with `sep` between each two neighbours (`[String]::join`).
pub fn join_strings(parts: &Vec<String>, sep: &str) -> (r: String)
    ensures
        r@ == join(views(parts@), sep@),
{
    let mut r = String::new();
    let mut i: usize = 0;
    while i < parts.len()
        invariant
            i <= parts.len(),
            r@ == join(views(parts@).subrange(0, i as int), sep@),
        decreases parts.len() - i,
    {
        let ghost before = views(parts@).subrange(0, i as int);
        let ghost after = views(parts@).subrange(0, i + 1);
        assert(after.drop_last() =~= before);
        assert(after.last() == parts@[i as int]@);
        if i > 0 {
            r.append(sep);
        } else {
            assert(after.len() == 1);
        }
        r.append(parts[i].as_str());
        i = i + 1;
    }
    assert(views(parts@).subrange(0, parts.len() as int) =~= views(parts@));
    r
}

/// The decimal digit character of `d < 10`.
fn digit(d: u64) -> (c: char)
    requires
        d < 10,
    ensures
        c == digit_char(d as nat),
{
    let b: u8 = (d as u8) + 48;
    b as char
}

/// Append the decimal representation of `n` to `out`.
fn push_decimal(n: u64, out: &mut Vec<char>)
    ensures
        final(out)@ == old(out)@ + decimal(n as nat),
    decreases n,
{
    if n >= 10 {
        push_decimal(n / 10, out);
    }
    out.push(digit(n % 10));
}

/// The decimal representation of `n` (`u64::to_string`).
pub fn decimal_string(n: u64) -> (s: String)
    ensures
        s@ == decimal(n as nat),
{
    let mut v: Vec<char> = Vec::new();
    push_decimal(n, &mut v);
    assert(v@ =~= decimal(n as nat));
    string_of(&v)
}

/// The pieces of `s` between occurrences of `c` (`str::split`).
pub fn split_on_char(s: &str, c: char) -> (r: Vec<String>)
    ensures
        views(r@) == split_char(s@, c),
{
    let cs = chars_of(s);
    let mut done: Vec<String> = Vec::new();
    let mut cur: Vec<char> = Vec::new();
    let mut i: usize = 0;
    while i < cs.len()
        invariant
            i <= cs.len(),
            cs@ == s@,
            views(done@).push(cur@) == split_char(s@.subrange(0, i as int), c),
        decreases cs.len() - i,
    {
        let ghost pre = s@.subrange(0, i as int);
        let ghost nxt = s@.subrange(0, i + 1);
        assert(nxt.drop_last() =~= pre);
        let ch = cs[i];
        if ch == c {
            let piece = string_of(&cur);
            proof {
                assert(views(done@.push(piece)) =~= views(done@).push(cur@));
            }
            done.push(piece);
            cur = Vec::new();
            assert(views(done@).push(cur@) =~= split_char(nxt, c));
        } else {
            cur.push(ch);
            assert(views(done@).push(cur@) =~= split_char(nxt, c));
        }
        i = i + 1;
    }
    let piece = string_of(&cur);
    proof {
        assert(views(done@.push(piece)) =~= views(done@).push(cur@));
        assert(s@.subrange(0, cs.len() as int) =~= s@);
    }
    done.push(piece);
    done
}

/// Position of the first `c` in `s`, or its length when there is none.
pub fn find_char_exec(s: &Vec<char>, c: char) -> (r: usize)
    ensures
        r == find_char(s@, c),
{
    proof {
        lemma_find_char(s@, c);
    }
    let mut i: usize = 0;
    while i < s.len()
        invariant
            i <= s.len(),
            forall|j: int| 0 <= j < i ==> s@[j] != c,
            i <= find_char(s@, c),
            find_char(s@, c) <= s@.len(),
            find_char(s@, c) < s@.len() ==> s@[find_char(s@, c) as int] == c,
            forall|j: int| 0 <= j < find_char(s@, c) ==> s@[j] != c,
        decreases s.len() - i,
    {
        if s[i] == c {
            return i;
        }
        i = i + 1;
    }
    i
}

/// The characters of `v` from `from` to `to` as a string.
pub fn string_of_range(v: &Vec<char>, from: usize, to: usize) -> (s: String)
    requires
        from <= to <= v.len(),
    ensures
        s@ == v@.subrange(from as int, to as int),
{
    let mut s = String::new();
    let mut i: usize = from;
    while i < to
        invariant
            from <= i <= to <= v.len(),
            s@ == v@.subrange(from as int, i as int),
        decreases to - i,
    {
        push_char(&mut s, v[i]);
        i = i + 1;
    }
    s
}

} // verus!
