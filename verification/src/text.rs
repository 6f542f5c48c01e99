//! Small helpers on strings and lists of strings.

use vstd::prelude::*;
use vstd::string::{StrSliceExecFns, StringExecFns};

verus! {

/// Whether two strings are the same.
pub fn str_eq(a: &str, b: &str) -> (same: bool)
    ensures
        same == (a@ == b@),
{
    let x: String = a.to_owned();
    let y: String = b.to_owned();
    x == y
}

/// The views of some strings.
pub open spec fn views(v: Seq<String>) -> Seq<Seq<char>> {
    Seq::new(v.len(), |i: int| v[i]@)
}

/// Whether `name` is among `names`.
pub fn contains_str(names: &Vec<String>, name: &str) -> (found: bool)
    ensures
        found == views(names@).contains(name@),
{
    let n: usize = names.len();
    let mut i: usize = 0;
    while i < n
        invariant
            n == names@.len(),
            i <= n,
            forall|j: int| 0 <= j < i ==> views(names@)[j] != name@,
        decreases n - i,
    {
        if str_eq(names[i].as_str(), name) {
            assert(views(names@)[i as int] == name@);
            return true;
        }
        i += 1;
    }
    false
}

/// A copy of some strings.
pub fn clone_strings(v: &Vec<String>) -> (copy: Vec<String>)
    ensures
        copy@ == v@,
{
    let mut copy: Vec<String> = Vec::new();
    let n: usize = v.len();
    let mut i: usize = 0;
    while i < n
        invariant
            n == v@.len(),
            i <= n,
            copy@ == v@.subrange(0, i as int),
        decreases n - i,
    {
        copy.push(v[i].clone());
        assert(copy@ =~= v@.subrange(0, i + 1));
        i += 1;
    }
    assert(v@.subrange(0, n as int) =~= v@);
    copy
}

/// A copy of a string that may be absent.
pub fn clone_opt(s: &Option<String>) -> (copy: Option<String>)
    ensures
        copy == *s,
{
    match s {
        Some(x) => Some(x.clone()),
        None => None,
    }
}

/// The character of a decimal digit.
pub open spec fn digit_char(d: nat) -> char
    recommends
        d < 10,
{
    if d == 0 {
        '0'
    } else if d == 1 {
        '1'
    } else if d == 2 {
        '2'
    } else if d == 3 {
        '3'
    } else if d == 4 {
        '4'
    } else if d == 5 {
        '5'
    } else if d == 6 {
        '6'
    } else if d == 7 {
        '7'
    } else if d == 8 {
        '8'
    } else {
        '9'
    }
}

/// A number in decimal digits, without leading zeros.
pub open spec fn spec_decimal(n: nat) -> Seq<char>
    decreases n,
{
    if n < 10 {
        seq![digit_char(n)]
    } else {
        spec_decimal(n / 10).push(digit_char(n % 10))
    }
}

fn digit(d: u128) -> (s: &'static str)
    requires
        d < 10,
    ensures
        s@ == seq![digit_char(d as nat)],
{
    proof {
        reveal_strlit("0");
        reveal_strlit("1");
        reveal_strlit("2");
        reveal_strlit("3");
        reveal_strlit("4");
        reveal_strlit("5");
        reveal_strlit("6");
        reveal_strlit("7");
        reveal_strlit("8");
        reveal_strlit("9");
    }
    let s: &'static str = if d == 0 {
        "0"
    } else if d == 1 {
        "1"
    } else if d == 2 {
        "2"
    } else if d == 3 {
        "3"
    } else if d == 4 {
        "4"
    } else if d == 5 {
        "5"
    } else if d == 6 {
        "6"
    } else if d == 7 {
        "7"
    } else if d == 8 {
        "8"
    } else {
        "9"
    };
    assert(s@ =~= seq![digit_char(d as nat)]);
    s
}

/// A number in decimal digits.
pub fn decimal(n: u128) -> (s: String)
    ensures
        s@ == spec_decimal(n as nat),
    decreases n,
{
    if n < 10 {
        digit(n).to_owned()
    } else {
        let mut s: String = decimal(n / 10);
        s.append(digit(n % 10));
        assert(s@ =~= spec_decimal(n as nat));
        s
    }
}

/// `s` with every occurrence of `from` replaced by `to`, found from left to
/// right and not overlapping; `s` itself where `from` is empty.
pub open spec fn replaced(s: Seq<char>, from: Seq<char>, to: Seq<char>) -> Seq<char>
    decreases s.len(),
{
    if from.len() == 0 || s.len() < from.len() {
        s
    } else if s.subrange(0, from.len() as int) == from {
        to + replaced(s.subrange(from.len() as int, s.len() as int), from, to)
    } else {
        seq![s[0]] + replaced(s.drop_first(), from, to)
    }
}

/// Whether a character is white space: whether it has the Unicode property
/// `White_Space`.
pub open spec fn is_space(c: char) -> bool {
    let u = c as u32;
    ||| 0x09 <= u <= 0x0d
    ||| u == 0x20
    ||| u == 0x85
    ||| u == 0xa0
    ||| u == 0x1680
    ||| 0x2000 <= u <= 0x200a
    ||| u == 0x2028
    ||| u == 0x2029
    ||| u == 0x202f
    ||| u == 0x205f
    ||| u == 0x3000
}

/// The length of the word that `s` starts with: of its longest prefix
/// without white space.
pub open spec fn word_len(s: Seq<char>) -> nat
    decreases s.len(),
{
    if s.len() == 0 || is_space(s[0]) {
        0
    } else {
        1 + word_len(s.drop_first())
    }
}

/// A word is no longer than the text it starts.
pub proof fn lemma_word_len(s: Seq<char>)
    ensures
        word_len(s) <= s.len(),
        s.len() > 0 && !is_space(s[0]) ==> word_len(s) > 0,
    decreases s.len(),
{
    if s.len() > 0 && !is_space(s[0]) {
        lemma_word_len(s.drop_first());
    }
}

/// The words of a text: its longest stretches without white space, in
/// order.
pub open spec fn words(s: Seq<char>) -> Seq<Seq<char>>
    decreases s.len(),
    via words_decreases
{
    if s.len() == 0 {
        Seq::empty()
    } else if is_space(s[0]) {
        words(s.drop_first())
    } else {
        seq![s.subrange(0, word_len(s) as int)] + words(
            s.subrange(word_len(s) as int, s.len() as int),
        )
    }
}

#[via_fn]
proof fn words_decreases(s: Seq<char>) {
    lemma_word_len(s);
}

/// The place of the first line feed in `s`, or the length of `s` where it
/// has none.
pub open spec fn line_end(s: Seq<char>) -> nat
    decreases s.len(),
{
    if s.len() == 0 || s[0] == '\n' {
        0
    } else {
        1 + line_end(s.drop_first())
    }
}

/// The end of a line lies in the text.
pub proof fn lemma_line_end(s: Seq<char>)
    ensures
        line_end(s) <= s.len(),
    decreases s.len(),
{
    if s.len() > 0 && s[0] != '\n' {
        lemma_line_end(s.drop_first());
    }
}

/// A line without the carriage return that came before its line feed.
pub open spec fn without_cr(line: Seq<char>) -> Seq<char> {
    if line.len() > 0 && line.last() == '\r' {
        line.drop_last()
    } else {
        line
    }
}

/// The lines of a text: it is cut at every line feed, and a carriage return
/// just before a line feed goes with it. What follows the last line feed is
/// a line too, unless it is empty.
pub open spec fn text_lines(s: Seq<char>) -> Seq<Seq<char>>
    decreases s.len(),
    via text_lines_decreases
{
    if s.len() == 0 {
        Seq::empty()
    } else if line_end(s) < s.len() {
        seq![without_cr(s.subrange(0, line_end(s) as int))] + text_lines(
            s.subrange(line_end(s) as int + 1, s.len() as int),
        )
    } else {
        seq![s]
    }
}

#[via_fn]
proof fn text_lines_decreases(s: Seq<char>) {
    lemma_line_end(s);
}

/// The characters of a string.
pub fn to_chars(s: &str) -> (v: Vec<char>)
    ensures
        v@ == s@,
{
    broadcast use vstd::string::group_string_axioms;

    let mut v: Vec<char> = Vec::new();
    let iter = s.chars();
    for c in it: iter
        invariant
            it.seq() == s@,
            v@ == s@.subrange(0, it.index() as int),
    {
        v.push(c);
        assert(v@ =~= s@.subrange(0, it.index() + 1));
    }
    assert(s@.subrange(0, s@.len() as int) =~= s@);
    v
}

/// Whether `pat` stands in `s` at `at`.
pub open spec fn stands_at(s: Seq<char>, at: int, pat: Seq<char>) -> bool {
    0 <= at && at + pat.len() <= s.len() && s.subrange(at, at + pat.len()) == pat
}

/// Whether `s` begins with `pat`.
pub open spec fn begins(s: Seq<char>, pat: Seq<char>) -> bool {
    stands_at(s, 0, pat)
}

/// See [`stands_at`].
pub fn has_at(s: &Vec<char>, at: usize, pat: &Vec<char>) -> (b: bool)
    ensures
        b == stands_at(s@, at as int, pat@),
{
    if at > s.len() || pat.len() > s.len() - at {
        return false;
    }
    let n: usize = pat.len();
    let mut i: usize = 0;
    while i < n
        invariant
            n == pat@.len(),
            at + n <= s@.len(),
            s@.len() <= usize::MAX,
            i <= n,
            forall|j: int| 0 <= j < i ==> s@[at + j] == pat@[j],
        decreases n - i,
    {
        if s[at + i] != pat[i] {
            assert(s@.subrange(at as int, at + n)[i as int] != pat@[i as int]);
            return false;
        }
        i += 1;
    }
    assert(s@.subrange(at as int, at + n) =~= pat@);
    true
}

/// The first place at which `pat` stands in `s`, looking from `from` on.
pub open spec fn first_at(s: Seq<char>, pat: Seq<char>, from: int) -> Option<int>
    decreases s.len() - from,
{
    if from < 0 || from + pat.len() > s.len() {
        None
    } else if stands_at(s, from, pat) {
        Some(from)
    } else if from >= s.len() {
        None
    } else {
        first_at(s, pat, from + 1)
    }
}

/// The first place at which `pat` stands in `s`.
pub fn find(s: &Vec<char>, pat: &Vec<char>) -> (place: Option<usize>)
    ensures
        match place {
            Some(p) => first_at(s@, pat@, 0) == Some(p as int) && stands_at(s@, p as int, pat@),
            None => first_at(s@, pat@, 0) is None,
        },
{
    if pat.len() > s.len() {
        return None;
    }
    let last: usize = s.len() - pat.len();
    let mut i: usize = 0;
    loop
        invariant
            last == s@.len() - pat@.len(),
            i <= last,
            first_at(s@, pat@, 0) == first_at(s@, pat@, i as int),
        decreases last - i,
    {
        if has_at(s, i, pat) {
            return Some(i);
        }
        if i == last {
            assert(first_at(s@, pat@, i + 1) is None);
            return None;
        }
        i += 1;
    }
}

/// The number of white-space characters that `s` begins with.
pub open spec fn leading_space(s: Seq<char>) -> nat
    decreases s.len(),
{
    if s.len() == 0 || !is_space(s[0]) {
        0
    } else {
        1 + leading_space(s.drop_first())
    }
}

/// The number of white-space characters that `s` ends with.
pub open spec fn trailing_space(s: Seq<char>) -> nat
    decreases s.len(),
{
    if s.len() == 0 || !is_space(s.last()) {
        0
    } else {
        1 + trailing_space(s.drop_last())
    }
}

/// No more characters lead or trail than there are.
pub proof fn lemma_space_bounds(s: Seq<char>)
    ensures
        leading_space(s) <= s.len(),
        trailing_space(s) <= s.len(),
        leading_space(s) < s.len() ==> leading_space(s) + trailing_space(s) <= s.len(),
    decreases s.len(),
{
    if s.len() > 0 {
        lemma_space_bounds(s.drop_first());
        lemma_space_bounds(s.drop_last());
        if is_space(s[0]) && is_space(s.last()) && leading_space(s) < s.len() {
            lemma_lead_trail(s);
        }
    }
}

/// Where some character of `s` is no white space, what leads and what
/// trails do not meet.
pub proof fn lemma_lead_trail(s: Seq<char>)
    requires
        leading_space(s) < s.len(),
    ensures
        leading_space(s) + trailing_space(s) <= s.len(),
        !is_space(s[leading_space(s) as int]),
    decreases s.len(),
{
    if s.len() > 0 {
        if is_space(s[0]) {
            lemma_lead_trail(s.drop_first());
            lemma_trailing_after(s);
        } else {
            lemma_trailing_stops(s, 0);
        }
    }
}

/// What trails ends after a character that is no white space.
pub proof fn lemma_trailing_stops(s: Seq<char>, i: int)
    requires
        0 <= i < s.len(),
        !is_space(s[i]),
    ensures
        trailing_space(s) <= s.len() - 1 - i,
    decreases s.len(),
{
    if is_space(s.last()) {
        lemma_trailing_stops(s.drop_last(), i);
    }
}

/// A leading white space does not add to what trails, unless all is white
/// space.
pub proof fn lemma_trailing_after(s: Seq<char>)
    requires
        s.len() > 0,
        leading_space(s.drop_first()) < s.drop_first().len(),
    ensures
        trailing_space(s) == trailing_space(s.drop_first()),
    decreases s.len(),
{
    let t = s.drop_first();
    if is_space(s.last()) {
        assert(t.len() > 0);
        assert(t.last() == s.last());
        if t.len() == 1 {
            assert(leading_space(t) == 1) by {
                assert(is_space(t[0]));
                assert(leading_space(t.drop_first()) == 0);
            }
        } else {
            assert(s.drop_last().drop_first() =~= t.drop_last());
            lemma_lead_shorter(t);
            lemma_trailing_after(s.drop_last());
        }
    } else {
        assert(t.len() > 0);
        assert(t.last() == s.last());
    }
}

/// Dropping a trailing white space keeps some character that is none, if
/// there was one.
pub proof fn lemma_lead_shorter(t: Seq<char>)
    requires
        t.len() > 1,
        is_space(t.last()),
        leading_space(t) < t.len(),
    ensures
        leading_space(t.drop_last()) < t.drop_last().len(),
    decreases t.len(),
{
    if is_space(t[0]) {
        if t.len() > 2 {
            assert(t.drop_first().drop_last() =~= t.drop_last().drop_first());
            lemma_lead_shorter(t.drop_first());
        } else {
            assert(t.drop_first().len() == 1);
            assert(leading_space(t.drop_first()) == 1) by {
                assert(is_space(t.drop_first()[0]));
                assert(leading_space(t.drop_first().drop_first()) == 0);
            }
        }
    }
}

/// `s` without the white space that leads and trails it.
pub open spec fn trimmed(s: Seq<char>) -> Seq<char> {
    if leading_space(s) >= s.len() {
        Seq::empty()
    } else {
        s.subrange(leading_space(s) as int, s.len() - trailing_space(s))
    }
}

/// See [`is_space`].
pub fn is_whitespace(c: char) -> (b: bool)
    ensures
        b == is_space(c),
{
    let u: u32 = c as u32;
    (0x09 <= u && u <= 0x0d) || u == 0x20 || u == 0x85 || u == 0xa0 || u == 0x1680 || (0x2000 <= u
        && u <= 0x200a) || u == 0x2028 || u == 0x2029 || u == 0x202f || u == 0x205f || u == 0x3000
}

/// Where what leads ends and what trails begins; both at the end where all
/// is white space.
pub fn trim_bounds(s: &Vec<char>) -> (b: (usize, usize))
    ensures
        b.0 <= b.1 <= s@.len(),
        s@.subrange(b.0 as int, b.1 as int) == trimmed(s@),
{
    let n: usize = s.len();
    let mut start: usize = 0;
    assert(s@.subrange(0, n as int) =~= s@);
    while start < n && is_whitespace(s[start])
        invariant
            n == s@.len(),
            start <= n,
            leading_space(s@) == start + leading_space(s@.subrange(start as int, n as int)),
        decreases n - start,
    {
        assert(s@.subrange(start as int, n as int).drop_first() =~= s@.subrange(start + 1, n as int));
        start += 1;
    }
    proof {
        lemma_space_bounds(s@);
        if start < n {
            assert(s@.subrange(start as int, n as int)[0] == s@[start as int]);
        }
    }
    if start == n {
        assert(leading_space(s@.subrange(n as int, n as int)) == 0);
        assert(s@.subrange(n as int, n as int) =~= trimmed(s@));
        return (n, n);
    }
    let mut end: usize = n;
    proof {
        lemma_lead_trail(s@);
    }
    while end > start + 1 && is_whitespace(s[end - 1])
        invariant
            n == s@.len(),
            start < end <= n,
            start == leading_space(s@),
            start < n,
            trailing_space(s@) == (n - end) + trailing_space(s@.subrange(0, end as int)),
        decreases end,
    {
        assert(s@.subrange(0, end as int).drop_last() =~= s@.subrange(0, end - 1));
        assert(s@.subrange(0, end as int).last() == s@[end - 1]);
        end -= 1;
    }
    proof {
        let head = s@.subrange(0, end as int);
        assert(head.last() == s@[end - 1]);
        if end == start + 1 {
            assert(!is_space(s@[start as int]));
        }
        assert(trailing_space(head) == 0);
    }
    (start, end)
}

/// `s` after `prefix`, where it begins with it.
pub open spec fn stripped(s: Seq<char>, prefix: Seq<char>) -> Option<Seq<char>> {
    if begins(s, prefix) {
        Some(s.subrange(prefix.len() as int, s.len() as int))
    } else {
        None
    }
}

/// The strings of the first `n` with `sep` between each two.
pub open spec fn joined_with(parts: Seq<Seq<char>>, sep: Seq<char>, n: nat) -> Seq<char>
    decreases n,
{
    if n == 0 {
        Seq::empty()
    } else if n == 1 {
        parts[0]
    } else {
        joined_with(parts, sep, (n - 1) as nat) + sep + parts[n - 1]
    }
}

/// The strings with `sep` between each two.
pub fn join(parts: &Vec<String>, sep: &str) -> (s: String)
    ensures
        s@ == joined_with(views(parts@), sep@, parts@.len()),
{
    let mut s: String = String::new();
    let n: usize = parts.len();
    let mut i: usize = 0;
    while i < n
        invariant
            n == parts@.len(),
            i <= n,
            s@ == joined_with(views(parts@), sep@, i as nat),
        decreases n - i,
    {
        if i > 0 {
            s.append(sep);
        }
        s.append(parts[i].as_str());
        assert(views(parts@)[i as int] == parts@[i as int]@);
        assert(s@ =~= joined_with(views(parts@), sep@, (i + 1) as nat));
        i += 1;
    }
    s
}

/// The words of a text; see [`words`].
pub fn split_whitespace(s: &str) -> (parts: Vec<String>)
    ensures
        views(parts@) == words(s@),
{
    let cs = to_chars(s);
    let n: usize = cs.len();
    let mut parts: Vec<String> = Vec::new();
    let mut i: usize = 0;
    assert(s@.subrange(0, n as int) =~= s@);
    assert(views(parts@) + words(s@) =~= words(s@));
    while i < n
        invariant
            n == s@.len(),
            cs@ == s@,
            i <= n,
            words(s@) == views(parts@) + words(s@.subrange(i as int, n as int)),
        decreases n - i,
    {
        let ghost rest = s@.subrange(i as int, n as int);
        assert(rest[0] == cs@[i as int]);
        if is_whitespace(cs[i]) {
            assert(rest.drop_first() =~= s@.subrange(i + 1, n as int));
            i += 1;
        } else {
            let mut j: usize = i;
            assert(rest.subrange(0, rest.len() as int) =~= rest);
            while j < n && !is_whitespace(cs[j])
                invariant
                    n == s@.len(),
                    cs@ == s@,
                    i <= j <= n,
                    word_len(rest) == (j - i) + word_len(s@.subrange(j as int, n as int)),
                    rest == s@.subrange(i as int, n as int),
                decreases n - j,
            {
                assert(s@.subrange(j as int, n as int).drop_first() =~= s@.subrange(
                    j + 1,
                    n as int,
                ));
                assert(s@.subrange(j as int, n as int)[0] == cs@[j as int]);
                j += 1;
            }
            proof {
                if j < n {
                    assert(s@.subrange(j as int, n as int)[0] == cs@[j as int]);
                }
                assert(word_len(rest) == j - i);
                assert(rest.subrange(0, j - i) =~= s@.subrange(i as int, j as int));
                assert(rest.subrange(j - i, rest.len() as int) =~= s@.subrange(j as int, n as int));
            }
            let ghost before = views(parts@);
            let word: String = s.substring_char(i, j).to_owned();
            parts.push(word);
            assert(views(parts@) =~= before.push(s@.subrange(i as int, j as int)));
            assert(views(parts@) + words(s@.subrange(j as int, n as int)) =~= before + (seq![
                s@.subrange(i as int, j as int),
            ] + words(s@.subrange(j as int, n as int))));
            i = j;
        }
    }
    assert(views(parts@) + words(s@.subrange(n as int, n as int)) =~= views(parts@));
    parts
}

/// `s` with every occurrence of `from` replaced by `to`; see [`replaced`].
pub fn replace_all(s: &str, from: &str, to: &str) -> (r: String)
    requires
        from@.len() > 0,
    ensures
        r@ == replaced(s@, from@, to@),
{
    let cs = to_chars(s);
    let pat = to_chars(from);
    let n: usize = cs.len();
    let m: usize = pat.len();
    let mut out: String = String::new();
    let mut kept: usize = 0;
    let mut i: usize = 0;
    assert(s@.subrange(0, n as int) =~= s@);
    assert(out@ + s@.subrange(0, 0) + replaced(s@, from@, to@) =~= replaced(s@, from@, to@));
    while i < n
        invariant
            n == s@.len(),
            m == from@.len(),
            m > 0,
            cs@ == s@,
            pat@ == from@,
            kept <= i <= n,
            replaced(s@, from@, to@) == out@ + s@.subrange(kept as int, i as int) + replaced(
                s@.subrange(i as int, n as int),
                from@,
                to@,
            ),
        decreases n - i,
    {
        let ghost rest = s@.subrange(i as int, n as int);
        let ghost before = out@;
        if has_at(&cs, i, &pat) {
            assert(rest.subrange(0, m as int) =~= s@.subrange(i as int, i + m));
            assert(rest.subrange(m as int, rest.len() as int) =~= s@.subrange(i + m, n as int));
            let ghost pending = s@.subrange(kept as int, i as int);
            out.append(s.substring_char(kept, i));
            out.append(to);
            i += m;
            kept = i;
            assert(out@ + s@.subrange(kept as int, i as int) + replaced(
                s@.subrange(i as int, n as int),
                from@,
                to@,
            ) =~= before + pending + (to@ + replaced(s@.subrange(i as int, n as int), from@, to@)));
        } else {
            proof {
                assert(rest.drop_first() =~= s@.subrange(i + 1, n as int));
                if rest.len() >= m {
                    assert(rest.subrange(0, m as int) =~= s@.subrange(i as int, i + m));
                } else {
                    assert(seq![rest[0]] + rest.drop_first() =~= rest);
                }
                assert(replaced(rest, from@, to@) == seq![rest[0]] + replaced(
                    rest.drop_first(),
                    from@,
                    to@,
                ));
                assert(s@.subrange(kept as int, i + 1) =~= s@.subrange(kept as int, i as int)
                    + seq![rest[0]]);
                assert(out@ + s@.subrange(kept as int, i + 1) + replaced(
                    s@.subrange(i + 1, n as int),
                    from@,
                    to@,
                ) =~= out@ + s@.subrange(kept as int, i as int) + (seq![rest[0]] + replaced(
                    rest.drop_first(),
                    from@,
                    to@,
                )));
            }
            i += 1;
        }
    }
    out.append(s.substring_char(kept, n));
    assert(replaced(s@.subrange(n as int, n as int), from@, to@) =~= Seq::<char>::empty());
    assert(out@ =~= replaced(s@, from@, to@));
    out
}

/// The lines of a text; see [`text_lines`].
pub fn lines(s: &str) -> (out: Vec<String>)
    ensures
        views(out@) == text_lines(s@),
{
    let cs = to_chars(s);
    let n: usize = cs.len();
    let mut out: Vec<String> = Vec::new();
    let mut i: usize = 0;
    assert(s@.subrange(0, n as int) =~= s@);
    assert(views(out@) + text_lines(s@) =~= text_lines(s@));
    while i < n
        invariant
            n == s@.len(),
            cs@ == s@,
            i <= n,
            text_lines(s@) == views(out@) + text_lines(s@.subrange(i as int, n as int)),
        decreases n - i,
    {
        let ghost rest = s@.subrange(i as int, n as int);
        let ghost before = views(out@);
        let mut j: usize = i;
        assert(rest.subrange(0, rest.len() as int) =~= rest);
        while j < n && cs[j] != '\n'
            invariant
                n == s@.len(),
                cs@ == s@,
                i <= j <= n,
                line_end(rest) == (j - i) + line_end(s@.subrange(j as int, n as int)),
                rest == s@.subrange(i as int, n as int),
            decreases n - j,
        {
            assert(s@.subrange(j as int, n as int).drop_first() =~= s@.subrange(j + 1, n as int));
            assert(s@.subrange(j as int, n as int)[0] == cs@[j as int]);
            j += 1;
        }
        if j < n {
            assert(s@.subrange(j as int, n as int)[0] == cs@[j as int]);
            assert(line_end(rest) == j - i);
            assert(rest.subrange(0, j - i) =~= s@.subrange(i as int, j as int));
            assert(rest.subrange(j - i + 1, rest.len() as int) =~= s@.subrange(j + 1, n as int));
            let end: usize = if j > i && cs[j - 1] == '\r' {
                j - 1
            } else {
                j
            };
            assert(s@.subrange(i as int, end as int) =~= without_cr(s@.subrange(i as int, j as int)));
            out.push(s.substring_char(i, end).to_owned());
            assert(views(out@) =~= before.push(s@.subrange(i as int, end as int)));
            assert(views(out@) + text_lines(s@.subrange(j + 1, n as int)) =~= before + (seq![
                s@.subrange(i as int, end as int),
            ] + text_lines(s@.subrange(j + 1, n as int))));
            i = j + 1;
        } else {
            assert(line_end(s@.subrange(n as int, n as int)) == 0);
            assert(line_end(rest) == rest.len());
            out.push(s.substring_char(i, n).to_owned());
            assert(views(out@) =~= before.push(rest));
            assert(text_lines(s@.subrange(n as int, n as int)) =~= Seq::<Seq<char>>::empty());
            assert(views(out@) + text_lines(s@.subrange(n as int, n as int)) =~= before + seq![
                rest,
            ]);
            i = n;
        }
    }
    assert(text_lines(s@.subrange(n as int, n as int)) =~= Seq::<Seq<char>>::empty());
    assert(views(out@) + Seq::<Seq<char>>::empty() =~= views(out@));
    out
}

} // verus!
