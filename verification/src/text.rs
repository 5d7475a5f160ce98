//! Text primitives over `&str` and `String`, stated on sequences of characters.
//!
//! A string is modelled by the sequence of its characters. Whitespace is the
//! Unicode `White_Space` property; digits, letters and case folding named
//! `ascii` are confined to the ASCII range.
use vstd::prelude::*;
use vstd::string::*;

verus! {

/// Whether two strings hold the same characters. Stands for `str`'s `==`.
#[verifier::external_body]
pub(crate) fn str_eq(a: &str, b: &str) -> (same: bool)
    ensures
        same == (a@ == b@),
{
    a == b
}

/// `String::push`: the character goes behind those that are there.
pub assume_specification[ String::push ](s: &mut String, c: char)
    ensures
        final(s)@ == old(s)@.push(c),
;

/// The string made of the given characters, in order.
pub fn string_from_chars(chars: &Vec<char>) -> (s: String)
    ensures
        s@ == chars@,
{
    let mut s = String::new();
    let mut i: usize = 0;
    while i < chars.len()
        invariant
            i <= chars@.len(),
            s@ == chars@.take(i as int),
        decreases chars.len() - i,
    {
        s.push(chars[i]);
        i = i + 1;
        assert(chars@.take(i as int) =~= chars@.take(i - 1).push(chars@[i - 1]));
    }
    assert(chars@.take(i as int) =~= chars@);
    s
}

/// The characters of a string, in order.
pub fn chars_of(s: &str) -> (chars: Vec<char>)
    ensures
        chars@ == s@,
{
    let mut chars: Vec<char> = Vec::new();
    for c in iter: s.chars()
        invariant
            chars@ == s@.take(iter.index() as int),
            iter.seq() == s@,
    {
        chars.push(c);
        assert(s@.take(iter.index() + 1) =~= s@.take(iter.index() as int).push(c));
    }
    assert(s@.take(s@.len() as int) =~= s@);
    chars
}

/// The character sequences of a list of string slices.
pub open spec fn strs(v: Seq<&str>) -> Seq<Seq<char>> {
    v.map_values(|s: &str| s@)
}

/// The character sequences of a list of owned strings.
pub open spec fn strings(v: Seq<String>) -> Seq<Seq<char>> {
    v.map_values(|s: String| s@)
}

/// The characters of an optional string.
pub open spec fn opt_view(s: Option<String>) -> Option<Seq<char>> {
    match s {
        Some(t) => Some(t@),
        None => None,
    }
}

/// The characters of an optional string slice.
pub open spec fn opt_str_view(s: Option<&str>) -> Option<Seq<char>> {
    match s {
        Some(t) => Some(t@),
        None => None,
    }
}

/// A copy of an optional string.
pub fn clone_opt(s: &Option<String>) -> (r: Option<String>)
    ensures
        r == *s,
{
    match s {
        Some(t) => Some(t.clone()),
        None => None,
    }
}

/// A copy of a list of strings.
pub fn clone_strings(v: &Vec<String>) -> (r: Vec<String>)
    ensures
        r@ == v@,
{
    let mut r: Vec<String> = Vec::new();
    let mut i: usize = 0;
    while i < v.len()
        invariant
            i <= v.len(),
            r@ == v@.take(i as int),
        decreases v.len() - i,
    {
        r.push(v[i].clone());
        i = i + 1;
        assert(v@.take(i as int) =~= v@.take(i - 1).push(v@[i - 1]));
    }
    assert(v@.take(v@.len() as int) =~= v@);
    r
}

/// Whether a list of strings holds the given one.
pub fn contains_string(v: &Vec<String>, s: &str) -> (found: bool)
    ensures
        found == strings(v@).contains(s@),
{
    let mut i: usize = 0;
    while i < v.len()
        invariant
            i <= v.len(),
            forall|j: int| 0 <= j < i ==> strings(v@)[j] != s@,
        decreases v.len() - i,
    {
        if str_eq(v[i].as_str(), s) {
            assert(strings(v@)[i as int] == s@);
            return true;
        }
        i = i + 1;
    }
    false
}

// ---------------------------------------------------------------------------
// Whitespace
// ---------------------------------------------------------------------------

/// The characters with the Unicode `White_Space` property.
pub open spec fn is_white(c: char) -> bool {
    let n = c as u32;
    ||| 0x09 <= n <= 0x0d
    ||| n == 0x20
    ||| n == 0x85
    ||| n == 0xa0
    ||| n == 0x1680
    ||| 0x2000 <= n <= 0x200a
    ||| n == 0x2028
    ||| n == 0x2029
    ||| n == 0x202f
    ||| n == 0x205f
    ||| n == 0x3000
}

/// Whether a character has the Unicode `White_Space` property.
pub fn is_whitespace(c: char) -> (white: bool)
    ensures
        white == is_white(c),
{
    let n: u32 = c as u32;
    (n >= 0x09 && n <= 0x0d) || n == 0x20 || n == 0x85 || n == 0xa0 || n == 0x1680 || (n >= 0x2000
        && n <= 0x200a) || n == 0x2028 || n == 0x2029 || n == 0x202f || n == 0x205f || n == 0x3000
}

/// A text without its leading whitespace.
pub open spec fn trimmed_start(s: Seq<char>) -> Seq<char>
    decreases s.len(),
{
    if s.len() > 0 && is_white(s[0]) {
        trimmed_start(s.skip(1))
    } else {
        s
    }
}

/// A text without its trailing whitespace.
pub open spec fn trimmed_end(s: Seq<char>) -> Seq<char>
    decreases s.len(),
{
    if s.len() > 0 && is_white(s.last()) {
        trimmed_end(s.drop_last())
    } else {
        s
    }
}

/// A text without the whitespace around it.
pub open spec fn trimmed(s: Seq<char>) -> Seq<char> {
    trimmed_end(trimmed_start(s))
}

/// The position of the first character from `from` on that is not whitespace.
fn white_end(chars: &Vec<char>, from: usize) -> (end: usize)
    requires
        from <= chars@.len(),
    ensures
        from <= end <= chars@.len(),
        trimmed_start(chars@.skip(from as int)) == chars@.skip(end as int),
        end < chars@.len() ==> !is_white(chars@[end as int]),
{
    let mut i: usize = from;
    while i < chars.len() && is_whitespace(chars[i])
        invariant
            from <= i <= chars@.len(),
            trimmed_start(chars@.skip(from as int)) == trimmed_start(chars@.skip(i as int)),
        decreases chars.len() - i,
    {
        assert(chars@.skip(i as int).skip(1) =~= chars@.skip(i + 1));
        i = i + 1;
    }
    i
}

/// A text without the whitespace around it.
pub fn trim<'a>(s: &'a str) -> (r: &'a str)
    ensures
        r@ == trimmed(s@),
{
    let chars = chars_of(s);
    let start = white_end(&chars, 0);
    assert(chars@.skip(0) =~= chars@);
    let mut end: usize = chars.len();
    assert(chars@.skip(start as int) =~= chars@.subrange(start as int, end as int));
    while end > start && is_whitespace(chars[end - 1])
        invariant
            start <= end <= chars@.len(),
            trimmed(chars@) == trimmed_end(chars@.subrange(start as int, end as int)),
        decreases end,
    {
        assert(chars@.subrange(start as int, end as int).drop_last() =~= chars@.subrange(
            start as int,
            end - 1,
        ));
        end = end - 1;
    }
    s.substring_char(start, end)
}

// ---------------------------------------------------------------------------
// Searching
// ---------------------------------------------------------------------------

/// The position of the first `c` in `s`, or the length of `s` if there is none.
pub open spec fn find(s: Seq<char>, c: char) -> nat
    decreases s.len(),
{
    if s.len() == 0 || s[0] == c {
        0
    } else {
        1 + find(s.skip(1), c)
    }
}

/// What `find` gives: nothing before the position is `c`, and what stands there is.
pub proof fn lemma_find(s: Seq<char>, c: char)
    ensures
        find(s, c) <= s.len(),
        forall|i: int| 0 <= i < find(s, c) ==> s[i] != c,
        find(s, c) < s.len() ==> s[find(s, c) as int] == c,
    decreases s.len(),
{
    if s.len() > 0 && s[0] != c {
        lemma_find(s.skip(1), c);
        assert forall|i: int| 0 <= i < find(s, c) implies s[i] != c by {
            if i > 0 {
                assert(s.skip(1)[i - 1] == s[i]);
            }
        }
    }
}

/// The only position that `find` can give.
pub proof fn lemma_find_at(s: Seq<char>, c: char, at: int)
    requires
        0 <= at <= s.len(),
        forall|i: int| 0 <= i < at ==> s[i] != c,
        at < s.len() ==> s[at] == c,
    ensures
        find(s, c) == at,
{
    lemma_find(s, c);
    if find(s, c) < at {
        assert(s[find(s, c) as int] != c);
    }
}

/// The position of the last `c` in `s`, or -1 if there is none.
pub open spec fn rfind(s: Seq<char>, c: char) -> int
    decreases s.len(),
{
    if s.len() == 0 {
        -1
    } else if s.last() == c {
        s.len() - 1
    } else {
        rfind(s.drop_last(), c)
    }
}

/// What `rfind` gives: nothing after the position is `c`, and what stands there is.
pub proof fn lemma_rfind(s: Seq<char>, c: char)
    ensures
        -1 <= rfind(s, c) < s.len(),
        forall|i: int| rfind(s, c) < i < s.len() ==> s[i] != c,
        rfind(s, c) >= 0 ==> s[rfind(s, c)] == c,
    decreases s.len(),
{
    if s.len() > 0 && s.last() != c {
        lemma_rfind(s.drop_last(), c);
        assert forall|i: int| rfind(s, c) < i < s.len() implies s[i] != c by {
            if i < s.len() - 1 {
                assert(s.drop_last()[i] == s[i]);
            }
        }
    }
}

/// The position of the first `c` at or after `from`, or the length if there is none.
pub fn find_from(chars: &Vec<char>, from: usize, c: char) -> (at: usize)
    requires
        from <= chars@.len(),
    ensures
        at == from + find(chars@.skip(from as int), c),
        from <= at <= chars@.len(),
        at < chars@.len() ==> chars@[at as int] == c,
{
    let mut i: usize = from;
    while i < chars.len() && chars[i] != c
        invariant
            from <= i <= chars@.len(),
            forall|j: int| from <= j < i ==> chars@[j] != c,
        decreases chars.len() - i,
    {
        i = i + 1;
    }
    proof {
        lemma_find_at(chars@.skip(from as int), c, i - from);
    }
    i
}

/// The position of the first `c` in the text, if there is one.
pub fn find_char(s: &str, c: char) -> (at: Option<usize>)
    ensures
        match at {
            Some(i) => i == find(s@, c) && i < s@.len(),
            None => find(s@, c) == s@.len(),
        },
{
    let chars = chars_of(s);
    let i = find_from(&chars, 0, c);
    assert(chars@.skip(0) =~= chars@);
    if i < chars.len() {
        Some(i)
    } else {
        None
    }
}

/// The position of the last `c` in the text, if there is one.
pub fn rfind_char(s: &str, c: char) -> (at: Option<usize>)
    ensures
        match at {
            Some(i) => i == rfind(s@, c) && i < s@.len(),
            None => rfind(s@, c) == -1,
        },
{
    let chars = chars_of(s);
    let mut i: usize = chars.len();
    assert(chars@.take(i as int) =~= chars@);
    while i > 0
        invariant
            i <= chars@.len(),
            chars@ == s@,
            rfind(chars@, c) == rfind(chars@.take(i as int), c),
        decreases i,
    {
        let ghost t = chars@.take(i as int);
        assert(t.last() == chars@[i - 1]);
        assert(t.drop_last() =~= chars@.take(i - 1));
        if chars[i - 1] == c {
            return Some(i - 1);
        }
        i = i - 1;
    }
    None
}

/// What follows the last `c`, or the whole text if there is none.
pub open spec fn after_last(s: Seq<char>, c: char) -> Seq<char> {
    s.skip(rfind(s, c) + 1)
}

/// What follows the last `c`, or the whole text if there is none.
pub fn rest_after_last<'a>(s: &'a str, c: char) -> (r: &'a str)
    ensures
        r@ == after_last(s@, c),
{
    match rfind_char(s, c) {
        Some(i) => {
            let n = s.unicode_len();
            assert(s@.subrange(i + 1, n as int) =~= s@.skip(i + 1));
            s.substring_char(i + 1, n)
        },
        None => {
            assert(s@.skip(0) =~= s@);
            s
        },
    }
}

/// The two sides of the first `c`, or nothing where `c` does not occur.
pub fn split_once<'a>(s: &'a str, c: char) -> (r: Option<(&'a str, &'a str)>)
    ensures
        match r {
            Some((a, b)) => {
                &&& find(s@, c) < s@.len()
                &&& a@ == s@.take(find(s@, c) as int)
                &&& b@ == s@.skip(find(s@, c) as int + 1)
            },
            None => find(s@, c) == s@.len(),
        },
{
    match find_char(s, c) {
        Some(i) => {
            let n = s.unicode_len();
            assert(s@.subrange(0, i as int) =~= s@.take(i as int));
            assert(s@.subrange(i + 1, n as int) =~= s@.skip(i + 1));
            Some((s.substring_char(0, i), s.substring_char(i + 1, n)))
        },
        None => None,
    }
}

/// Whether `pat` stands in `s` at position `at`.
pub open spec fn stands_at(s: Seq<char>, pat: Seq<char>, at: int) -> bool {
    0 <= at && at + pat.len() <= s.len() && s.subrange(at, at + pat.len()) == pat
}

/// Whether `pat` occurs somewhere in `s`.
pub open spec fn occurs(s: Seq<char>, pat: Seq<char>) -> bool {
    exists|at: int| #[trigger] stands_at(s, pat, at)
}

/// Whether `pat` stands at `at`.
pub fn matches_at(chars: &Vec<char>, at: usize, pat: &Vec<char>) -> (r: bool)
    requires
        at <= chars@.len(),
    ensures
        r == stands_at(chars@, pat@, at as int),
{
    if chars.len() - at < pat.len() {
        return false;
    }
    let mut i: usize = 0;
    while i < pat.len()
        invariant
            i <= pat@.len(),
            at + pat@.len() <= chars.len(),
            forall|j: int| 0 <= j < i ==> chars@[at + j] == pat@[j],
        decreases pat.len() - i,
    {
        if chars[at + i] != pat[i] {
            assert(chars@.subrange(at as int, at + pat@.len())[i as int] != pat@[i as int]);
            return false;
        }
        i = i + 1;
    }
    assert(chars@.subrange(at as int, at + pat@.len()) =~= pat@);
    true
}

/// Whether `pat` occurs in the text.
pub fn contains(s: &str, pat: &str) -> (r: bool)
    ensures
        r == occurs(s@, pat@),
{
    let chars = chars_of(s);
    let p = chars_of(pat);
    let mut i: usize = 0;
    while i < chars.len()
        invariant
            chars@ == s@,
            p@ == pat@,
            i <= chars@.len(),
            forall|j: int| 0 <= j < i ==> !#[trigger] stands_at(s@, pat@, j),
        decreases chars.len() - i,
    {
        if matches_at(&chars, i, &p) {
            return true;
        }
        i = i + 1;
    }
    matches_at(&chars, i, &p)
}

/// Whether the text begins with `pat`.
pub fn starts_with(s: &str, pat: &str) -> (r: bool)
    ensures
        r == pat@.is_prefix_of(s@),
{
    let chars = chars_of(s);
    let p = chars_of(pat);
    let r = matches_at(&chars, 0, &p);
    proof {
        if r {
            assert(s@.subrange(0, pat@.len() as int) =~= pat@);
        }
    }
    r
}

/// Whether the text ends with `pat`.
pub fn ends_with(s: &str, pat: &str) -> (r: bool)
    ensures
        r == pat@.is_suffix_of(s@),
{
    let chars = chars_of(s);
    let p = chars_of(pat);
    if chars.len() < p.len() {
        return false;
    }
    matches_at(&chars, chars.len() - p.len(), &p)
}

/// The text without the given beginning, if it has it.
pub fn strip_prefix<'a>(s: &'a str, pat: &str) -> (r: Option<&'a str>)
    ensures
        match r {
            Some(t) => pat@.is_prefix_of(s@) && t@ == s@.skip(pat@.len() as int),
            None => !pat@.is_prefix_of(s@),
        },
{
    if starts_with(s, pat) {
        let n = s.unicode_len();
        let k = pat.unicode_len();
        assert(s@.subrange(k as int, n as int) =~= s@.skip(k as int));
        Some(s.substring_char(k, n))
    } else {
        None
    }
}

/// The text without the given end, if it has it.
pub fn strip_suffix<'a>(s: &'a str, pat: &str) -> (r: Option<&'a str>)
    ensures
        match r {
            Some(t) => pat@.is_suffix_of(s@) && t@ == s@.take(s@.len() - pat@.len()),
            None => !pat@.is_suffix_of(s@),
        },
{
    if ends_with(s, pat) {
        let n = s.unicode_len();
        let k = pat.unicode_len();
        assert(s@.subrange(0, n - k) =~= s@.take(n - k));
        Some(s.substring_char(0, n - k))
    } else {
        None
    }
}

// ---------------------------------------------------------------------------
// Splitting and joining
// ---------------------------------------------------------------------------

/// A line's text: what stands before its line feed, without a carriage return
/// right before it.
pub open spec fn line_text(s: Seq<char>) -> Seq<char> {
    if s.len() > 0 && s.last() == '\r' {
        s.drop_last()
    } else {
        s
    }
}

/// The lines of a text. A line ends in a line feed, or in a carriage return and
/// a line feed; the end of the last line may be missing.
pub open spec fn lines(s: Seq<char>) -> Seq<Seq<char>>
    decreases s.len(),
{
    if s.len() == 0 {
        seq![]
    } else {
        let i = find(s, '\n');
        if i >= s.len() {
            seq![s]
        } else {
            seq![line_text(s.take(i as int))] + lines(s.skip(i as int + 1))
        }
    }
}

/// The lines of a text.
pub fn lines_of<'a>(s: &'a str) -> (r: Vec<&'a str>)
    ensures
        strs(r@) == lines(s@),
{
    let chars = chars_of(s);
    let mut out: Vec<&'a str> = Vec::new();
    let mut pos: usize = 0;
    assert(chars@.skip(0) =~= chars@);
    assert(strs(out@) + lines(chars@) =~= lines(chars@));
    while pos < chars.len()
        invariant
            chars@ == s@,
            pos <= chars@.len(),
            strs(out@) + lines(chars@.skip(pos as int)) == lines(s@),
        decreases chars.len() - pos,
    {
        let end = find_from(&chars, pos, '\n');
        let ghost rest = chars@.skip(pos as int);
        let ghost before = strs(out@);
        if end < chars.len() {
            let stop: usize = if end > pos && chars[end - 1] == '\r' {
                end - 1
            } else {
                end
            };
            let line = s.substring_char(pos, stop);
            assert(line@ =~= line_text(rest.take(end - pos)));
            out.push(line);
            assert(strs(out@) =~= before.push(line@));
            assert(rest.skip(end - pos + 1) =~= chars@.skip(end + 1));
            assert(before + (seq![line@] + lines(chars@.skip(end + 1))) =~= strs(out@) + lines(
                chars@.skip(end + 1),
            ));
            pos = end + 1;
        } else {
            let line = s.substring_char(pos, end);
            assert(line@ =~= rest);
            out.push(line);
            assert(strs(out@) =~= before.push(line@));
            assert(before + seq![line@] =~= strs(out@) + lines(chars@.skip(end as int)));
            pos = end;
        }
    }
    assert(chars@.skip(pos as int).len() == 0);
    assert(strs(out@) + lines(chars@.skip(pos as int)) =~= strs(out@));
    out
}

/// The length of the leading run of characters that are not whitespace.
pub open spec fn word_len(s: Seq<char>) -> nat
    decreases s.len(),
{
    if s.len() == 0 || is_white(s[0]) {
        0
    } else {
        1 + word_len(s.skip(1))
    }
}

pub proof fn lemma_word_len(s: Seq<char>)
    ensures
        word_len(s) <= s.len(),
        s.len() > 0 && !is_white(s[0]) ==> word_len(s) > 0,
    decreases s.len(),
{
    if s.len() > 0 && !is_white(s[0]) {
        lemma_word_len(s.skip(1));
    }
}

pub proof fn lemma_trimmed_start_len(s: Seq<char>)
    ensures
        trimmed_start(s).len() <= s.len(),
        trimmed_start(s).len() > 0 ==> !is_white(trimmed_start(s)[0]),
    decreases s.len(),
{
    if s.len() > 0 && is_white(s[0]) {
        lemma_trimmed_start_len(s.skip(1));
    }
}

/// The maximal runs of characters that are not whitespace, in order.
pub open spec fn words(s: Seq<char>) -> Seq<Seq<char>>
    decreases s.len(),
    via words_decreases
{
    let t = trimmed_start(s);
    if t.len() == 0 {
        seq![]
    } else {
        let n = word_len(t);
        seq![t.take(n as int)] + words(t.skip(n as int))
    }
}

#[via_fn]
proof fn words_decreases(s: Seq<char>) {
    lemma_trimmed_start_len(s);
    lemma_word_len(trimmed_start(s));
}

/// The maximal runs of characters that are not whitespace, in order.
pub fn split_whitespace<'a>(s: &'a str) -> (r: Vec<&'a str>)
    ensures
        strs(r@) == words(s@),
{
    let chars = chars_of(s);
    let mut out: Vec<&'a str> = Vec::new();
    let mut pos: usize = 0;
    assert(chars@.skip(0) =~= chars@);
    assert(strs(out@) + words(chars@) =~= words(chars@));
    loop
        invariant
            chars@ == s@,
            pos <= chars@.len(),
            strs(out@) + words(chars@.skip(pos as int)) == words(s@),
        ensures
            strs(out@) == words(s@),
        decreases chars.len() - pos,
    {
        let start = white_end(&chars, pos);
        let ghost before = strs(out@);
        let ghost t = chars@.skip(start as int);
        if start >= chars.len() {
            assert(strs(out@) + words(chars@.skip(pos as int)) =~= strs(out@));
            break;
        }
        let mut end: usize = start;
        while end < chars.len() && !is_whitespace(chars[end])
            invariant
                start <= end <= chars@.len(),
                t == chars@.skip(start as int),
                word_len(t) == (end - start) + word_len(chars@.skip(end as int)),
            decreases chars.len() - end,
        {
            assert(chars@.skip(end as int).skip(1) =~= chars@.skip(end + 1));
            end = end + 1;
        }
        let word = s.substring_char(start, end);
        proof {
            lemma_word_len(t);
            assert(word@ =~= t.take(word_len(t) as int));
            assert(t.skip(word_len(t) as int) =~= chars@.skip(end as int));
        }
        out.push(word);
        assert(strs(out@) =~= before.push(word@));
        assert(before + (seq![word@] + words(chars@.skip(end as int))) =~= strs(out@) + words(
            chars@.skip(end as int),
        ));
        pos = end;
    }
    out
}

/// The pieces of a text between the occurrences of `c`; one more than there are
/// occurrences.
pub open spec fn split(s: Seq<char>, c: char) -> Seq<Seq<char>>
    decreases s.len(),
{
    let i = find(s, c);
    if i >= s.len() {
        seq![s]
    } else {
        seq![s.take(i as int)] + split(s.skip(i as int + 1), c)
    }
}

/// The pieces of a text between the occurrences of `c`.
pub fn split_char<'a>(s: &'a str, c: char) -> (r: Vec<&'a str>)
    ensures
        strs(r@) == split(s@, c),
{
    let chars = chars_of(s);
    let mut out: Vec<&'a str> = Vec::new();
    let mut pos: usize = 0;
    assert(chars@.skip(0) =~= chars@);
    assert(strs(out@) + split(chars@, c) =~= split(chars@, c));
    loop
        invariant_except_break
            chars@ == s@,
            pos <= chars@.len(),
            strs(out@) + split(chars@.skip(pos as int), c) == split(s@, c),
        ensures
            strs(out@) == split(s@, c),
        decreases chars.len() - pos,
    {
        let end = find_from(&chars, pos, c);
        let ghost rest = chars@.skip(pos as int);
        let ghost before = strs(out@);
        let piece = s.substring_char(pos, end);
        out.push(piece);
        assert(strs(out@) =~= before.push(piece@));
        if end >= chars.len() {
            assert(piece@ =~= rest);
            assert(before + seq![piece@] =~= strs(out@));
            break;
        }
        assert(piece@ =~= rest.take(end - pos));
        assert(rest.skip(end - pos + 1) =~= chars@.skip(end + 1));
        assert(before + (seq![piece@] + split(chars@.skip(end + 1), c)) =~= strs(out@) + split(
            chars@.skip(end + 1),
            c,
        ));
        pos = end + 1;
    }
    out
}

/// The parts, each but the first with `sep` before it.
pub open spec fn joined(parts: Seq<Seq<char>>, sep: Seq<char>) -> Seq<char>
    decreases parts.len(),
{
    if parts.len() == 0 {
        seq![]
    } else if parts.len() == 1 {
        parts[0]
    } else {
        joined(parts.drop_last(), sep) + sep + parts.last()
    }
}

/// The parts from `from` on, each but the first with `sep` before it.
pub fn join_from(parts: &Vec<&str>, from: usize, sep: &str) -> (r: String)
    requires
        from <= parts@.len(),
    ensures
        r@ == joined(strs(parts@).skip(from as int), sep@),
{
    let mut r = String::new();
    let mut i: usize = from;
    let ghost all = strs(parts@).skip(from as int);
    while i < parts.len()
        invariant
            from <= i <= parts@.len(),
            all == strs(parts@).skip(from as int),
            r@ == joined(all.take(i - from), sep@),
        decreases parts.len() - i,
    {
        let ghost next = all.take(i - from + 1);
        assert(next.drop_last() =~= all.take(i - from));
        assert(next.last() == parts@[i as int]@);
        if i > from {
            r.append(sep);
        } else {
            assert(r@ + parts@[i as int]@ =~= parts@[i as int]@);
        }
        r.append(parts[i]);
        i = i + 1;
    }
    assert(all.take(i - from) =~= all);
    r
}

/// One text after another.
pub fn concat(a: &str, b: &str) -> (r: String)
    ensures
        r@ == a@ + b@,
{
    let mut r = a.to_owned();
    r.append(b);
    r
}

/// Two texts with a separator between them.
pub fn join2(a: &str, sep: &str, b: &str) -> (r: String)
    ensures
        r@ == a@ + sep@ + b@,
{
    let mut r = a.to_owned();
    r.append(sep);
    r.append(b);
    r
}

/// Three texts with a separator between each two.
pub fn join3(a: &str, sep: &str, b: &str, c: &str) -> (r: String)
    ensures
        r@ == a@ + sep@ + b@ + sep@ + c@,
{
    let mut r = join2(a, sep, b);
    r.append(sep);
    r.append(c);
    r
}

// ---------------------------------------------------------------------------
// ASCII letters
// ---------------------------------------------------------------------------

/// `c` with an ASCII capital letter made small.
pub open spec fn ascii_lower(c: char) -> char {
    if 'A' <= c <= 'Z' {
        ((c as u32 + 32) as u8) as char
    } else {
        c
    }
}

/// A text with its ASCII capital letters made small.
pub open spec fn ascii_lowered(s: Seq<char>) -> Seq<char> {
    s.map_values(|c: char| ascii_lower(c))
}

/// `c` with an ASCII capital letter made small.
pub fn to_ascii_lower(c: char) -> (r: char)
    ensures
        r == ascii_lower(c),
{
    if c >= 'A' && c <= 'Z' {
        (c as u8 + 32) as char
    } else {
        c
    }
}

/// A text with its ASCII capital letters made small.
pub fn to_ascii_lowercase(s: &str) -> (r: String)
    ensures
        r@ == ascii_lowered(s@),
{
    let chars = chars_of(s);
    let mut out: Vec<char> = Vec::new();
    let mut i: usize = 0;
    while i < chars.len()
        invariant
            chars@ == s@,
            i <= chars@.len(),
            out@ == ascii_lowered(s@).take(i as int),
        decreases chars.len() - i,
    {
        out.push(to_ascii_lower(chars[i]));
        i = i + 1;
        assert(ascii_lowered(s@).take(i as int) =~= ascii_lowered(s@).take(i - 1).push(
            ascii_lowered(s@)[i - 1],
        ));
    }
    assert(ascii_lowered(s@).take(i as int) =~= ascii_lowered(s@));
    string_from_chars(&out)
}

/// Whether two texts are equal but for the case of ASCII letters.
pub fn eq_ignore_ascii_case(a: &str, b: &str) -> (r: bool)
    ensures
        r == (ascii_lowered(a@) == ascii_lowered(b@)),
{
    let x = to_ascii_lowercase(a);
    let y = to_ascii_lowercase(b);
    str_eq(x.as_str(), y.as_str())
}

/// A text in small letters, by the rules of Unicode.
pub uninterp spec fn lower_case(s: Seq<char>) -> Seq<char>;

/// A text in capital letters, by the rules of Unicode.
pub uninterp spec fn upper_case(s: Seq<char>) -> Seq<char>;

/// A text in small letters. Stands for `str::to_lowercase`; claims only that the
/// result depends on the text alone.
#[verifier::external_body]
pub(crate) fn to_lowercase(s: &str) -> (r: String)
    ensures
        r@ == lower_case(s@),
{
    s.to_lowercase()
}

/// A text in capital letters. Stands for `str::to_uppercase`; claims only that
/// the result depends on the text alone.
#[verifier::external_body]
pub(crate) fn to_uppercase(s: &str) -> (r: String)
    ensures
        r@ == upper_case(s@),
{
    s.to_uppercase()
}

// ---------------------------------------------------------------------------
// Numbers
// ---------------------------------------------------------------------------

/// The value of an ASCII digit, in bases up to sixteen.
pub open spec fn digit_value(c: char) -> nat {
    if '0' <= c <= '9' {
        (c as u32 - '0' as u32) as nat
    } else if 'a' <= c <= 'f' {
        (c as u32 - 'a' as u32 + 10) as nat
    } else if 'A' <= c <= 'F' {
        (c as u32 - 'A' as u32 + 10) as nat
    } else {
        16
    }
}

/// Whether `c` is a digit in base `radix`.
pub open spec fn is_digit(c: char, radix: nat) -> bool {
    digit_value(c) < radix
}

/// Whether every character is a digit in base `radix`.
pub open spec fn all_digits(s: Seq<char>, radix: nat) -> bool {
    forall|i: int| 0 <= i < s.len() ==> is_digit(#[trigger] s[i], radix)
}

/// The number that a sequence of digits writes.
pub open spec fn number(s: Seq<char>, radix: nat) -> nat
    decreases s.len(),
{
    if s.len() == 0 {
        0
    } else {
        number(s.drop_last(), radix) * radix + digit_value(s.last())
    }
}

/// A text without the plus sign that it may begin with.
pub open spec fn unsigned(s: Seq<char>) -> Seq<char> {
    if s.len() > 0 && s[0] == '+' {
        s.skip(1)
    } else {
        s
    }
}

/// The number that a text writes in base `radix`, if it writes one that is no
/// larger than `max`: at least one digit, with at most a plus sign before them.
pub open spec fn parsed(s: Seq<char>, radix: nat, max: nat) -> Option<nat> {
    let d = unsigned(s);
    if d.len() > 0 && all_digits(d, radix) && number(d, radix) <= max {
        Some(number(d, radix))
    } else {
        None
    }
}

proof fn lemma_number_grows(s: Seq<char>, radix: nat, i: int)
    requires
        0 <= i <= s.len(),
        radix >= 1,
    ensures
        number(s.take(i), radix) <= number(s, radix),
    decreases s.len() - i,
{
    if i < s.len() {
        lemma_number_grows(s, radix, i + 1);
        assert(s.take(i + 1).drop_last() =~= s.take(i));
        let n = number(s.take(i), radix);
        assert(n <= n * radix) by (nonlinear_arith)
            requires
                radix >= 1,
        ;
    } else {
        assert(s.take(i) =~= s);
    }
}

/// The value of an ASCII digit, in bases up to sixteen.
fn digit_of(c: char) -> (d: u64)
    ensures
        d == digit_value(c),
        d <= 16,
{
    if c >= '0' && c <= '9' {
        c as u64 - '0' as u64
    } else if c >= 'a' && c <= 'f' {
        c as u64 - 'a' as u64 + 10
    } else if c >= 'A' && c <= 'F' {
        c as u64 - 'A' as u64 + 10
    } else {
        16
    }
}

/// The number that a text writes in base `radix`, if it writes one that is no
/// larger than `max`.
pub fn parse_radix(s: &str, radix: u64, max: u64) -> (r: Option<u64>)
    requires
        2 <= radix <= 16,
    ensures
        match r {
            Some(n) => parsed(s@, radix as nat, max as nat) == Some(n as nat),
            None => parsed(s@, radix as nat, max as nat) is None,
        },
{
    let chars = chars_of(s);
    let start: usize = if chars.len() > 0 && chars[0] == '+' {
        1
    } else {
        0
    };
    let ghost d = unsigned(s@);
    assert(d =~= chars@.skip(start as int));
    if start >= chars.len() {
        return None;
    }
    let mut n: u64 = 0;
    let mut i: usize = start;
    while i < chars.len()
        invariant
            start <= i <= chars@.len(),
            2 <= radix <= 16,
            chars@ == s@,
            d == unsigned(s@),
            d == chars@.skip(start as int),
            n == number(d.take(i - start), radix as nat),
            n <= max,
            forall|j: int| start <= j < i ==> is_digit(#[trigger] chars@[j], radix as nat),
        decreases chars.len() - i,
    {
        let v = digit_of(chars[i]);
        let ghost at = i - start;
        proof {
            assert(d[at] == chars@[i as int]);
            assert(d.take(at + 1).drop_last() =~= d.take(at));
            lemma_number_grows(d, radix as nat, at + 1);
        }
        if v >= radix {
            assert(!is_digit(d[at], radix as nat));
            return None;
        }
        assert(n * radix <= u64::MAX * 16) by (nonlinear_arith)
            requires
                n <= u64::MAX,
                radix <= 16,
        ;
        let wide: u128 = n as u128 * radix as u128 + v as u128;
        if wide > max as u128 {
            return None;
        }
        n = wide as u64;
        i = i + 1;
    }
    assert(d.take(i - start) =~= d);
    assert forall|j: int| 0 <= j < d.len() implies is_digit(#[trigger] d[j], radix as nat) by {
        assert(d[j] == chars@[start + j]);
    }
    Some(n)
}

/// The decimal number that a text writes, if it fits `u64`.
pub fn parse_u64(s: &str) -> (r: Option<u64>)
    ensures
        match r {
            Some(n) => parsed(s@, 10, u64::MAX as nat) == Some(n as nat),
            None => parsed(s@, 10, u64::MAX as nat) is None,
        },
{
    parse_radix(s, 10, u64::MAX)
}

/// The decimal number that a text writes, if it fits `u32`.
pub fn parse_u32(s: &str) -> (r: Option<u32>)
    ensures
        match r {
            Some(n) => parsed(s@, 10, u32::MAX as nat) == Some(n as nat),
            None => parsed(s@, 10, u32::MAX as nat) is None,
        },
{
    match parse_radix(s, 10, u32::MAX as u64) {
        Some(n) => Some(n as u32),
        None => None,
    }
}

/// The decimal number that a text writes, if it fits `u16`.
pub fn parse_u16(s: &str) -> (r: Option<u16>)
    ensures
        match r {
            Some(n) => parsed(s@, 10, u16::MAX as nat) == Some(n as nat),
            None => parsed(s@, 10, u16::MAX as nat) is None,
        },
{
    match parse_radix(s, 10, u16::MAX as u64) {
        Some(n) => Some(n as u16),
        None => None,
    }
}

/// Whether a text is one or more ASCII digits.
pub open spec fn numeric(s: Seq<char>) -> bool {
    s.len() > 0 && all_digits(s, 10)
}

/// Whether a text is one or more ASCII digits.
pub fn is_numeric(s: &str) -> (r: bool)
    ensures
        r == numeric(s@),
{
    let chars = chars_of(s);
    let mut i: usize = 0;
    while i < chars.len()
        invariant
            chars@ == s@,
            i <= chars@.len(),
            forall|j: int| 0 <= j < i ==> is_digit(#[trigger] chars@[j], 10),
        decreases chars.len() - i,
    {
        if digit_of(chars[i]) >= 10 {
            assert(!is_digit(s@[i as int], 10));
            return false;
        }
        i = i + 1;
    }
    chars.len() > 0
}

/// The ASCII digit of a value below ten.
pub open spec fn digit_char(d: nat) -> char {
    (('0' as u8 + d) as u8) as char
}

/// A number in decimal digits, without leading zeros.
pub open spec fn decimal(n: nat) -> Seq<char>
    decreases n,
{
    if n < 10 {
        seq![digit_char(n)]
    } else {
        decimal(n / 10).push(digit_char(n % 10))
    }
}

/// A number in decimal digits, without leading zeros.
fn decimal_chars(n: u64) -> (r: Vec<char>)
    ensures
        r@ == decimal(n as nat),
    decreases n,
{
    let last = ('0' as u8 + (n % 10) as u8) as char;
    if n < 10 {
        let mut r: Vec<char> = Vec::new();
        r.push(last);
        assert(r@ =~= decimal(n as nat));
        r
    } else {
        let mut r = decimal_chars(n / 10);
        r.push(last);
        r
    }
}

/// A number in decimal digits, without leading zeros.
pub fn decimal_of(n: u64) -> (r: String)
    ensures
        r@ == decimal(n as nat),
{
    let chars = decimal_chars(n);
    string_from_chars(&chars)
}

/// A number in octal digits, without leading zeros.
pub open spec fn octal(n: nat) -> Seq<char>
    decreases n,
{
    if n < 8 {
        seq![digit_char(n)]
    } else {
        octal(n / 8).push(digit_char(n % 8))
    }
}

/// A number in octal digits, without leading zeros.
pub fn octal_of(n: u32) -> (r: String)
    ensures
        r@ == octal(n as nat),
    decreases n,
{
    let mut r = if n < 8 {
        String::new()
    } else {
        octal_of(n / 8)
    };
    r.push(octal_digit(n % 8));
    assert(r@ =~= octal(n as nat));
    r
}

fn octal_digit(n: u32) -> (r: char)
    requires
        n < 10,
    ensures
        r == digit_char(n as nat),
{
    (48u8 + n as u8) as char
}

} // verus!
