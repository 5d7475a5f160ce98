//! What taking texts and bytes apart gives, said of texts that are put together.
use vstd::prelude::*;
use vstd::string::*;

use crate::bytes::{
    ascii_trimmed, ascii_trimmed_end, ascii_trimmed_start, ascii_white, chomped, first_line_len,
    raw_lines,
};
use crate::config::hash::lemma_decimal_is_digits;
use crate::text::{
    ascii_lowered, decimal, digit_char, digit_value, is_digit, is_white, joined, lemma_find_at,
    lemma_rfind, lines, number, numeric, octal, parsed, rfind, split, trimmed, trimmed_end,
    trimmed_start, unsigned, word_len, words,
};

verus! {

/// White space is what Unicode says it is: twenty-five characters.
pub proof fn white_space_is_known(c: char)
    ensures
        is_white(c) <==> {
            let n = c as int;
            n == 9 || n == 10 || n == 11 || n == 12 || n == 13 || n == 32 || n == 0x85 || n == 0xa0
                || n == 0x1680 || (0x2000 <= n <= 0x200a) || n == 0x2028 || n == 0x2029 || n
                == 0x202f || n == 0x205f || n == 0x3000
        },
{
}

/// Only the space, the tab, and the ends of lines and pages are white in bytes.
pub proof fn white_bytes_are_known(b: u8)
    ensures
        ascii_white(b) <==> b == 0x20 || b == 0x09 || b == 0x0a || b == 0x0c || b == 0x0d,
{
}

proof fn lemma_white_front(white: Seq<char>, rest: Seq<char>)
    requires
        forall|i: int| 0 <= i < white.len() ==> is_white(#[trigger] white[i]),
    ensures
        trimmed_start(white + rest) == trimmed_start(rest),
    decreases white.len(),
{
    if white.len() == 0 {
        assert(white + rest =~= rest);
    } else {
        assert((white + rest).skip(1) =~= white.skip(1) + rest);
        lemma_white_front(white.skip(1), rest);
    }
}

proof fn lemma_white_back(rest: Seq<char>, white: Seq<char>)
    requires
        forall|i: int| 0 <= i < white.len() ==> is_white(#[trigger] white[i]),
    ensures
        trimmed_end(rest + white) == trimmed_end(rest),
    decreases white.len(),
{
    if white.len() == 0 {
        assert(rest + white =~= rest);
    } else {
        assert((rest + white).drop_last() =~= rest + white.drop_last());
        lemma_white_back(rest, white.drop_last());
    }
}

/// Trimming takes off the white space around a text, all of it and nothing else.
pub proof fn trimming_takes_white_space_off(before: Seq<char>, core: Seq<char>, after: Seq<char>)
    requires
        forall|i: int| 0 <= i < before.len() ==> is_white(#[trigger] before[i]),
        forall|i: int| 0 <= i < after.len() ==> is_white(#[trigger] after[i]),
        core.len() > 0 ==> !is_white(core[0]) && !is_white(core.last()),
    ensures
        trimmed(before + core + after) == core,
{
    assert(before + core + after =~= before + (core + after));
    lemma_white_front(before, core + after);
    if core.len() == 0 {
        assert(core + after =~= after);
        lemma_white_front(after, Seq::<char>::empty());
        assert(after + Seq::<char>::empty() =~= after);
        assert(trimmed_start(Seq::<char>::empty()) =~= Seq::<char>::empty());
        assert(trimmed_end(Seq::<char>::empty()) =~= Seq::<char>::empty());
        assert(core =~= Seq::<char>::empty());
    } else {
        assert((core + after)[0] == core[0]);
        lemma_white_back(core, after);
    }
}

proof fn lemma_ascii_front(white: Seq<u8>, rest: Seq<u8>)
    requires
        forall|i: int| 0 <= i < white.len() ==> ascii_white(#[trigger] white[i]),
    ensures
        ascii_trimmed_start(white + rest) == ascii_trimmed_start(rest),
    decreases white.len(),
{
    if white.len() == 0 {
        assert(white + rest =~= rest);
    } else {
        assert((white + rest).skip(1) =~= white.skip(1) + rest);
        lemma_ascii_front(white.skip(1), rest);
    }
}

proof fn lemma_ascii_back(rest: Seq<u8>, white: Seq<u8>)
    requires
        forall|i: int| 0 <= i < white.len() ==> ascii_white(#[trigger] white[i]),
    ensures
        ascii_trimmed_end(rest + white) == ascii_trimmed_end(rest),
    decreases white.len(),
{
    if white.len() == 0 {
        assert(rest + white =~= rest);
    } else {
        assert((rest + white).drop_last() =~= rest + white.drop_last());
        lemma_ascii_back(rest, white.drop_last());
    }
}

/// The same of bytes.
pub proof fn trimming_takes_white_bytes_off(before: Seq<u8>, core: Seq<u8>, after: Seq<u8>)
    requires
        forall|i: int| 0 <= i < before.len() ==> ascii_white(#[trigger] before[i]),
        forall|i: int| 0 <= i < after.len() ==> ascii_white(#[trigger] after[i]),
        core.len() > 0 ==> !ascii_white(core[0]) && !ascii_white(core.last()),
    ensures
        ascii_trimmed(before + core + after) == core,
{
    assert(before + core + after =~= before + (core + after));
    lemma_ascii_front(before, core + after);
    if core.len() == 0 {
        assert(core + after =~= after);
        lemma_ascii_front(after, Seq::<u8>::empty());
        assert(after + Seq::<u8>::empty() =~= after);
        assert(ascii_trimmed_start(Seq::<u8>::empty()) =~= Seq::<u8>::empty());
        assert(ascii_trimmed_end(Seq::<u8>::empty()) =~= Seq::<u8>::empty());
        assert(core =~= Seq::<u8>::empty());
    } else {
        assert((core + after)[0] == core[0]);
        lemma_ascii_back(core, after);
    }
}

/// A text is split at every separator: a piece without one, a separator, and the rest
/// give that piece and the pieces of the rest.
pub proof fn splitting_undoes_joining(piece: Seq<char>, c: char, rest: Seq<char>)
    requires
        forall|i: int| 0 <= i < piece.len() ==> #[trigger] piece[i] != c,
    ensures
        split(piece, c) == seq![piece],
        split(piece + seq![c] + rest, c) == seq![piece] + split(rest, c),
{
    lemma_find_at(piece, c, piece.len() as int);
    let s = piece + seq![c] + rest;
    lemma_find_at(s, c, piece.len() as int);
    assert(s.take(piece.len() as int) =~= piece);
    assert(s.skip(piece.len() as int + 1) =~= rest);
}

/// The last separator is where what follows holds none.
pub proof fn the_last_one_is_found(before: Seq<char>, c: char, after: Seq<char>)
    requires
        forall|i: int| 0 <= i < after.len() ==> #[trigger] after[i] != c,
    ensures
        rfind(before + seq![c] + after, c) == before.len(),
        rfind(after, c) == -1,
{
    let s = before + seq![c] + after;
    lemma_rfind(s, c);
    assert(s[before.len() as int] == c);
    assert forall|i: int| before.len() < i < s.len() implies s[i] != c by {
        assert(s[i] == after[i - before.len() - 1]);
    }
    lemma_rfind(after, c);
}

proof fn lemma_word(word: Seq<char>, rest: Seq<char>)
    requires
        forall|i: int| 0 <= i < word.len() ==> !is_white(#[trigger] word[i]),
        rest.len() == 0 || is_white(rest[0]),
    ensures
        word_len(word + rest) == word.len(),
    decreases word.len(),
{
    if word.len() == 0 {
        assert(word + rest =~= rest);
    } else {
        assert((word + rest)[0] == word[0]);
        assert((word + rest).skip(1) =~= word.skip(1) + rest);
        lemma_word(word.skip(1), rest);
    }
}

/// A text falls into its words: white space, a word, and the rest give that word and the
/// words of the rest.
pub proof fn words_stand_between_white_space(white: Seq<char>, word: Seq<char>, rest: Seq<char>)
    requires
        forall|i: int| 0 <= i < white.len() ==> is_white(#[trigger] white[i]),
        forall|i: int| 0 <= i < word.len() ==> !is_white(#[trigger] word[i]),
        rest.len() == 0 || is_white(rest[0]),
        word.len() > 0,
    ensures
        words(white) == Seq::<Seq<char>>::empty(),
        words(white + word + rest) == seq![word] + words(rest),
{
    lemma_white_front(white, Seq::<char>::empty());
    assert(white + Seq::<char>::empty() =~= white);
    assert(trimmed_start(Seq::<char>::empty()).len() == 0);
    assert(words(white) =~= Seq::<Seq<char>>::empty());
    let s = white + word + rest;
    assert(s =~= white + (word + rest));
    lemma_white_front(white, word + rest);
    assert((word + rest)[0] == word[0]);
    lemma_word(word, rest);
    assert((word + rest).take(word.len() as int) =~= word);
    assert((word + rest).skip(word.len() as int) =~= rest);
}

/// A text falls into its lines: a line, its end and the rest give that line and the
/// lines of the rest. A carriage return before a line feed belongs to the end.
pub proof fn lines_end_in_line_feeds(line: Seq<char>, rest: Seq<char>)
    requires
        forall|i: int| 0 <= i < line.len() ==> #[trigger] line[i] != '\n',
    ensures
        line.len() > 0 ==> lines(line) == seq![line],
        line.len() == 0 || line.last() != '\r' ==> lines(line + seq!['\n'] + rest) == seq![line]
            + lines(rest),
        lines(line + seq!['\r', '\n'] + rest) == seq![line] + lines(rest),
{
    lemma_find_at(line, '\n', line.len() as int);
    let s = line + seq!['\n'] + rest;
    lemma_find_at(s, '\n', line.len() as int);
    assert(s.take(line.len() as int) =~= line);
    assert(s.skip(line.len() as int + 1) =~= rest);
    let t = line + seq!['\r', '\n'] + rest;
    let n = line.len() as int + 1;
    assert(t[n - 1] == '\r' && t[n] == '\n');
    assert forall|i: int| 0 <= i < n implies t[i] != '\n' by {
        if i < line.len() {
            assert(t[i] == line[i]);
        }
    }
    lemma_find_at(t, '\n', n);
    assert(t.take(n) =~= line.push('\r'));
    assert(line.push('\r').drop_last() =~= line);
    assert(t.skip(n + 1) =~= rest);
}

proof fn lemma_first_line(line: Seq<u8>, rest: Seq<u8>)
    requires
        forall|i: int| 0 <= i < line.len() ==> #[trigger] line[i] != 10u8,
    ensures
        first_line_len(line + seq![10u8] + rest) == line.len() + 1,
        first_line_len(line) == line.len(),
    decreases line.len(),
{
    let s = line + seq![10u8] + rest;
    if line.len() > 0 {
        assert(s[0] == line[0]);
        assert(s.skip(1) =~= line.skip(1) + seq![10u8] + rest);
        lemma_first_line(line.skip(1), rest);
    } else {
        assert(s[0] == 10u8);
    }
}

/// Bytes fall into their lines, each with its line feed.
pub proof fn raw_lines_keep_their_ends(line: Seq<u8>, rest: Seq<u8>)
    requires
        forall|i: int| 0 <= i < line.len() ==> #[trigger] line[i] != 10u8,
    ensures
        line.len() > 0 ==> raw_lines(line) == seq![line],
        raw_lines(line + seq![10u8] + rest) == seq![line.push(10u8)] + raw_lines(rest),
{
    lemma_first_line(line, rest);
    let s = line + seq![10u8] + rest;
    assert(s.take(line.len() as int + 1) =~= line.push(10u8));
    assert(s.skip(line.len() as int + 1) =~= rest);
    if line.len() > 0 {
        assert(line.take(line.len() as int) =~= line);
        assert(line.skip(line.len() as int) =~= Seq::<u8>::empty());
        assert(raw_lines(Seq::<u8>::empty()) =~= Seq::<Seq<u8>>::empty());
        assert(raw_lines(line) =~= seq![line]);
    }
}

/// Taking the end off a line leaves the line.
pub proof fn ends_of_lines_go(line: Seq<u8>)
    requires
        line.len() == 0 || (line.last() != 10u8 && line.last() != 13u8),
    ensures
        chomped(line) == line,
        chomped(line + seq![10u8]) == line,
        chomped(line + seq![13u8, 10u8]) == line,
        chomped(line + seq![13u8]) == line,
        chomped(line + seq![10u8, 10u8]) == line + seq![10u8],
        chomped(line + seq![13u8, 13u8, 10u8]) == line + seq![13u8],
{
    assert((line + seq![10u8]).drop_last() =~= line);
    assert((line + seq![13u8, 10u8]).drop_last() =~= line + seq![13u8]);
    assert((line + seq![13u8]).drop_last() =~= line);
    assert((line + seq![10u8, 10u8]).drop_last() =~= line + seq![10u8]);
    assert((line + seq![13u8, 13u8, 10u8]).drop_last() =~= line + seq![13u8, 13u8]);
    assert((line + seq![13u8, 13u8]).drop_last() =~= line + seq![13u8]);
}

/// Only the capital letters of ASCII become small, and each the one that it is.
pub proof fn small_letters_are_known(s: Seq<char>, i: int)
    requires
        0 <= i < s.len(),
    ensures
        ascii_lowered(s).len() == s.len(),
        0x41 <= s[i] as int <= 0x5a ==> ascii_lowered(s)[i] as int == s[i] as int + 0x20,
        !(0x41 <= s[i] as int <= 0x5a) ==> ascii_lowered(s)[i] == s[i],
{
}

/// A text is numeric just if it is one or more of the digits 0 to 9.
pub proof fn numbers_are_digits(s: Seq<char>)
    ensures
        numeric(s) <==> s.len() > 0 && forall|i: int|
            0 <= i < s.len() ==> 0x30 <= #[trigger] s[i] as int <= 0x39,
{
    if numeric(s) {
        assert forall|i: int| 0 <= i < s.len() implies 0x30 <= #[trigger] s[i] as int <= 0x39 by {
            assert(is_digit(s[i], 10));
        }
    }
    if s.len() > 0 && forall|i: int|
        0 <= i < s.len() ==> 0x30 <= #[trigger] s[i] as int <= 0x39 {
        assert forall|i: int| 0 <= i < s.len() implies is_digit(#[trigger] s[i], 10) by {
            assert(0x30 <= s[i] as int <= 0x39);
        }
    }
}

/// A number that is written down is read again, with a plus sign or without, unless it
/// is too large.
pub proof fn numbers_are_read_as_written(n: nat, max: nat)
    ensures
        parsed(decimal(n), 10, max) == if n <= max {
            Some(n)
        } else {
            None
        },
        parsed(seq!['+'] + decimal(n), 10, max) == parsed(decimal(n), 10, max),
        parsed(seq!['0'] + decimal(n), 10, max) == parsed(decimal(n), 10, max),
{
    let d = decimal(n);
    lemma_decimal_is_digits(n);
    assert(is_digit(d[0], 10));
    assert(unsigned(d) == d);
    assert((seq!['+'] + d).skip(1) =~= d);
    let z = seq!['0'] + d;
    assert(z[0] == '0');
    assert forall|i: int| 0 <= i < z.len() implies is_digit(#[trigger] z[i], 10) by {
        if i > 0 {
            assert(z[i] == d[i - 1]);
        }
    }
    lemma_leading_zero(d);
}

proof fn lemma_leading_zero(d: Seq<char>)
    ensures
        number(seq!['0'] + d, 10) == number(d, 10),
    decreases d.len(),
{
    let z = seq!['0'] + d;
    if d.len() == 0 {
        assert(z.drop_last() =~= Seq::<char>::empty());
        assert(number(z.drop_last(), 10) == 0);
    } else {
        assert(z.drop_last() =~= seq!['0'] + d.drop_last());
        lemma_leading_zero(d.drop_last());
    }
}

/// What is read as a number is digits and nothing else, but for a plus sign in front.
pub proof fn what_is_no_number_is_not_read(s: Seq<char>, max: nat, i: int)
    requires
        0 <= i < s.len(),
        !(0x30 <= s[i] as int <= 0x39),
        !(i == 0 && s[0] == '+'),
    ensures
        parsed(s, 10, max) is None,
        parsed(Seq::<char>::empty(), 10, max) is None,
        parsed(seq!['+'], 10, max) is None,
{
    let d = unsigned(s);
    let k = if s[0] == '+' {
        i - 1
    } else {
        i
    };
    assert(d[k] == s[i]);
    assert(!is_digit(d[k], 10));
    assert(seq!['+'].skip(1) =~= Seq::<char>::empty());
}

/// In hexadecimal digits letters count from ten on, capital or small.
pub proof fn hexadecimal_digits_are_known(c: char)
    ensures
        is_digit(c, 16) <==> (0x30 <= c as int <= 0x39) || (0x41 <= c as int <= 0x46) || (0x61
            <= c as int <= 0x66),
        0x30 <= c as int <= 0x39 ==> number(seq![c], 16) == c as int - 0x30,
        0x41 <= c as int <= 0x46 ==> number(seq![c], 16) == c as int - 0x41 + 10,
        0x61 <= c as int <= 0x66 ==> number(seq![c], 16) == c as int - 0x61 + 10,
{
    assert(seq![c].drop_last() =~= Seq::<char>::empty());
    assert(number(seq![c].drop_last(), 16) == 0);
}

/// A digit behind a number makes it ten, sixteen or eight times as large and adds the
/// digit.
pub proof fn digits_weigh_by_their_place(s: Seq<char>, c: char, radix: nat)
    ensures
        0x30 <= c as int <= 0x39 ==> number(s.push(c), radix) == number(s, radix) * radix
            + (c as int - 0x30),
        number(Seq::<char>::empty(), radix) == 0,
{
    assert(s.push(c).drop_last() =~= s);
}

/// Octal digits read back to the number that they were written for.
pub proof fn octal_digits_write_the_number(n: nat)
    ensures
        number(octal(n), 8) == n,
        octal(n).len() > 0,
        n > 0 ==> octal(n)[0] != '0',
        forall|i: int| 0 <= i < octal(n).len() ==> 0x30 <= #[trigger] octal(n)[i] as int <= 0x37,
    decreases n,
{
    let d = octal(n);
    if n < 8 {
        assert(d =~= seq![digit_char(n)]);
        assert(d.drop_last() =~= Seq::<char>::empty());
        assert(number(d.drop_last(), 8) == 0);
        assert(digit_value(d.last()) == n);
    } else {
        octal_digits_write_the_number(n / 8);
        let rest = octal(n / 8);
        assert(d.drop_last() =~= rest);
        assert(digit_value(d.last()) == n % 8);
        assert(d[0] == rest[0]);
        assert forall|i: int| 0 <= i < d.len() implies 0x30 <= #[trigger] d[i] as int <= 0x37 by {
            if i < rest.len() {
                assert(d[i] == rest[i]);
            }
        }
    }
}

/// Decimal digits read back to the number that they were written for, and none is a
/// zero in front.
pub proof fn decimal_digits_write_the_number(n: nat)
    ensures
        number(decimal(n), 10) == n,
        decimal(n).len() > 0,
        n > 0 ==> decimal(n)[0] != '0',
        forall|i: int| 0 <= i < decimal(n).len() ==> 0x30 <= #[trigger] decimal(n)[i] as int <= 0x39,
    decreases n,
{
    lemma_decimal_is_digits(n);
    let d = decimal(n);
    assert forall|i: int| 0 <= i < d.len() implies 0x30 <= #[trigger] d[i] as int <= 0x39 by {
        assert(is_digit(d[i], 10));
    }
    if n >= 10 {
        decimal_digits_write_the_number(n / 10);
        assert(d[0] == decimal(n / 10)[0]);
    } else {
        assert(d =~= seq![digit_char(n)]);
    }
}

/// Joined parts are the first one, and each further one with the separator before it.
pub proof fn joining_puts_separators_between(parts: Seq<Seq<char>>, part: Seq<char>, sep: Seq<char>)
    ensures
        joined(Seq::<Seq<char>>::empty(), sep) == Seq::<char>::empty(),
        joined(seq![part], sep) == part,
        parts.len() > 0 ==> joined(parts.push(part), sep) == joined(parts, sep) + sep + part,
{
    assert(parts.push(part).drop_last() =~= parts);
}

} // verus!
