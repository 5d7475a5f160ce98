//! The input of hashes that tell settings apart.
//!
//! A field is written with its length in front, or with bars between it and the next
//! where none of them holds a bar, so that no field can be taken for a part of another.
use vstd::prelude::*;
use vstd::string::*;
use vstd::utf8::{decode_utf8, encode_utf8};

use crate::digest::{hex_round_trip, sha256, sha256_hex};
use crate::text::{all_digits, decimal, decimal_of, find_char, join_from, joined, strs};

verus! {

/// A field of a hash's input: its length in bytes, a colon, the field and a
/// semicolon.
pub open spec fn hash_field(value: Seq<char>) -> Seq<char> {
    decimal(encode_utf8(value).len()) + ":"@ + value + ";"@
}

/// Fields of a hash's input, one after another.
pub open spec fn hash_fields(values: Seq<Seq<char>>) -> Seq<char>
    decreases values.len(),
{
    if values.len() == 0 {
        seq![]
    } else {
        hash_field(values[0]) + hash_fields(values.skip(1))
    }
}

/// The digest of fields.
pub open spec fn fields_hash(fields: Seq<Seq<char>>) -> Seq<char> {
    sha256_hex(fields_bytes(fields))
}

/// The bytes that are digested of fields.
pub open spec fn fields_bytes(fields: Seq<Seq<char>>) -> Seq<u8> {
    encode_utf8(hash_fields(fields))
}

/// Puts a field behind the input of a hash.
pub fn append_hash_field(input: &mut String, value: &str)
    ensures
        final(input)@ == old(input)@ + hash_field(value@),
{
    let n = value.as_bytes().len();
    input.append(decimal_of(n as u64).as_str());
    input.append(":");
    input.append(value);
    input.append(";");
    assert(input@ =~= old(input)@ + hash_field(value@));
}

proof fn lemma_hash_fields_push(values: Seq<Seq<char>>, value: Seq<char>)
    ensures
        hash_fields(values.push(value)) == hash_fields(values) + hash_field(value),
    decreases values.len(),
{
    let all = values.push(value);
    if values.len() == 0 {
        assert(hash_fields(all.skip(1)) =~= seq![]);
        assert(all[0] == value);
        assert(hash_fields(all) =~= hash_field(value));
        assert(hash_fields(all) =~= hash_fields(values) + hash_field(value));
    } else {
        assert(all.skip(1) =~= values.skip(1).push(value));
        lemma_hash_fields_push(values.skip(1), value);
        assert(hash_fields(all) =~= hash_fields(values) + hash_field(value));
    }
}

/// The input of a hash with one more field.
pub proof fn lemma_next_field(fields: Seq<Seq<char>>, i: int)
    requires
        0 <= i < fields.len(),
    ensures
        hash_fields(fields.take(i + 1)) == hash_fields(fields.take(i)) + hash_field(fields[i]),
{
    assert(fields.take(i + 1) =~= fields.take(i).push(fields[i]));
    lemma_hash_fields_push(fields.take(i), fields[i]);
}

/// The number that digits write, of a number in decimal digits, is the number.
pub proof fn lemma_decimal_is_digits(n: nat)
    ensures
        decimal(n).len() > 0,
        all_digits(decimal(n), 10),
        crate::text::number(decimal(n), 10) == n,
    decreases n,
{
    let d = decimal(n);
    if n < 10 {
        assert(d =~= seq![crate::text::digit_char(n)]);
        assert(d.drop_last() =~= seq![]);
        assert(crate::text::number(d.drop_last(), 10) == 0);
        assert(crate::text::digit_value(d.last()) == n);
    } else {
        lemma_decimal_is_digits(n / 10);
        let rest = decimal(n / 10);
        assert(d.drop_last() =~= rest);
        assert(crate::text::digit_value(d.last()) == n % 10);
        assert forall|i: int| 0 <= i < d.len() implies crate::text::is_digit(#[trigger] d[i], 10) by {
            if i < rest.len() {
                assert(d[i] == rest[i]);
            }
        }
    }
}

/// Where the length of a field ends.
proof fn lemma_length_ends(value: Seq<char>, rest: Seq<char>)
    ensures
        ({
            let s = hash_field(value) + rest;
            let n = decimal(encode_utf8(value).len());
            &&& crate::text::find(s, ':') == n.len()
            &&& s.take(n.len() as int) == n
            &&& s.skip(n.len() as int + 1) == value + ";"@ + rest
        }),
{
    reveal_strlit(":");
    let n = decimal(encode_utf8(value).len());
    let s = hash_field(value) + rest;
    lemma_decimal_is_digits(encode_utf8(value).len());
    assert(":"@.len() == 1 && ":"@[0] == ':');
    assert(s[n.len() as int] == ':');
    assert forall|i: int| 0 <= i < n.len() implies s[i] != ':' by {
        assert(s[i] == n[i]);
        assert(crate::text::is_digit(n[i], 10));
    }
    crate::text::lemma_find_at(s, ':', n.len() as int);
    assert(s.take(n.len() as int) =~= n);
    assert(s.skip(n.len() as int + 1) =~= value + ";"@ + rest);
}

/// A longer beginning of a text takes more bytes.
proof fn lemma_prefix_bytes(s: Seq<char>, i: int, j: int)
    requires
        0 <= i < j <= s.len(),
    ensures
        encode_utf8(s.take(i)).len() < encode_utf8(s.take(j)).len(),
    decreases i,
{
    let a = s.take(i);
    let b = s.take(j);
    if i == 0 {
        assert(encode_utf8(a).len() == 0);
        assert(encode_utf8(b).len() >= 1);
    } else {
        let t = s.skip(1);
        assert(a.drop_first() =~= t.take(i - 1));
        assert(b.drop_first() =~= t.take(j - 1));
        lemma_prefix_bytes(t, i - 1, j - 1);
    }
}

/// Fields that differ never write the same input: what is digested tells every
/// field from every other, whatever characters they hold.
pub proof fn hash_fields_are_unambiguous(a: Seq<Seq<char>>, b: Seq<Seq<char>>)
    requires
        hash_fields(a) == hash_fields(b),
    ensures
        a == b,
    decreases a.len(),
{
    if a.len() == 0 {
        if b.len() > 0 {
            lemma_decimal_is_digits(encode_utf8(b[0]).len());
            assert(hash_fields(b).len() > 0);
        }
        assert(a =~= b);
    } else if b.len() == 0 {
        lemma_decimal_is_digits(encode_utf8(a[0]).len());
        assert(hash_fields(a).len() > 0);
    } else {
        let s = hash_fields(a);
        let ra = hash_fields(a.skip(1));
        let rb = hash_fields(b.skip(1));
        lemma_length_ends(a[0], ra);
        lemma_length_ends(b[0], rb);
        let na = encode_utf8(a[0]).len();
        let nb = encode_utf8(b[0]).len();
        lemma_decimal_is_digits(na);
        lemma_decimal_is_digits(nb);
        assert(decimal(na) == decimal(nb));
        assert(na == nb);
        let t = s.skip(decimal(na).len() as int + 1);
        assert(t == a[0] + ";"@ + ra);
        assert(t == b[0] + ";"@ + rb);
        assert(t.take(a[0].len() as int) =~= a[0]);
        assert(t.take(b[0].len() as int) =~= b[0]);
        if a[0].len() < b[0].len() {
            lemma_prefix_bytes(t, a[0].len() as int, b[0].len() as int);
        } else if b[0].len() < a[0].len() {
            lemma_prefix_bytes(t, b[0].len() as int, a[0].len() as int);
        }
        assert(a[0] == b[0]);
        let k = (a[0] + ";"@).len() as int;
        assert(t.skip(k) =~= ra);
        assert(t.skip(k) =~= rb);
        hash_fields_are_unambiguous(a.skip(1), b.skip(1));
        assert(a =~= seq![a[0]] + a.skip(1));
        assert(b =~= seq![b[0]] + b.skip(1));
    }
}

/// Fields that differ are told apart: other bytes are digested of them, so that their
/// hashes are equal only if two byte sequences have one digest.
pub proof fn changed_fields_change_the_hash(a: Seq<Seq<char>>, b: Seq<Seq<char>>)
    requires
        a != b,
    ensures
        fields_bytes(a) != fields_bytes(b),
        fields_hash(a) == fields_hash(b) ==> sha256(fields_bytes(a)) == sha256(fields_bytes(b)),
{
    if fields_bytes(a) == fields_bytes(b) {
        vstd::utf8::encode_utf8_decode_utf8(hash_fields(a));
        vstd::utf8::encode_utf8_decode_utf8(hash_fields(b));
        hash_fields_are_unambiguous(a, b);
    }
    hex_round_trip(sha256(fields_bytes(a)));
    hex_round_trip(sha256(fields_bytes(b)));
}

// ---------------------------------------------------------------------------
// Settings of pipelines
// ---------------------------------------------------------------------------

/// Whether a text holds no bar.
pub open spec fn no_bar(s: Seq<char>) -> bool {
    forall|i: int| 0 <= i < s.len() ==> #[trigger] s[i] != '|'
}

/// Whether bars can stand between fields: at most the field at `free` holds one itself.
pub open spec fn can_be_barred(fields: Seq<Seq<char>>, free: int) -> bool {
    forall|i: int| 0 <= i < fields.len() && i != free ==> no_bar(#[trigger] fields[i])
}

/// What is digested of settings: the fields with bars between them, or, where a bar
/// in a field could be taken for one between fields, each with its length in front.
pub open spec fn settings_input(fields: Seq<Seq<char>>, free: int) -> Seq<char> {
    if can_be_barred(fields, free) {
        joined(fields, "|"@)
    } else {
        hash_fields(fields)
    }
}

/// The bytes that are digested of settings.
pub open spec fn settings_bytes(fields: Seq<Seq<char>>, free: int) -> Seq<u8> {
    encode_utf8(settings_input(fields, free))
}

/// The digest of settings.
pub open spec fn settings_hash(fields: Seq<Seq<char>>, free: int) -> Seq<char> {
    sha256_hex(settings_bytes(fields, free))
}

fn has_bar(s: &str) -> (r: bool)
    ensures
        r == !no_bar(s@),
{
    proof {
        crate::text::lemma_find(s@, '|');
    }
    match find_char(s, '|') {
        Some(at) => {
            assert(s@[at as int] == '|');
            true
        },
        None => false,
    }
}

/// What is digested of settings.
pub(crate) fn settings_text(fields: &Vec<&str>, free: usize) -> (r: String)
    ensures
        r@ == settings_input(strs(fields@), free as int),
{
    let ghost all = strs(fields@);
    let mut barred = true;
    let mut measured = String::new();
    let mut i: usize = 0;
    assert(measured@ =~= hash_fields(all.take(0)));
    while i < fields.len()
        invariant
            i <= fields@.len(),
            all == strs(fields@),
            barred == (forall|j: int| 0 <= j < i && j != free ==> no_bar(#[trigger] all[j])),
            measured@ == hash_fields(all.take(i as int)),
        decreases fields.len() - i,
    {
        let ghost so_far = barred;
        assert(all[i as int] == fields@[i as int]@);
        if i != free && has_bar(fields[i]) {
            assert(!no_bar(all[i as int]));
            barred = false;
        }
        append_hash_field(&mut measured, fields[i]);
        proof {
            lemma_next_field(all, i as int);
            if barred {
                assert forall|j: int| 0 <= j < i + 1 && j != free implies no_bar(
                    #[trigger] all[j],
                ) by {}
            } else if !so_far {
                let j = choose|j: int| 0 <= j < i && j != free && !no_bar(#[trigger] all[j]);
                assert(!no_bar(all[j]));
            }
        }
        i = i + 1;
    }
    assert(all.take(i as int) =~= all);
    if barred {
        let r = join_from(fields, 0, "|");
        assert(all.skip(0) =~= all);
        r
    } else {
        measured
    }
}

/// What stands in front of the first bar can be told from what follows it.
proof fn lemma_first_bar(a: Seq<char>, ra: Seq<char>, b: Seq<char>, rb: Seq<char>)
    requires
        no_bar(a),
        no_bar(b),
        a + "|"@ + ra == b + "|"@ + rb,
    ensures
        a == b,
        ra == rb,
{
    reveal_strlit("|");
    let s = a + "|"@ + ra;
    assert("|"@.len() == 1 && "|"@[0] == '|');
    assert(s[a.len() as int] == '|');
    assert((b + "|"@ + rb)[b.len() as int] == '|');
    if a.len() < b.len() {
        assert((b + "|"@ + rb)[a.len() as int] == b[a.len() as int]);
    } else if b.len() < a.len() {
        assert(s[b.len() as int] == a[b.len() as int]);
    }
    assert(s.take(a.len() as int) =~= a);
    assert((b + "|"@ + rb).take(b.len() as int) =~= b);
    assert(s.skip(a.len() as int + 1) =~= ra);
    assert((b + "|"@ + rb).skip(b.len() as int + 1) =~= rb);
}

/// What stands behind the last bar can be told from what precedes it.
proof fn lemma_last_bar(ra: Seq<char>, a: Seq<char>, rb: Seq<char>, b: Seq<char>)
    requires
        no_bar(a),
        no_bar(b),
        ra + "|"@ + a == rb + "|"@ + b,
    ensures
        a == b,
        ra == rb,
{
    reveal_strlit("|");
    let s = ra + "|"@ + a;
    let t = rb + "|"@ + b;
    assert("|"@.len() == 1 && "|"@[0] == '|');
    assert(s[ra.len() as int] == '|');
    assert(t[rb.len() as int] == '|');
    assert(s == t);
    assert(s.len() == ra.len() + 1 + a.len() && t.len() == rb.len() + 1 + b.len());
    if ra.len() < rb.len() {
        assert(s[rb.len() as int] == a[rb.len() - ra.len() - 1]);
    } else if rb.len() < ra.len() {
        assert(t[ra.len() as int] == b[ra.len() - rb.len() - 1]);
    }
    assert(s.take(ra.len() as int) =~= ra);
    assert(t.take(rb.len() as int) =~= rb);
    assert(s.skip(ra.len() as int + 1) =~= a);
    assert(t.skip(rb.len() as int + 1) =~= b);
}

/// Fields with bars between them: the first one, then the rest.
proof fn lemma_joined_front(fields: Seq<Seq<char>>)
    requires
        fields.len() >= 2,
    ensures
        joined(fields, "|"@) == fields[0] + "|"@ + joined(fields.skip(1), "|"@),
    decreases fields.len(),
{
    let rest = fields.skip(1);
    if fields.len() == 2 {
        assert(fields.drop_last() =~= seq![fields[0]]);
        assert(rest =~= seq![fields[1]]);
        assert(joined(rest, "|"@) == fields[1]);
        assert(joined(fields.drop_last(), "|"@) == fields[0]);
        assert(joined(fields, "|"@) == fields[0] + "|"@ + fields.last());
    } else {
        lemma_joined_front(fields.drop_last());
        assert(fields.drop_last().skip(1) =~= rest.drop_last());
        assert(joined(rest, "|"@) == joined(rest.drop_last(), "|"@) + "|"@ + fields.last());
        assert(joined(fields, "|"@) =~= fields[0] + "|"@ + joined(rest, "|"@));
    }
}

/// Fields that can stand with bars between them can be told apart again.
proof fn lemma_bars_are_unambiguous(a: Seq<Seq<char>>, b: Seq<Seq<char>>, free: int)
    requires
        a.len() == b.len(),
        0 <= free < a.len(),
        can_be_barred(a, free),
        can_be_barred(b, free),
        joined(a, "|"@) == joined(b, "|"@),
    ensures
        a == b,
    decreases a.len(),
{
    if a.len() == 1 {
        assert(joined(a, "|"@) == a[0] && joined(b, "|"@) == b[0]);
        assert(a =~= b);
    } else if free > 0 {
        lemma_joined_front(a);
        lemma_joined_front(b);
        lemma_first_bar(a[0], joined(a.skip(1), "|"@), b[0], joined(b.skip(1), "|"@));
        assert forall|i: int| 0 <= i < a.len() - 1 && i != free - 1 implies no_bar(
            #[trigger] a.skip(1)[i],
        ) && no_bar(b.skip(1)[i]) by {
            assert(no_bar(a[i + 1]) && no_bar(b[i + 1]));
        }
        lemma_bars_are_unambiguous(a.skip(1), b.skip(1), free - 1);
        assert(a =~= seq![a[0]] + a.skip(1));
        assert(b =~= seq![b[0]] + b.skip(1));
    } else {
        let n = a.len() - 1;
        assert(no_bar(a[n]) && no_bar(b[n]));
        lemma_last_bar(
            joined(a.drop_last(), "|"@),
            a.last(),
            joined(b.drop_last(), "|"@),
            b.last(),
        );
        assert forall|i: int| 0 <= i < n && i != free implies no_bar(#[trigger] a.drop_last()[i])
            && no_bar(b.drop_last()[i]) by {
            assert(no_bar(a[i]) && no_bar(b[i]));
        }
        lemma_bars_are_unambiguous(a.drop_last(), b.drop_last(), free);
        assert(a =~= a.drop_last().push(a.last()));
        assert(b =~= b.drop_last().push(b.last()));
    }
}

/// Fields with bars between them end as the last field does, and fields with their
/// lengths in front end in a semicolon.
proof fn lemma_ends(fields: Seq<Seq<char>>, other: Seq<Seq<char>>)
    requires
        fields.len() > 0,
        fields.last().len() > 0,
        fields.last().last() != ';',
        other.len() > 0,
    ensures
        joined(fields, "|"@) != hash_fields(other),
{
    reveal_strlit(";");
    let s = joined(fields, "|"@);
    assert(s.last() == fields.last().last()) by {
        if fields.len() > 1 {
            let front = joined(fields.drop_last(), "|"@) + "|"@;
            assert(s == front + fields.last());
            assert(s.last() == s[s.len() - 1]);
        }
    }
    let n = other.len() - 1;
    lemma_next_field(other, n);
    assert(other.take(n + 1) =~= other);
    let t = hash_fields(other);
    assert(";"@.len() == 1 && ";"@[0] == ';');
    assert(t.last() == ';');
}

/// Settings that differ are told apart: other bytes are digested of them, so that their
/// hashes are equal only if two byte sequences have one digest.
pub proof fn changed_settings_change_the_hash(a: Seq<Seq<char>>, b: Seq<Seq<char>>, free: int)
    requires
        a != b,
        a.len() == b.len(),
        0 <= free < a.len(),
        a.last().len() > 0 && a.last().last() != ';',
        b.last().len() > 0 && b.last().last() != ';',
    ensures
        settings_bytes(a, free) != settings_bytes(b, free),
        settings_hash(a, free) == settings_hash(b, free) ==> sha256(settings_bytes(a, free))
            == sha256(settings_bytes(b, free)),
{
    let x = settings_input(a, free);
    let y = settings_input(b, free);
    if settings_bytes(a, free) == settings_bytes(b, free) {
        vstd::utf8::encode_utf8_decode_utf8(x);
        vstd::utf8::encode_utf8_decode_utf8(y);
        assert(x == y);
        if can_be_barred(a, free) && can_be_barred(b, free) {
            lemma_bars_are_unambiguous(a, b, free);
        } else if can_be_barred(a, free) {
            lemma_ends(a, b);
        } else if can_be_barred(b, free) {
            lemma_ends(b, a);
        } else {
            hash_fields_are_unambiguous(a, b);
        }
    }
    hex_round_trip(sha256(settings_bytes(a, free)));
    hex_round_trip(sha256(settings_bytes(b, free)));
}

} // verus!
