//! What is left of a line when its escape sequences are taken out.
use vstd::prelude::*;

use crate::ansi::{after_csi, after_escape, after_osc, stripped};

verus! {

/// The bytes in front of the first escape byte stay as they are.
pub proof fn what_is_no_sequence_stays(plain: Seq<u8>, rest: Seq<u8>)
    requires
        forall|i: int| 0 <= i < plain.len() ==> #[trigger] plain[i] != 0x1b,
    ensures
        stripped(plain + rest) == plain + stripped(rest),
    decreases plain.len(),
{
    if plain.len() == 0 {
        assert(plain + rest =~= rest);
        assert(plain + stripped(rest) =~= stripped(rest));
    } else {
        let tail = plain.skip(1);
        assert((plain + rest).skip(1) =~= tail + rest);
        what_is_no_sequence_stays(tail, rest);
        assert(stripped(plain + rest) =~= plain + stripped(rest));
    }
}

proof fn lemma_csi(parameters: Seq<u8>, last: u8, rest: Seq<u8>)
    requires
        forall|i: int|
            0 <= i < parameters.len() ==> #[trigger] parameters[i] < 0x40 || parameters[i] > 0x7e,
        0x40 <= last <= 0x7e,
    ensures
        after_csi(parameters + seq![last] + rest) == rest,
    decreases parameters.len(),
{
    let s = parameters + seq![last] + rest;
    if parameters.len() == 0 {
        assert(s[0] == last);
        assert(s.skip(1) =~= rest);
    } else {
        assert(s[0] == parameters[0]);
        assert(s.skip(1) =~= parameters.skip(1) + seq![last] + rest);
        lemma_csi(parameters.skip(1), last, rest);
    }
}

/// A control sequence goes whole: `ESC [`, whatever bytes are not from 0x40 to 0x7e,
/// and the first byte that is.
pub proof fn control_sequences_go_whole(parameters: Seq<u8>, last: u8, rest: Seq<u8>)
    requires
        forall|i: int|
            0 <= i < parameters.len() ==> #[trigger] parameters[i] < 0x40 || parameters[i] > 0x7e,
        0x40 <= last <= 0x7e,
    ensures
        stripped(seq![0x1bu8, 0x5bu8] + parameters + seq![last] + rest) == stripped(rest),
{
    let s = seq![0x1bu8, 0x5bu8] + parameters + seq![last] + rest;
    assert(s[0] == 0x1b && s[1] == 0x5b);
    assert(s.skip(2) =~= parameters + seq![last] + rest);
    lemma_csi(parameters, last, rest);
    assert(after_escape(s) == rest);
}

proof fn lemma_csi_open(parameters: Seq<u8>)
    requires
        forall|i: int|
            0 <= i < parameters.len() ==> #[trigger] parameters[i] < 0x40 || parameters[i] > 0x7e,
    ensures
        after_csi(parameters) == Seq::<u8>::empty(),
    decreases parameters.len(),
{
    if parameters.len() > 0 {
        lemma_csi_open(parameters.skip(1));
    } else {
        assert(parameters =~= Seq::<u8>::empty());
    }
}

/// A control sequence that never ends takes the rest of the line with it.
pub proof fn open_control_sequences_take_the_rest(parameters: Seq<u8>)
    requires
        forall|i: int|
            0 <= i < parameters.len() ==> #[trigger] parameters[i] < 0x40 || parameters[i] > 0x7e,
    ensures
        stripped(seq![0x1bu8, 0x5bu8] + parameters) == Seq::<u8>::empty(),
{
    let s = seq![0x1bu8, 0x5bu8] + parameters;
    assert(s[0] == 0x1b && s[1] == 0x5b);
    assert(s.skip(2) =~= parameters);
    lemma_csi_open(parameters);
    assert(after_escape(s) =~= Seq::<u8>::empty());
    assert(stripped(Seq::<u8>::empty()) =~= Seq::<u8>::empty());
}

proof fn lemma_osc(payload: Seq<u8>, end: Seq<u8>, rest: Seq<u8>)
    requires
        forall|i: int| 0 <= i < payload.len() ==> #[trigger] payload[i] != 0x07,
        forall|i: int|
            0 <= i < payload.len() - 1 ==> !(#[trigger] payload[i] == 0x1b && payload[i + 1]
                == 0x5c),
        end == seq![0x07u8] || end == seq![0x1bu8, 0x5cu8],
        payload.len() > 0 && payload.last() == 0x1b ==> end[0] != 0x5c,
    ensures
        after_osc(payload + end + rest) == rest,
    decreases payload.len(),
{
    let s = payload + end + rest;
    if payload.len() == 0 {
        assert(s[0] == end[0]);
        if end.len() == 2 {
            assert(s[1] == end[1]);
        }
        assert(s.skip(end.len() as int) =~= rest);
    } else {
        assert(s[0] == payload[0]);
        if payload.len() > 1 {
            assert(s[1] == payload[1]);
        } else {
            assert(s[1] == end[0]);
        }
        let tail = payload.skip(1);
        assert(s.skip(1) =~= tail + end + rest);
        assert forall|i: int| 0 <= i < tail.len() - 1 implies !(#[trigger] tail[i] == 0x1b && tail[i
            + 1] == 0x5c) by {
            assert(payload[i + 1] == tail[i]);
        }
        lemma_osc(tail, end, rest);
    }
}

/// An operating system command goes whole: `ESC ]`, and all up to the first BEL or
/// `ESC \`.
pub proof fn commands_go_whole(payload: Seq<u8>, end: Seq<u8>, rest: Seq<u8>)
    requires
        forall|i: int| 0 <= i < payload.len() ==> #[trigger] payload[i] != 0x07,
        forall|i: int|
            0 <= i < payload.len() - 1 ==> !(#[trigger] payload[i] == 0x1b && payload[i + 1]
                == 0x5c),
        end == seq![0x07u8] || end == seq![0x1bu8, 0x5cu8],
    ensures
        stripped(seq![0x1bu8, 0x5du8] + payload + end + rest) == stripped(rest),
{
    let s = seq![0x1bu8, 0x5du8] + payload + end + rest;
    assert(s[0] == 0x1b && s[1] == 0x5d);
    assert(s.skip(2) =~= payload + end + rest);
    lemma_osc(payload, end, rest);
    assert(after_escape(s) == rest);
}

proof fn lemma_osc_open(payload: Seq<u8>)
    requires
        forall|i: int| 0 <= i < payload.len() ==> #[trigger] payload[i] != 0x07,
        forall|i: int|
            0 <= i < payload.len() - 1 ==> !(#[trigger] payload[i] == 0x1b && payload[i + 1]
                == 0x5c),
    ensures
        after_osc(payload) == Seq::<u8>::empty(),
    decreases payload.len(),
{
    if payload.len() > 0 {
        let tail = payload.skip(1);
        assert forall|i: int| 0 <= i < tail.len() - 1 implies !(#[trigger] tail[i] == 0x1b && tail[i
            + 1] == 0x5c) by {
            assert(payload[i + 1] == tail[i]);
        }
        lemma_osc_open(tail);
    } else {
        assert(payload =~= Seq::<u8>::empty());
    }
}

/// An operating system command that never ends takes the rest of the line with it.
pub proof fn open_commands_take_the_rest(payload: Seq<u8>)
    requires
        forall|i: int| 0 <= i < payload.len() ==> #[trigger] payload[i] != 0x07,
        forall|i: int|
            0 <= i < payload.len() - 1 ==> !(#[trigger] payload[i] == 0x1b && payload[i + 1]
                == 0x5c),
    ensures
        stripped(seq![0x1bu8, 0x5du8] + payload) == Seq::<u8>::empty(),
{
    let s = seq![0x1bu8, 0x5du8] + payload;
    assert(s[0] == 0x1b && s[1] == 0x5d);
    assert(s.skip(2) =~= payload);
    lemma_osc_open(payload);
    assert(after_escape(s) =~= Seq::<u8>::empty());
    assert(stripped(Seq::<u8>::empty()) =~= Seq::<u8>::empty());
}

/// Any other escape is two bytes long, but for one in front of a character that is not
/// ASCII, which stays whole; an escape byte at the end of a line goes alone.
pub proof fn short_escapes_go(byte: u8, rest: Seq<u8>)
    ensures
        byte < 0x80 && byte != 0x5b && byte != 0x5d ==> stripped(seq![0x1bu8, byte] + rest)
            == stripped(rest),
        byte >= 0x80 ==> stripped(seq![0x1bu8, byte] + rest) == seq![byte] + stripped(rest),
        stripped(seq![0x1bu8]) == Seq::<u8>::empty(),
{
    let s = seq![0x1bu8, byte] + rest;
    assert(s[0] == 0x1b && s[1] == byte);
    assert(s.skip(2) =~= rest);
    assert(s.skip(1) =~= seq![byte] + rest);
    if byte >= 0x80 {
        what_is_no_sequence_stays(seq![byte], rest);
    }
    assert(after_escape(seq![0x1bu8]) =~= Seq::<u8>::empty());
    assert(stripped(Seq::<u8>::empty()) =~= Seq::<u8>::empty());
}

} // verus!
