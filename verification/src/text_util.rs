use vstd::prelude::*;

verus! {

/// Number of bytes the UTF-8 encoding of `c` takes.
pub open spec fn utf8_width(c: char) -> nat {
    if (c as u32) < 0x80 {
        1
    } else if (c as u32) < 0x800 {
        2
    } else if (c as u32) < 0x10000 {
        3
    } else {
        4
    }
}

/// Number of bytes the UTF-8 encoding of the whole sequence takes.
pub open spec fn utf8_width_seq(s: Seq<char>) -> nat
    decreases s.len(),
{
    if s.len() == 0 {
        0
    } else {
        utf8_width_seq(s.drop_last()) + utf8_width(s.last())
    }
}

/// Byte length of the UTF-8 encoding of `ch` (the behaviour of `char::len_utf8`).
pub fn char_len_utf8(ch: char) -> (n: usize)
    ensures
        n == utf8_width(ch),
        1 <= n <= 4,
{
    let code = ch as u32;
    if code < 0x80 {
        1
    } else if code < 0x800 {
        2
    } else if code < 0x10000 {
        3
    } else {
        4
    }
}

/// `String::push`: appends `c` to the end of `s`.
#[verifier::external_body]
pub(crate) fn string_push(s: &mut String, c: char)
    ensures
        final(s)@ == old(s)@.push(c),
{
    s.push(c);
}

} // verus!
