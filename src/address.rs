//! The canonical text of a chain address, by which the ledger knows recipients.
use vstd::prelude::*;

verus! {

/// The lowercase hexadecimal digit for `n` (below 16).
pub open spec fn hex_digit(n: u8) -> char {
    if n < 10 {
        (48 + n) as char
    } else {
        (87 + n) as char
    }
}

/// `0x` followed by two lowercase hexadecimal digits per byte, high nibble
/// first.
pub open spec fn address_text(bytes: Seq<u8>) -> Seq<char> {
    seq!['0', 'x'] + Seq::new(
        2 * bytes.len(),
        |i: int|
            if i % 2 == 0 {
                hex_digit(bytes[i / 2] / 16)
            } else {
                hex_digit(bytes[i / 2] % 16)
            },
    )
}

/// Relies on `String::push`: appends `c` to the end of `s`.
#[verifier::external_body]
fn push_char(s: &mut String, c: char)
    ensures
        final(s)@ == old(s)@.push(c),
{
    s.push(c)
}

fn hex_char(n: u8) -> (c: char)
    requires
        n < 16,
    ensures
        c == hex_digit(n),
{
    if n < 10 {
        (48 + n) as char
    } else {
        (87 + n) as char
    }
}

/// The canonical text of a 20-byte address: `0x` and forty lowercase
/// hexadecimal digits, as the ledger keys recipients.
pub fn address_key(bytes: &[u8; 20]) -> (r: String)
    ensures
        r@ == address_text(bytes@),
{
    let mut s = String::new();
    push_char(&mut s, '0');
    push_char(&mut s, 'x');
    let mut i: usize = 0;
    while i < 20
        invariant
            i <= 20,
            bytes@.len() == 20,
            s@ == address_text(bytes@).take(2 + 2 * i),
        decreases 20 - i,
    {
        let b = bytes[i];
        push_char(&mut s, hex_char(b / 16));
        push_char(&mut s, hex_char(b % 16));
        assert(s@ =~= address_text(bytes@).take(2 + 2 * (i + 1)));
        i = i + 1;
    }
    assert(address_text(bytes@).take(42) =~= address_text(bytes@));
    s
}

} // verus!
