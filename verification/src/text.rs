//! Text rendering helpers: decimal and hexadecimal digits, and the exact
//! character sequences produced when a byte string or a byte list is shown.

use vstd::prelude::*;

verus! {

/// The character for one digit value below sixteen, decimal digits first,
/// then the lowercase letters.
pub open spec fn digit_char(n: u8) -> char {
    if n == 0 {
        '0'
    } else if n == 1 {
        '1'
    } else if n == 2 {
        '2'
    } else if n == 3 {
        '3'
    } else if n == 4 {
        '4'
    } else if n == 5 {
        '5'
    } else if n == 6 {
        '6'
    } else if n == 7 {
        '7'
    } else if n == 8 {
        '8'
    } else if n == 9 {
        '9'
    } else if n == 10 {
        'a'
    } else if n == 11 {
        'b'
    } else if n == 12 {
        'c'
    } else if n == 13 {
        'd'
    } else if n == 14 {
        'e'
    } else {
        'f'
    }
}

/// Two lowercase hex digits for each byte, in input order.
pub open spec fn hex_chars(bytes: Seq<u8>) -> Seq<char>
    decreases bytes.len(),
{
    if bytes.len() == 0 {
        Seq::empty()
    } else {
        seq![digit_char(bytes[0] / 16), digit_char(bytes[0] % 16)] + hex_chars(bytes.drop_first())
    }
}

/// The decimal rendering of a byte, without leading zeros.
pub open spec fn dec_chars(n: u8) -> Seq<char> {
    if n >= 100 {
        seq![digit_char(n / 100), digit_char((n / 10) % 10), digit_char(n % 10)]
    } else if n >= 10 {
        seq![digit_char(n / 10), digit_char(n % 10)]
    } else {
        seq![digit_char(n)]
    }
}

/// The elements of a byte list in decimal, separated by a comma and a space.
pub open spec fn byte_list_inner(bytes: Seq<u8>) -> Seq<char>
    decreases bytes.len(),
{
    if bytes.len() == 0 {
        Seq::empty()
    } else if bytes.len() == 1 {
        dec_chars(bytes[0])
    } else {
        dec_chars(bytes[0]) + seq![',', ' '] + byte_list_inner(bytes.drop_first())
    }
}

/// A byte list rendered the way a debug formatter shows a vector:
/// brackets around comma-separated decimal elements.
pub open spec fn byte_list_chars(bytes: Seq<u8>) -> Seq<char> {
    seq!['['] + byte_list_inner(bytes) + seq![']']
}

/// Appending one element extends the comma-separated rendering on the right.
proof fn lemma_byte_list_inner_push(bytes: Seq<u8>, b: u8)
    ensures
        byte_list_inner(bytes.push(b)) == if bytes.len() == 0 {
            dec_chars(b)
        } else {
            byte_list_inner(bytes) + seq![',', ' '] + dec_chars(b)
        },
    decreases bytes.len(),
{
    if bytes.len() == 0 {
        assert(bytes.push(b) =~= seq![b]);
        assert(byte_list_inner(seq![b]) == dec_chars(b));
    } else {
        assert(bytes.push(b).drop_first() =~= bytes.drop_first().push(b));
        assert(bytes.push(b)[0] == bytes[0]);
        lemma_byte_list_inner_push(bytes.drop_first(), b);
        if bytes.len() == 1 {
            assert(bytes.drop_first().len() == 0);
            assert(byte_list_inner(bytes.push(b)) =~= byte_list_inner(bytes) + seq![',', ' ']
                + dec_chars(b));
        } else {
            assert(byte_list_inner(bytes.push(b)) =~= byte_list_inner(bytes) + seq![',', ' ']
                + dec_chars(b));
        }
    }
}

/// One digit value below sixteen as a borrowed one-character string.
pub fn digit_str(n: u8) -> (r: &'static str)
    requires
        n < 16,
    ensures
        r@ =~= seq![digit_char(n)],
{
    proof {
        reveal_strlit("0");
        reveal_strlit("1");
        reveal_strlit("2");
        reveal_strlit("3");
        reveal_strlit("4");
        reveal_strlit("5");
        reveal_strlit("6");
        reveal_strlit("7");
        reveal_strlit("8");
        reveal_strlit("9");
        reveal_strlit("a");
        reveal_strlit("b");
        reveal_strlit("c");
        reveal_strlit("d");
        reveal_strlit("e");
        reveal_strlit("f");
    }
    match n {
        0 => "0",
        1 => "1",
        2 => "2",
        3 => "3",
        4 => "4",
        5 => "5",
        6 => "6",
        7 => "7",
        8 => "8",
        9 => "9",
        10 => "a",
        11 => "b",
        12 => "c",
        13 => "d",
        14 => "e",
        _ => "f",
    }
}

/// Append the decimal rendering of a byte to a string.
pub fn append_dec(out: &mut String, n: u8)
    ensures
        final(out)@ == old(out)@ + dec_chars(n),
{
    if n >= 100 {
        out.append(digit_str(n / 100));
        out.append(digit_str((n / 10) % 10));
        out.append(digit_str(n % 10));
    } else if n >= 10 {
        out.append(digit_str(n / 10));
        out.append(digit_str(n % 10));
    } else {
        out.append(digit_str(n));
    }
    assert(out@ =~= old(out)@ + dec_chars(n));
}

/// The decimal rendering of a byte as an owned string.
pub fn format_u8(n: u8) -> (r: String)
    ensures
        r@ == dec_chars(n),
{
    let mut out = String::new();
    append_dec(&mut out, n);
    assert(out@ =~= dec_chars(n));
    out
}

/// A byte list rendered with brackets and comma-separated decimal elements,
/// exactly as a debug formatter shows a vector of bytes.
pub fn format_byte_list(bytes: &Vec<u8>) -> (r: String)
    ensures
        r@ == byte_list_chars(bytes@),
{
    proof {
        reveal_strlit("[");
        reveal_strlit("]");
        reveal_strlit(", ");
    }
    let mut out = String::new();
    out.append("[");
    let n = bytes.len();
    let mut i: usize = 0;
    while i < n
        invariant
            n == bytes@.len(),
            i <= n,
            out@ =~= seq!['['] + byte_list_inner(bytes@.take(i as int)),
        decreases n - i,
    {
        let ghost prefix = bytes@.take(i as int);
        let ghost b = bytes@[i as int];
        proof {
            reveal_strlit(", ");
        }
        if i > 0 {
            out.append(", ");
            assert((", ")@ =~= seq![',', ' ']);
        }
        append_dec(&mut out, bytes[i]);
        proof {
            lemma_byte_list_inner_push(prefix, b);
            assert(bytes@.take(i as int + 1) =~= prefix.push(b));
            if i == 0 {
                assert(prefix.len() == 0);
                assert(out@ =~= seq!['['] + byte_list_inner(prefix.push(b)));
            } else {
                assert(out@ =~= seq!['['] + byte_list_inner(prefix) + seq![',', ' ']
                    + dec_chars(b));
                assert(out@ =~= seq!['['] + byte_list_inner(prefix.push(b)));
            }
            assert(out@ =~= seq!['['] + byte_list_inner(bytes@.take(i as int + 1)));
        }
        i = i + 1;
    }
    proof {
        assert(bytes@.take(n as int) =~= bytes@);
    }
    out.append("]");
    assert(out@ =~= byte_list_chars(bytes@));
    out
}

/// Relies on `hex::encode`: the hex string of a byte slice, two lowercase
/// digits per byte, in input order.
#[verifier::external_body]
pub(crate) fn hex_encode(bytes: &[u8]) -> (r: String)
    ensures
        r@ == hex_chars(bytes@),
{
    hex::encode(bytes)
}

} // verus!
