//! URL encoding of values.

use vstd::prelude::*;

verus! {

/// The bytes that a URL may hold as they are: letters, digits, `-`, `.`, `_` and `~`.
pub open spec fn is_unreserved(b: u8) -> bool {
    ||| 0x30 <= b <= 0x39
    ||| 0x41 <= b <= 0x5a
    ||| 0x61 <= b <= 0x7a
    ||| b == 0x2d
    ||| b == 0x2e
    ||| b == 0x5f
    ||| b == 0x7e
}

/// A number below 16 as an upper case hexadecimal digit.
pub open spec fn hex_digit(n: int) -> char {
    if n < 10 {
        (0x30 + n) as char
    } else {
        (0x41 + (n - 10)) as char
    }
}

/// A byte as it stands in a URL.
pub open spec fn escaped(b: u8) -> Seq<char> {
    if is_unreserved(b) {
        seq![b as char]
    } else {
        seq!['%', hex_digit(b as int / 16), hex_digit(b as int % 16)]
    }
}

/// Bytes as they stand in a URL.
pub open spec fn percent_encoded(bytes: Seq<u8>) -> Seq<char>
    decreases bytes.len(),
{
    if bytes.len() == 0 {
        Seq::empty()
    } else {
        percent_encoded(bytes.drop_last()) + escaped(bytes.last())
    }
}

fn hex(n: u8) -> (r: char)
    requires
        n < 16,
    ensures
        r == hex_digit(n as int),
{
    if n < 10 {
        (0x30 + n) as char
    } else {
        (0x41 + (n - 10)) as char
    }
}

/// URL encodes bytes: each byte that is not unreserved becomes `%` and two
/// hexadecimal digits.
pub fn url_encode(bytes: &[u8]) -> (r: String)
    ensures
        r@ == percent_encoded(bytes@),
{
    let mut r = String::new();
    let mut i: usize = 0;
    while i < bytes.len()
        invariant
            i <= bytes@.len(),
            r@ == percent_encoded(bytes@.take(i as int)),
        decreases bytes@.len() - i,
    {
        let b = bytes[i];
        let ghost before = r@;
        assert(bytes@.take(i + 1).drop_last() =~= bytes@.take(i as int));
        if (0x30 <= b && b <= 0x39) || (0x41 <= b && b <= 0x5a) || (0x61 <= b && b <= 0x7a) || b
            == 0x2d || b == 0x2e || b == 0x5f || b == 0x7e {
            r.push(b as char);
        } else {
            r.push('%');
            r.push(hex(b / 16));
            r.push(hex(b % 16));
        }
        assert(r@ =~= before + escaped(b));
        i = i + 1;
    }
    assert(bytes@.take(i as int) =~= bytes@);
    r
}

/// The characters that encoded bytes are made of.
pub open spec fn is_url_char(c: char) -> bool {
    c == '%' || ((c as u32) < 128 && is_unreserved(c as u8))
}

/// Encoded bytes hold unreserved characters and `%` alone, so they hold none of the
/// characters that separate the parts of a URL or of a form.
pub proof fn encoding_has_no_separator(bytes: Seq<u8>)
    ensures
        forall|i: int|
            0 <= i < percent_encoded(bytes).len() ==> is_url_char(
                #[trigger] percent_encoded(bytes)[i],
            ),
        !percent_encoded(bytes).contains('&'),
        !percent_encoded(bytes).contains('='),
        !percent_encoded(bytes).contains('?'),
        !percent_encoded(bytes).contains('#'),
        !percent_encoded(bytes).contains(' '),
    decreases bytes.len(),
{
    let r = percent_encoded(bytes);
    if bytes.len() > 0 {
        let before = percent_encoded(bytes.drop_last());
        encoding_has_no_separator(bytes.drop_last());
        assert forall|i: int| 0 <= i < r.len() implies is_url_char(#[trigger] r[i]) by {
            if i < before.len() {
                assert(is_url_char(before[i]));
            }
        }
    }
}

proof fn lemma_encoded_from_front(bytes: Seq<u8>)
    requires
        bytes.len() > 0,
    ensures
        percent_encoded(bytes) == escaped(bytes[0]) + percent_encoded(bytes.drop_first()),
    decreases bytes.len(),
{
    let before = bytes.drop_last();
    let after = bytes.drop_first();
    if bytes.len() == 1 {
        assert(before =~= Seq::empty());
        assert(after =~= Seq::empty());
        assert(percent_encoded(bytes) =~= escaped(bytes[0]) + percent_encoded(after));
    } else {
        lemma_encoded_from_front(before);
        assert(before.drop_first() =~= after.drop_last());
        assert(percent_encoded(bytes) =~= escaped(bytes[0]) + percent_encoded(after));
    }
}

/// Different bytes are encoded differently.
pub proof fn encoding_keeps_values_apart(a: Seq<u8>, b: Seq<u8>)
    requires
        percent_encoded(a) == percent_encoded(b),
    ensures
        a == b,
    decreases a.len(),
{
    if a.len() > 0 {
        lemma_encoded_from_front(a);
    }
    if b.len() > 0 {
        lemma_encoded_from_front(b);
    }
    if a.len() > 0 && b.len() > 0 {
        let (x, y) = (a[0], b[0]);
        let (c, d) = (a.drop_first(), b.drop_first());
        let text = percent_encoded(a);
        assert(text[0] == escaped(x)[0]);
        assert(text[0] == escaped(y)[0]);
        assert(is_unreserved(x) == is_unreserved(y));
        if !is_unreserved(x) {
            assert(text[1] == escaped(x)[1] && text[1] == escaped(y)[1]);
            assert(text[2] == escaped(x)[2] && text[2] == escaped(y)[2]);
        }
        assert(x == y);
        let n = escaped(x).len() as int;
        assert(text.skip(n) =~= percent_encoded(c));
        assert(text.skip(n) =~= percent_encoded(d));
        encoding_keeps_values_apart(c, d);
        assert(a =~= seq![x] + c);
        assert(b =~= seq![y] + d);
    } else {
        assert(percent_encoded(a).len() == 0);
        assert(a.len() > 0 ==> percent_encoded(a).len() > 0);
        assert(b.len() > 0 ==> percent_encoded(b).len() > 0);
        assert(a =~= b);
    }
}

/// Encoding goes byte by byte: two stretches of bytes give what each gives, one after the
/// other, and no byte gives nothing.
pub proof fn encoding_goes_byte_by_byte(a: Seq<u8>, b: Seq<u8>)
    ensures
        percent_encoded(Seq::empty()) == Seq::<char>::empty(),
        percent_encoded(a + b) == percent_encoded(a) + percent_encoded(b),
    decreases b.len(),
{
    if b.len() == 0 {
        assert(a + b =~= a);
        assert(percent_encoded(a) + percent_encoded(b) =~= percent_encoded(a));
    } else {
        let rest = b.drop_last();
        encoding_goes_byte_by_byte(a, rest);
        assert((a + b).drop_last() =~= a + rest);
        assert(percent_encoded(a + b) =~= percent_encoded(a) + percent_encoded(b));
    }
}

/// The number that a hexadecimal digit stands for.
pub open spec fn hex_value(digit: char) -> int {
    if '0' <= digit <= '9' {
        digit as int - '0' as int
    } else {
        digit as int - 'A' as int + 10
    }
}

/// A letter, a digit, `-`, `.`, `_` or `~` is encoded as itself. Any other byte is encoded
/// as `%` and two upper case hexadecimal digits that stand for it.
pub proof fn encoding_of_one_byte(b: u8)
    ensures
        ({
            let c = b as char;
            let kept = 'a' <= c <= 'z' || 'A' <= c <= 'Z' || '0' <= c <= '9' || c == '-' || c == '.'
                || c == '_' || c == '~';
            let r = percent_encoded(seq![b]);
            &&& kept ==> r == seq![c]
            &&& !kept ==> {
                &&& r.len() == 3
                &&& r[0] == '%'
                &&& '0' <= r[1] <= '9' || 'A' <= r[1] <= 'F'
                &&& '0' <= r[2] <= '9' || 'A' <= r[2] <= 'F'
                &&& 16 * hex_value(r[1]) + hex_value(r[2]) == b
            }
        }),
{
    assert(seq![b].drop_last() =~= Seq::<u8>::empty());
    assert(percent_encoded(Seq::<u8>::empty()) =~= Seq::empty());
    assert(percent_encoded(seq![b]) =~= escaped(b));
}

/// The bytes that URL-encoded text stands for.
pub open spec fn percent_decoded(text: Seq<char>) -> Seq<u8>
    decreases text.len(),
{
    if text.len() == 0 {
        Seq::empty()
    } else if text[0] == '%' && text.len() >= 3 {
        seq![(16 * hex_value(text[1]) + hex_value(text[2])) as u8] + percent_decoded(text.skip(3))
    } else {
        seq![text[0] as u8] + percent_decoded(text.skip(1))
    }
}

/// Decoding gives back the bytes that were encoded.
pub proof fn encoding_is_decoded(bytes: Seq<u8>)
    ensures
        percent_decoded(percent_encoded(bytes)) == bytes,
    decreases bytes.len(),
{
    let text = percent_encoded(bytes);
    if bytes.len() > 0 {
        let first = bytes[0];
        let rest = bytes.drop_first();
        lemma_encoded_from_front(bytes);
        encoding_is_decoded(rest);
        assert(text[0] == escaped(first)[0]);
        if is_unreserved(first) {
            assert(text.skip(1) =~= percent_encoded(rest));
            assert(text[0] as u8 == first);
        } else {
            assert(text[1] == escaped(first)[1] && text[2] == escaped(first)[2]);
            assert(text.skip(3) =~= percent_encoded(rest));
            assert(16 * hex_value(text[1]) + hex_value(text[2]) == first);
        }
        assert(seq![first] + rest =~= bytes);
    } else {
        assert(percent_decoded(text) =~= bytes);
    }
}

} // verus!
