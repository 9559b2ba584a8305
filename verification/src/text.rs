//! Operations on text, stated over sequences of characters.

use vstd::prelude::*;

verus! {

/// The characters that Unicode gives the property `White_Space`.
pub open spec fn is_white(c: char) -> bool {
    let code = c as u32;
    ||| 0x9 <= code <= 0xd
    ||| code == 0x20
    ||| code == 0x85
    ||| code == 0xa0
    ||| code == 0x1680
    ||| 0x2000 <= code <= 0x200a
    ||| code == 0x2028
    ||| code == 0x2029
    ||| code == 0x202f
    ||| code == 0x205f
    ||| code == 0x3000
}

/// Tells whether a character is white space.
pub fn is_whitespace(c: char) -> (r: bool)
    ensures
        r == is_white(c),
{
    let code = c as u32;
    (0x9 <= code && code <= 0xd) || code == 0x20 || code == 0x85 || code == 0xa0 || code == 0x1680
        || (0x2000 <= code && code <= 0x200a) || code == 0x2028 || code == 0x2029 || code == 0x202f
        || code == 0x205f || code == 0x3000
}

/// Text without the white space at its start.
pub open spec fn trim_start(s: Seq<char>) -> Seq<char>
    decreases s.len(),
{
    if s.len() > 0 && is_white(s[0]) {
        trim_start(s.drop_first())
    } else {
        s
    }
}

/// Text without the white space at its end.
pub open spec fn trim_end(s: Seq<char>) -> Seq<char>
    decreases s.len(),
{
    if s.len() > 0 && is_white(s.last()) {
        trim_end(s.drop_last())
    } else {
        s
    }
}

/// Text without the white space at its two ends.
pub open spec fn trimmed(s: Seq<char>) -> Seq<char> {
    trim_end(trim_start(s))
}

proof fn lemma_trim_start_skip(s: Seq<char>, n: int)
    requires
        0 <= n <= s.len(),
        forall|i: int| 0 <= i < n ==> is_white(#[trigger] s[i]),
        n < s.len() ==> !is_white(s[n]),
    ensures
        trim_start(s) == s.skip(n),
    decreases n,
{
    if n == 0 {
        assert(s.skip(0) =~= s);
    } else {
        assert(s.drop_first().skip(n - 1) =~= s.skip(n));
        lemma_trim_start_skip(s.drop_first(), n - 1);
    }
}

proof fn lemma_trim_end_take(s: Seq<char>, n: int)
    requires
        0 <= n <= s.len(),
        forall|i: int| n <= i < s.len() ==> is_white(#[trigger] s[i]),
        n > 0 ==> !is_white(s[n - 1]),
    ensures
        trim_end(s) == s.take(n),
    decreases s.len() - n,
{
    if n == s.len() {
        assert(s.take(n) =~= s);
    } else {
        assert(s.drop_last().take(n) =~= s.take(n));
        lemma_trim_end_take(s.drop_last(), n);
    }
}

/// White space put at the end of a text does not change what is left of it when it
/// is trimmed.
pub proof fn trimmed_ignores_white_at_end(s: Seq<char>, c: char)
    requires
        is_white(c),
    ensures
        trimmed(s.push(c)) == trimmed(s),
    decreases s.len(),
{
    if s.len() > 0 && is_white(s[0]) {
        assert(s.push(c).drop_first() =~= s.drop_first().push(c));
        trimmed_ignores_white_at_end(s.drop_first(), c);
    } else if s.len() == 0 {
        assert(s.push(c).drop_first() =~= s);
    } else {
        assert(s.push(c).drop_last() =~= s);
    }
}

/// Removes the white space at both ends of a text.
pub fn trim<'a>(s: &'a str) -> (r: &'a str)
    ensures
        r@ == trimmed(s@),
{
    let mut start: usize = 0;
    let mut end: usize = 0;
    let mut seen: usize = 0;
    let mut blank: bool = true;
    let len = s.unicode_len();
    for c in iter: s.chars()
        invariant
            iter.seq() == s@,
            len == s@.len(),
            seen == iter.index(),
            seen <= len,
            blank ==> forall|i: int| 0 <= i < seen ==> is_white(#[trigger] s@[i]),
            blank ==> start == 0 && end == 0,
            !blank ==> start < end <= seen,
            !blank ==> !is_white(s@[start as int]) && !is_white(s@[end - 1]),
            !blank ==> forall|i: int| 0 <= i < start ==> is_white(#[trigger] s@[i]),
            !blank ==> forall|i: int| end <= i < seen ==> is_white(#[trigger] s@[i]),
    {
        assert(c == s@[seen as int]);
        if !is_whitespace(c) {
            if blank {
                start = seen;
                blank = false;
            }
            end = seen + 1;
        }
        seen = seen + 1;
    }
    proof {
        if blank {
            lemma_trim_start_skip(s@, len as int);
            assert(s@.skip(len as int) =~= s@.subrange(0, 0));
        } else {
            lemma_trim_start_skip(s@, start as int);
            let tail = s@.skip(start as int);
            assert(tail.last() == s@.last());
            lemma_trim_end_take(tail, end - start);
            assert(tail.take(end - start) =~= s@.subrange(start as int, end as int));
        }
    }
    s.substring_char(start, end)
}

/// Tells whether two texts are the same.
pub fn same_text(a: &str, b: &str) -> (r: bool)
    ensures
        r == (a@ == b@),
{
    let r = a.unicode_len() == b.unicode_len() && starts_with(a, b);
    assert(r ==> a@ =~= b@);
    r
}

/// Tells whether a text begins with a prefix.
pub fn starts_with(s: &str, prefix: &str) -> (r: bool)
    ensures
        r == prefix@.is_prefix_of(s@),
{
    let mut rest = s.chars();
    let ghost mut matched: int = 0;
    for c in iter: prefix.chars()
        invariant
            iter.seq() == prefix@,
            matched == iter.index(),
            0 <= matched <= s@.len(),
            vstd::std_specs::iter::IteratorSpec::remaining(&rest) == s@.skip(matched),
            prefix@.take(matched) == s@.take(matched),
    {
        assert(c == prefix@[matched]);
        match rest.next() {
            Some(d) => {
                assert(d == s@[matched]);
                if c != d {
                    return false;
                }
            },
            None => {
                assert(matched == s@.len());
                return false;
            },
        }
        proof {
            assert(prefix@.take(matched + 1) =~= prefix@.take(matched).push(c));
            assert(s@.take(matched + 1) =~= s@.take(matched).push(c));
            assert(s@.skip(matched).drop_first() =~= s@.skip(matched + 1));
            matched = matched + 1;
        }
    }
    assert(prefix@.take(matched) =~= prefix@);
    true
}

/// Tells whether a text ends with a suffix.
pub fn ends_with(s: &str, suffix: &str) -> (r: bool)
    ensures
        r == suffix@.is_suffix_of(s@),
{
    let len = s.unicode_len();
    let suffix_len = suffix.unicode_len();
    if suffix_len > len {
        return false;
    }
    let tail = s.substring_char(len - suffix_len, len);
    same_text(tail, suffix)
}

/// The first place of a character in a text, or the length of the text where the
/// character does not occur.
pub open spec fn place_of(s: Seq<char>, wanted: char) -> int
    decreases s.len(),
{
    if s.len() == 0 || s[0] == wanted {
        0
    } else {
        1 + place_of(s.drop_first(), wanted)
    }
}

/// What `place_of` gives is the one place with the character there, and nowhere
/// before it.
pub proof fn lemma_place_of(s: Seq<char>, wanted: char)
    ensures
        0 <= place_of(s, wanted) <= s.len(),
        forall|i: int| 0 <= i < place_of(s, wanted) ==> #[trigger] s[i] != wanted,
        place_of(s, wanted) < s.len() ==> s[place_of(s, wanted)] == wanted,
    decreases s.len(),
{
    if s.len() == 0 || s[0] == wanted {
    } else {
        let rest = s.drop_first();
        lemma_place_of(rest, wanted);
        assert forall|i: int| 0 <= i < place_of(s, wanted) implies #[trigger] s[i] != wanted by {
            if i > 0 {
                assert(rest[i - 1] != wanted);
            }
        }
    }
}

/// Finds the first place of a character in a text, counted in characters.
pub fn find_char(s: &str, wanted: char) -> (r: Option<usize>)
    ensures
        r is Some == (place_of(s@, wanted) < s@.len()),
        r matches Some(k) ==> k == place_of(s@, wanted),
{
    let mut k: usize = 0;
    let len = s.unicode_len();
    proof {
        lemma_place_of(s@, wanted);
    }
    for c in iter: s.chars()
        invariant
            iter.seq() == s@,
            len == s@.len(),
            k == iter.index(),
            k <= len,
            k <= place_of(s@, wanted) <= s@.len(),
            place_of(s@, wanted) < s@.len() ==> s@[place_of(s@, wanted)] == wanted,
            forall|i: int| 0 <= i < place_of(s@, wanted) ==> #[trigger] s@[i] != wanted,
    {
        assert(c == s@[k as int]);
        if c == wanted {
            return Some(k);
        }
        k = k + 1;
    }
    None
}

/// The code of a character, with that of `A` to `Z` replaced by that of `a` to `z`.
pub open spec fn lower_code(c: char) -> int {
    if 'A' <= c <= 'Z' {
        c as u32 + 32
    } else {
        c as u32 as int
    }
}

/// Two texts are the same up to the case of the letters `A` to `Z`.
pub open spec fn same_but_case(a: Seq<char>, b: Seq<char>) -> bool {
    a.len() == b.len() && forall|i: int|
        0 <= i < a.len() ==> lower_code(#[trigger] a[i]) == lower_code(b[i])
}

fn lower(c: char) -> (r: u32)
    ensures
        r == lower_code(c),
{
    if 'A' <= c && c <= 'Z' {
        c as u32 + 32
    } else {
        c as u32
    }
}

/// Tells whether two texts are the same up to the case of ASCII letters.
pub fn equal_but_case(a: &str, b: &str) -> (r: bool)
    ensures
        r == same_but_case(a@, b@),
{
    if a.unicode_len() != b.unicode_len() {
        return false;
    }
    let mut rest = b.chars();
    let ghost mut matched: int = 0;
    for c in iter: a.chars()
        invariant
            iter.seq() == a@,
            a@.len() == b@.len(),
            matched == iter.index(),
            vstd::std_specs::iter::IteratorSpec::remaining(&rest) == b@.skip(matched),
            forall|i: int| 0 <= i < matched ==> lower_code(#[trigger] a@[i]) == lower_code(b@[i]),
    {
        assert(c == a@[matched]);
        match rest.next() {
            Some(d) => {
                assert(d == b@[matched]);
                if lower(c) != lower(d) {
                    return false;
                }
            },
            None => {
                assert(b@.skip(matched).len() == 0);
            },
        }
        proof {
            assert(b@.skip(matched).drop_first() =~= b@.skip(matched + 1));
            matched = matched + 1;
        }
    }
    true
}

/// Texts put one after the other, with a separator between neighbours.
pub open spec fn joined(parts: Seq<Seq<char>>, separator: Seq<char>) -> Seq<char>
    decreases parts.len(),
{
    if parts.len() == 0 {
        Seq::empty()
    } else if parts.len() == 1 {
        parts[0]
    } else {
        joined(parts.drop_last(), separator) + separator + parts.last()
    }
}

/// Joins texts with a separator between neighbours.
pub fn join(parts: &[String], separator: &str) -> (r: String)
    ensures
        r@ == joined(parts.deep_view(), separator@),
{
    let ghost texts = parts.deep_view();
    let mut r = String::new();
    let mut i: usize = 0;
    while i < parts.len()
        invariant
            i <= parts@.len(),
            texts == parts.deep_view(),
            r@ == joined(texts.take(i as int), separator@),
        decreases parts@.len() - i,
    {
        assert(texts.take(i + 1).drop_last() =~= texts.take(i as int));
        assert(texts.take(i + 1).last() == parts@[i as int]@);
        if i > 0 {
            r.append(separator);
        }
        r.append(parts[i].as_str());
        i = i + 1;
    }
    assert(texts.take(i as int) =~= texts);
    r
}

/// The decimal digits of a number, without leading zeros.
pub open spec fn decimal_digits(n: nat) -> Seq<char>
    decreases n,
{
    let digit = (0x30 + n % 10) as char;
    if n < 10 {
        seq![digit]
    } else {
        decimal_digits(n / 10).push(digit)
    }
}

/// Writes a number in decimal.
pub fn decimal(n: u128) -> (r: String)
    ensures
        r@ == decimal_digits(n as nat),
    decreases n,
{
    let digit = (0x30u8 + (n % 10) as u8) as char;
    let mut r = if n < 10 {
        String::new()
    } else {
        decimal(n / 10)
    };
    r.push(digit);
    r
}

/// The places from `a` to `b` of a text have white space alone before and behind them, and
/// none at their own ends.
pub open spec fn is_core(s: Seq<char>, a: int, b: int) -> bool {
    &&& 0 <= a <= b <= s.len()
    &&& forall|i: int| 0 <= i < a ==> is_white(#[trigger] s[i])
    &&& forall|i: int| b <= i < s.len() ==> is_white(#[trigger] s[i])
    &&& a < b ==> !is_white(s[a]) && !is_white(s[b - 1])
}

/// Trimming removes white space at the ends and nothing else: what is left is one stretch
/// of the text, with white space alone before and behind it, and none at its ends.
pub proof fn trimmed_text_is_a_stretch(s: Seq<char>) -> (ends: (int, int))
    ensures
        is_core(s, ends.0, ends.1),
        trimmed(s) == s.subrange(ends.0, ends.1),
    decreases s.len(),
{
    if s.len() > 0 && is_white(s[0]) {
        let rest = s.drop_first();
        let inner = trimmed_text_is_a_stretch(rest);
        let ends = (inner.0 + 1, inner.1 + 1);
        assert(rest.subrange(inner.0, inner.1) =~= s.subrange(ends.0, ends.1));
        assert forall|i: int| 0 <= i < ends.0 implies is_white(#[trigger] s[i]) by {
            if i > 0 {
                assert(is_white(rest[i - 1]));
            }
        }
        assert forall|i: int| ends.1 <= i < s.len() implies is_white(#[trigger] s[i]) by {
            assert(is_white(rest[i - 1]));
        }
        ends
    } else {
        let n = trim_end_is_a_start(s);
        assert(s.take(n) =~= s.subrange(0, n));
        (0, n)
    }
}

proof fn trim_end_is_a_start(s: Seq<char>) -> (n: int)
    ensures
        0 <= n <= s.len(),
        trim_end(s) == s.take(n),
        forall|i: int| n <= i < s.len() ==> is_white(#[trigger] s[i]),
        n > 0 ==> !is_white(s[n - 1]),
    decreases s.len(),
{
    if s.len() > 0 && is_white(s.last()) {
        let n = trim_end_is_a_start(s.drop_last());
        assert(s.drop_last().take(n) =~= s.take(n));
        assert forall|i: int| n <= i < s.len() implies is_white(#[trigger] s[i]) by {
            if i < s.len() - 1 {
                assert(is_white(s.drop_last()[i]));
            }
        }
        n
    } else {
        assert(s.take(s.len() as int) =~= s);
        s.len() as int
    }
}

/// Two characters are the same, or one letter of `A` to `Z` in its two cases.
pub open spec fn are_cases_of_one(c: char, d: char) -> bool {
    ||| c == d
    ||| 'A' <= c <= 'Z' && d as u32 == c as u32 + 32
    ||| 'A' <= d <= 'Z' && c as u32 == d as u32 + 32
}

/// Two texts are the same up to case exactly where they are as long as each other, and
/// at each place have the same character or one letter in its two cases.
pub proof fn same_but_case_is_letter_by_letter(a: Seq<char>, b: Seq<char>)
    ensures
        same_but_case(a, b) == (a.len() == b.len() && forall|i: int|
            0 <= i < a.len() ==> are_cases_of_one(#[trigger] a[i], b[i])),
{
    if a.len() == b.len() {
        assert forall|i: int| 0 <= i < a.len() implies (lower_code(#[trigger] a[i]) == lower_code(
            b[i],
        )) == are_cases_of_one(a[i], b[i]) by {
            let (c, d) = (a[i], b[i]);
            vstd::utf8::char_is_scalar(c);
            vstd::utf8::char_is_scalar(d);
            vstd::utf8::char_u32_cast(c, c as u32);
            vstd::utf8::char_u32_cast(d, d as u32);
        }
    }
}

/// Joining is done part by part: no part gives nothing, one part gives itself, and two
/// lists of parts give what each gives, with one separator between.
pub proof fn joined_part_by_part(a: Seq<Seq<char>>, b: Seq<Seq<char>>, separator: Seq<char>)
    ensures
        joined(Seq::empty(), separator) == Seq::<char>::empty(),
        a.len() == 1 ==> joined(a, separator) == a[0],
        a.len() > 0 && b.len() > 0 ==> joined(a + b, separator) == joined(a, separator) + separator
            + joined(b, separator),
    decreases b.len(),
{
    if a.len() > 0 && b.len() > 0 {
        let rest = b.drop_last();
        assert((a + b).drop_last() =~= a + rest);
        assert((a + b).last() == b.last());
        if b.len() == 1 {
            assert(a + rest =~= a);
        } else {
            joined_part_by_part(a, rest, separator);
        }
        assert(joined(a + b, separator) =~= joined(a, separator) + separator + joined(
            b,
            separator,
        ));
    }
}

/// The number that decimal digits stand for.
pub open spec fn number_of(digits: Seq<char>) -> int
    decreases digits.len(),
{
    if digits.len() == 0 {
        0
    } else {
        10 * number_of(digits.drop_last()) + (digits.last() as int - '0' as int)
    }
}

/// A number is written in decimal digits that stand for it, without a zero in front.
pub proof fn decimal_digits_stand_for_the_number(n: nat)
    ensures
        number_of(decimal_digits(n)) == n,
        decimal_digits(n).len() > 0,
        forall|i: int|
            0 <= i < decimal_digits(n).len() ==> '0' <= #[trigger] decimal_digits(n)[i] <= '9',
        decimal_digits(n)[0] == '0' ==> n == 0 && decimal_digits(n).len() == 1,
    decreases n,
{
    let digit = (0x30 + n % 10) as char;
    assert(digit as int == 0x30 + n % 10);
    if n < 10 {
        assert(decimal_digits(n).drop_last() =~= Seq::empty());
        assert(number_of(Seq::<char>::empty()) == 0);
    } else {
        let before = decimal_digits(n / 10);
        decimal_digits_stand_for_the_number(n / 10);
        assert(decimal_digits(n).drop_last() =~= before);
        assert forall|i: int| 0 <= i < decimal_digits(n).len() implies '0'
            <= #[trigger] decimal_digits(n)[i] <= '9' by {
            if i < before.len() {
                assert('0' <= before[i] <= '9');
            }
        }
        assert(decimal_digits(n)[0] == before[0]);
    }
}

/// The pieces of a text between the occurrences of a character.
pub open spec fn pieces(s: Seq<char>, mark: char) -> Seq<Seq<char>>
    decreases s.len(),
{
    if s.len() == 0 {
        seq![Seq::empty()]
    } else {
        let before = pieces(s.drop_last(), mark);
        if s.last() == mark {
            before.push(Seq::empty())
        } else {
            before.drop_last().push(before.last().push(s.last()))
        }
    }
}

proof fn lemma_pieces_of_unmarked(s: Seq<char>, more: Seq<char>, mark: char)
    requires
        !more.contains(mark),
    ensures
        pieces(s, mark).len() > 0,
        pieces(s + more, mark) == pieces(s, mark).drop_last().push(pieces(s, mark).last() + more),
    decreases s.len() + more.len(),
{
    let all = pieces(s, mark);
    if s.len() > 0 {
        lemma_pieces_of_unmarked(s.drop_last(), Seq::empty(), mark);
    }
    if more.len() == 0 {
        assert(s + more =~= s);
        assert(all.last() + more =~= all.last());
        assert(all.drop_last().push(all.last()) =~= all);
    } else {
        let rest = more.drop_last();
        assert(!rest.contains(mark)) by {
            if rest.contains(mark) {
                let i = choose|i: int| 0 <= i < rest.len() && rest[i] == mark;
                assert(more[i] == mark);
            }
        }
        lemma_pieces_of_unmarked(s, rest, mark);
        assert((s + more).drop_last() =~= s + rest);
        assert(more[more.len() - 1] != mark);
        assert(pieces(s + more, mark) =~= all.drop_last().push(all.last() + more)) by {
            assert((all.last() + rest).push(more.last()) =~= all.last() + more);
        }
    }
}

/// Texts that are joined with a one-character separator which none of them holds are
/// exactly the pieces of the result.
pub proof fn pieces_of_joined(parts: Seq<Seq<char>>, mark: char)
    requires
        parts.len() > 0,
        forall|i: int| 0 <= i < parts.len() ==> !(#[trigger] parts[i]).contains(mark),
    ensures
        pieces(joined(parts, seq![mark]), mark) == parts,
    decreases parts.len(),
{
    let last = parts[parts.len() - 1];
    if parts.len() == 1 {
        lemma_pieces_of_unmarked(Seq::empty(), last, mark);
        assert(Seq::<char>::empty() + last =~= last);
        assert(pieces(last, mark) =~= parts);
    } else {
        let rest = parts.drop_last();
        assert forall|i: int| 0 <= i < rest.len() implies !(#[trigger] rest[i]).contains(mark) by {
            assert(rest[i] == parts[i]);
        }
        pieces_of_joined(rest, mark);
        let start = joined(rest, seq![mark]) + seq![mark];
        assert(start.drop_last() =~= joined(rest, seq![mark]));
        assert(pieces(start, mark) == rest.push(Seq::empty()));
        lemma_pieces_of_unmarked(start, last, mark);
        assert(rest.push(Seq::<char>::empty()).drop_last() =~= rest);
        assert(Seq::<char>::empty() + last =~= last);
        assert(rest.push(last) =~= parts);
    }
}

} // verus!
