//! What holds of the cutting of text and of the notation of numbers.

use vstd::prelude::*;

use crate::text;

verus! {

/// What stands before and after a separator is found again, and a text without
/// the separator stands before it as a whole.
pub proof fn text_is_cut_at_the_first_separator(a: Seq<char>, c: char, b: Seq<char>)
    requires
        !a.contains(c),
    ensures
        text::before(a + seq![c] + b, c) == a,
        text::after(a + seq![c] + b, c) == b,
        text::before(a, c) == a,
        text::after(a, c) == Seq::<char>::empty(),
{
    let joined = a + seq![c] + b;
    text::lemma_first_index(a, c);
    text::lemma_first_index(joined, c);
    text::lemma_first_index_joined(a, c, b);
    assert(joined[a.len() as int] == c);
    assert(text::before(joined, c) =~= a);
    assert(text::after(joined, c) =~= b);
    assert(text::before(a, c) =~= a);
}

/// A text without the separator is one piece, and a separator parts the pieces
/// on its left from those on its right.
pub proof fn pieces_lie_between_separators(a: Seq<char>, c: char, b: Seq<char>)
    ensures
        !a.contains(c) ==> text::pieces(a, c) == seq![a],
        text::pieces(a + seq![c] + b, c) == text::pieces(a, c) + text::pieces(b, c),
{
    text::lemma_pieces_joined(a, c, b);
}

/// The strings of a list are taken one by one.
pub proof fn texts_are_those_of_the_strings(list: Seq<&str>)
    ensures
        text::texts(list).len() == list.len(),
        forall|i: int| 0 <= i < list.len() ==> (#[trigger] text::texts(list)[i]) == list[i]@,
{
}

/// The digits are the ten characters from `0` to `9`, and digits are one or more
/// of them.
pub proof fn there_are_ten_digits(c: char, s: Seq<char>)
    ensures
        text::is_digit(c) <==> "0123456789"@.contains(c),
        text::all_digits(s) <==> s.len() > 0 && forall|i: int|
            0 <= i < s.len() ==> "0123456789"@.contains(#[trigger] s[i]),
{
    lemma_ten_digits();
}

proof fn lemma_ten_digits()
    ensures
        "0123456789"@.len() == 10,
        forall|k: int| 0 <= k < 10 ==> (#[trigger] "0123456789"@[k]) as int == '0' as int + k,
        forall|c: char| #[trigger] text::is_digit(c) <==> "0123456789"@.contains(c),
{
    reveal_strlit("0123456789");
    let all = "0123456789"@;
    assert(all.len() == 10);
    assert forall|c: char| #[trigger] text::is_digit(c) implies all.contains(c) by {
        let k = c as int - '0' as int;
        assert(all[k] as int == c as int);
        assert(all[k] == c);
    }
    assert forall|c: char| all.contains(c) implies #[trigger] text::is_digit(c) by {
        let k = choose|k: int| 0 <= k < all.len() && all[k] == c;
        assert(all[k] as int == '0' as int + k);
    }
}

/// Numbers are decimal: no digits denote zero, and a further digit is added to
/// ten times what stands before it.
pub proof fn digits_are_decimal(s: Seq<char>, k: int)
    requires
        0 <= k < 10,
    ensures
        text::digits_value(Seq::empty()) == 0,
        text::digits_value(s.push("0123456789"@[k])) == 10 * text::digits_value(s) + k,
{
    lemma_ten_digits();
    let t = s.push("0123456789"@[k]);
    assert(t.drop_last() =~= s);
    assert(t.last() as int - '0' as int == k);
}

/// Digits denote a number with and without a plus sign before them, and nothing
/// else does.
pub proof fn number_is_digits_with_or_without_plus(s: Seq<char>)
    ensures
        text::is_number(s) <==> text::all_digits(s) || (s.len() > 0 && s[0] == '+'
            && text::all_digits(s.drop_first())),
        text::all_digits(s) ==> text::number_value(s) == text::digits_value(s),
        text::all_digits(s) ==> text::number_value(seq!['+'] + s) == text::digits_value(s),
{
    assert((seq!['+'] + s).skip(1) =~= s);
    if s.len() > 0 {
        assert(s.skip(1) =~= s.drop_first());
        if text::all_digits(s) {
            assert(text::is_digit(s[0]));
        }
    }
}

/// A number is written in digits that denote it, without a needless zero before
/// them.
pub proof fn written_number_is_read_back(n: nat)
    ensures
        text::all_digits(text::decimal(n)),
        text::digits_value(text::decimal(n)) == n,
        text::decimal(n).len() > 1 ==> text::decimal(n)[0] != '0',
    decreases n,
{
    let s = text::decimal(n);
    if n < 10 {
        assert(s.drop_last() =~= Seq::<char>::empty());
        assert(text::digits_value(s.drop_last()) == 0);
        assert(s.last() as int == '0' as int + n);
    } else {
        let init = text::decimal(n / 10);
        written_number_is_read_back(n / 10);
        assert(s.drop_last() =~= init);
        assert(s.last() as int == '0' as int + n % 10);
        assert forall|i: int| 0 <= i < s.len() implies text::is_digit(#[trigger] s[i]) by {
            if i < init.len() {
                assert(s[i] == init[i]);
            }
        }
        assert(s[0] == init[0]);
        if init.len() == 1 && init[0] == '0' {
            assert(init.drop_last() =~= Seq::<char>::empty());
            assert(text::digits_value(init.drop_last()) == 0);
            assert(text::digits_value(init) == 0);
        }
    }
}

/// Bytes are written with two digits each, the high one first.
pub proof fn byte_is_written_with_two_digits(bytes: Seq<u8>, i: int)
    requires
        0 <= i < bytes.len(),
    ensures
        text::hex(bytes).len() == 2 * bytes.len(),
        text::hex(bytes)[2 * i] == "0123456789abcdef"@[bytes[i] as int / 16],
        text::hex(bytes)[2 * i + 1] == "0123456789abcdef"@[bytes[i] as int % 16],
{
    lemma_hex_digit(bytes[i] as int / 16);
    lemma_hex_digit(bytes[i] as int % 16);
}

proof fn lemma_hex_digit(n: int)
    requires
        0 <= n < 16,
    ensures
        text::hex_digit(n) == "0123456789abcdef"@[n],
        text::ascii_lower("0123456789ABCDEF"@[n]) == "0123456789abcdef"@[n],
        text::ascii_lower("0123456789abcdef"@[n]) == "0123456789abcdef"@[n],
        forall|c: char| #[trigger] text::ascii_lower(c) == "0123456789abcdef"@[n] ==> c
            == "0123456789abcdef"@[n] || c == "0123456789ABCDEF"@[n],
{
    reveal_strlit("0123456789abcdef");
    reveal_strlit("0123456789ABCDEF");
    let small = "0123456789abcdef"@;
    let large = "0123456789ABCDEF"@;
    assert(small[n] as int == (if n < 10 { 48 + n } else { 87 + n }));
    assert(large[n] as int == (if n < 10 { 48 + n } else { 55 + n }));
    assert(text::hex_digit(n) as int == small[n] as int);
    assert forall|c: char| #[trigger] text::ascii_lower(c) == small[n] implies c == small[n] || c
        == large[n] by {
        if 'A' <= c <= 'Z' {
            assert(text::ascii_lower(c) as int == c as int + 32);
            assert(c as int == large[n] as int);
        }
    }
}

/// Bytes are compared with digits of either case.
pub proof fn digits_are_compared_in_either_case(bytes: Seq<u8>, s: Seq<char>)
    ensures
        text::same_ignoring_case(text::hex(bytes), s) <==> s.len() == 2 * bytes.len() && forall|
            i: int,
        |
            0 <= i < bytes.len() ==> {
                let high = (#[trigger] bytes[i]) as int / 16;
                let low = bytes[i] as int % 16;
                &&& s[2 * i] == "0123456789abcdef"@[high] || s[2 * i]
                    == "0123456789ABCDEF"@[high]
                &&& s[2 * i + 1] == "0123456789abcdef"@[low] || s[2 * i + 1]
                    == "0123456789ABCDEF"@[low]
            },
{
    let h = text::hex(bytes);
    assert(h.len() == 2 * bytes.len());
    if text::same_ignoring_case(h, s) {
        assert forall|i: int| 0 <= i < bytes.len() implies {
            let high = (#[trigger] bytes[i]) as int / 16;
            let low = bytes[i] as int % 16;
            &&& s[2 * i] == "0123456789abcdef"@[high] || s[2 * i] == "0123456789ABCDEF"@[high]
            &&& s[2 * i + 1] == "0123456789abcdef"@[low] || s[2 * i + 1]
                == "0123456789ABCDEF"@[low]
        } by {
            lemma_hex_digit(bytes[i] as int / 16);
            lemma_hex_digit(bytes[i] as int % 16);
            assert(text::ascii_lower(h[2 * i]) == text::ascii_lower(s[2 * i]));
            assert(text::ascii_lower(h[2 * i + 1]) == text::ascii_lower(s[2 * i + 1]));
        }
    } else if s.len() == h.len() {
        let j = choose|j: int|
            0 <= j < h.len() && text::ascii_lower(#[trigger] h[j]) != text::ascii_lower(s[j]);
        let i = j / 2;
        lemma_hex_digit(bytes[i] as int / 16);
        lemma_hex_digit(bytes[i] as int % 16);
        assert(j == 2 * i || j == 2 * i + 1);
    }
}

} // verus!
