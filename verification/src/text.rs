//! Operations on text: cutting a string at a separator, reading and writing
//! decimal numbers, and the orders and equalities the loader relies on.
//!
//! A string is modelled by the sequence of its characters.

use vstd::prelude::*;

verus! {

/// Position of the first `c` in `s`, or the length of `s` if there is none.
pub open spec fn first_index(s: Seq<char>, c: char) -> int
    decreases s.len(),
{
    if s.len() == 0 || s[0] == c {
        0
    } else {
        1 + first_index(s.drop_first(), c)
    }
}

/// What precedes the first `c` in `s`; all of `s` if there is none.
pub open spec fn before(s: Seq<char>, c: char) -> Seq<char> {
    s.take(first_index(s, c))
}

/// What follows the first `c` in `s`; nothing if there is none.
pub open spec fn after(s: Seq<char>, c: char) -> Seq<char> {
    if s.contains(c) {
        s.skip(first_index(s, c) + 1)
    } else {
        Seq::empty()
    }
}

/// The pieces of `s` between the occurrences of `c`; always at least one.
pub open spec fn pieces(s: Seq<char>, c: char) -> Seq<Seq<char>>
    decreases s.len(),
{
    if s.contains(c) {
        proof {
            lemma_first_index(s, c);
        }
        seq![before(s, c)] + pieces(after(s, c), c)
    } else {
        seq![s]
    }
}

/// The characters of each string of a list.
pub open spec fn texts(list: Seq<&str>) -> Seq<Seq<char>> {
    list.map_values(|t: &str| t@)
}

/// `first_index` is where the first `c` stands.
pub proof fn lemma_first_index(s: Seq<char>, c: char)
    ensures
        0 <= first_index(s, c) <= s.len(),
        forall|j: int| 0 <= j < first_index(s, c) ==> s[j] != c,
        first_index(s, c) < s.len() ==> s[first_index(s, c)] == c,
        s.contains(c) <==> first_index(s, c) < s.len(),
    decreases s.len(),
{
    if s.len() != 0 && s[0] != c {
        let rest = s.drop_first();
        lemma_first_index(rest, c);
        assert forall|j: int| 0 <= j < first_index(s, c) implies s[j] != c by {
            if j > 0 {
                assert(s[j] == rest[j - 1]);
            }
        }
        if s.contains(c) {
            let k = choose|k: int| 0 <= k < s.len() && s[k] == c;
            assert(rest[k - 1] == c);
        }
    }
}

/// Where the first `c` stands in `a` followed by a `c` and `b`.
pub proof fn lemma_first_index_joined(a: Seq<char>, c: char, b: Seq<char>)
    ensures
        first_index(a + seq![c] + b, c) == first_index(a, c),
    decreases a.len(),
{
    let joined = a + seq![c] + b;
    if a.len() > 0 && a[0] != c {
        assert(joined.drop_first() =~= a.drop_first() + seq![c] + b);
        lemma_first_index_joined(a.drop_first(), c, b);
    }
}

/// Two texts with a separator between them have the pieces of the one and then
/// those of the other.
pub proof fn lemma_pieces_joined(a: Seq<char>, c: char, b: Seq<char>)
    ensures
        pieces(a + seq![c] + b, c) == pieces(a, c) + pieces(b, c),
    decreases a.len(),
{
    let joined = a + seq![c] + b;
    lemma_first_index_joined(a, c, b);
    lemma_first_index(a, c);
    lemma_first_index(joined, c);
    assert(joined[a.len() as int] == c);
    assert(before(joined, c) =~= before(a, c));
    if a.contains(c) {
        assert(after(joined, c) =~= after(a, c) + seq![c] + b);
        lemma_pieces_joined(after(a, c), c, b);
    } else {
        assert(after(joined, c) =~= b);
        assert(before(a, c) =~= a);
    }
    assert(pieces(joined, c) =~= pieces(a, c) + pieces(b, c));
}

/// Position, counted in characters, of the first `c` in `s`, or the number of
/// characters if there is none.
pub(crate) fn find_char(s: &str, c: char) -> (i: usize)
    ensures
        i == first_index(s@, c),
        i <= s@.len(),
        s@.contains(c) <==> i < s@.len(),
{
    let n = s.unicode_len();
    let mut i: usize = 0;
    for x in it: s.chars()
        invariant
            n == s@.len(),
            it.seq() == s@,
            i == it.index(),
            forall|j: int| 0 <= j < i ==> s@[j] != c,
    {
        if x == c {
            proof {
                lemma_first_index(s@, c);
            }
            return i;
        }
        i = i + 1;
    }
    proof {
        lemma_first_index(s@, c);
    }
    i
}

/// Splits `s` at every `c`.
pub(crate) fn split<'a>(s: &'a str, c: char) -> (list: Vec<&'a str>)
    ensures
        texts(list@) == pieces(s@, c),
{
    let mut list: Vec<&'a str> = Vec::new();
    let mut rest: &'a str = s;
    loop
        invariant
            pieces(s@, c) == texts(list@) + pieces(rest@, c),
        decreases rest@.len(),
    {
        let n = rest.unicode_len();
        let i = find_char(rest, c);
        let ghost was = list@;
        if i == n {
            list.push(rest);
            assert(texts(list@) == texts(was) + seq![rest@]);
            return list;
        }
        let piece = rest.substring_char(0, i);
        let next = rest.substring_char(i + 1, n);
        assert(next@ == after(rest@, c));
        list.push(piece);
        assert(texts(list@) == texts(was) + seq![before(rest@, c)]);
        assert(texts(was) + (seq![before(rest@, c)] + pieces(next@, c)) == texts(list@) + pieces(
            next@,
            c,
        ));
        rest = next;
    }
}

/// The characters of `s`, in order.
pub(crate) fn characters(s: &str) -> (v: Vec<char>)
    ensures
        v@ == s@,
{
    let mut v: Vec<char> = Vec::new();
    for x in it: s.chars()
        invariant
            it.seq() == s@,
            v@ == s@.take(it.index()),
    {
        v.push(x);
    }
    v
}

/// A decimal digit, `0` to `9`.
pub open spec fn is_digit(c: char) -> bool {
    '0' <= c <= '9'
}

/// One or more decimal digits and nothing else.
pub open spec fn all_digits(s: Seq<char>) -> bool {
    s.len() > 0 && forall|i: int| 0 <= i < s.len() ==> is_digit(#[trigger] s[i])
}

/// The number that a run of decimal digits denotes.
pub open spec fn digits_value(s: Seq<char>) -> nat
    decreases s.len(),
{
    if s.len() == 0 {
        0
    } else {
        (digits_value(s.drop_last()) * 10 + (s.last() as int - '0' as int)) as nat
    }
}

/// `s` without one leading plus sign.
pub open spec fn without_sign(s: Seq<char>) -> Seq<char> {
    if s.len() > 0 && s[0] == '+' {
        s.skip(1)
    } else {
        s
    }
}

/// `s` denotes an unsigned number: digits with at most one plus sign before them.
pub open spec fn is_number(s: Seq<char>) -> bool {
    all_digits(without_sign(s))
}

/// The number that `s` denotes.
pub open spec fn number_value(s: Seq<char>) -> nat {
    digits_value(without_sign(s))
}

/// Whether `s` is a run of decimal digits.
pub(crate) fn is_all_digits(s: &str) -> (b: bool)
    ensures
        b == all_digits(s@),
{
    let mut any: bool = false;
    for x in it: s.chars()
        invariant
            it.seq() == s@,
            any == (it.index() > 0),
            forall|j: int| 0 <= j < it.index() ==> is_digit(#[trigger] s@[j]),
    {
        if x < '0' || x > '9' {
            assert(!is_digit(s@[it.index()]));
            return false;
        }
        any = true;
    }
    any
}

/// Reads a run of decimal digits; `None` if the number exceeds `u64::MAX`.
pub(crate) fn read_digits(s: &str) -> (r: Option<u64>)
    requires
        all_digits(s@),
    ensures
        r == (if digits_value(s@) <= u64::MAX {
            Some(digits_value(s@) as u64)
        } else {
            None
        }),
{
    let mut acc: Option<u64> = Some(0);
    for x in it: s.chars()
        invariant
            all_digits(s@),
            it.seq() == s@,
            acc matches Some(v) ==> v == digits_value(s@.take(it.index())),
            acc is None ==> digits_value(s@.take(it.index())) > u64::MAX,
    {
        let ghost k = it.index();
        assert(is_digit(s@[k]));
        assert(s@.take(k + 1).drop_last() == s@.take(k));
        let d: u64 = (x as u32 - '0' as u32) as u64;
        acc = match acc {
            Some(v) => match v.checked_mul(10) {
                Some(t) => t.checked_add(d),
                None => None,
            },
            None => None,
        };
    }
    assert(s@.take(s@.len() as int) == s@);
    acc
}

/// Reads an unsigned number; `None` if `s` denotes none or one above `u64::MAX`.
pub(crate) fn read_number(s: &str) -> (r: Option<u64>)
    ensures
        r == (if is_number(s@) && number_value(s@) <= u64::MAX {
            Some(number_value(s@) as u64)
        } else {
            None
        }),
{
    let n = s.unicode_len();
    let digits: &str = if n > 0 && s.get_char(0) == '+' {
        s.substring_char(1, n)
    } else {
        s
    };
    assert(digits@ == without_sign(s@));
    if is_all_digits(digits) {
        read_digits(digits)
    } else {
        None
    }
}

/// `String::push` appends one character to the string.
pub assume_specification[ String::push ](s: &mut String, c: char)
    ensures
        final(s)@ == old(s)@.push(c),
;

/// The decimal notation of `n`, without leading zeros.
pub open spec fn decimal(n: nat) -> Seq<char>
    decreases n,
{
    if n < 10 {
        seq![('0' as int + n) as char]
    } else {
        decimal(n / 10).push(('0' as int + n % 10) as char)
    }
}

/// Writes `n` in decimal.
pub(crate) fn decimal_text(n: u64) -> (s: String)
    ensures
        s@ == decimal(n as nat),
    decreases n,
{
    let mut s: String = if n < 10 {
        String::new()
    } else {
        decimal_text(n / 10)
    };
    let d: u8 = (n % 10) as u8;
    s.push(('0' as u8 + d) as char);
    assert(s@ == decimal(n as nat));
    s
}

/// The hexadecimal digit for `n`, in lower case.
pub open spec fn hex_digit(n: int) -> char {
    if n < 10 {
        ('0' as int + n) as char
    } else {
        ('a' as int + n - 10) as char
    }
}

/// Two lower-case hexadecimal digits per byte, the high one first.
pub open spec fn hex(bytes: Seq<u8>) -> Seq<char> {
    Seq::new(
        2 * bytes.len(),
        |i: int|
            if i % 2 == 0 {
                hex_digit(bytes[i / 2] as int / 16)
            } else {
                hex_digit(bytes[i / 2] as int % 16)
            },
    )
}

fn hex_char(n: u8) -> (c: char)
    requires
        n < 16,
    ensures
        c == hex_digit(n as int),
{
    if n < 10 {
        ('0' as u8 + n) as char
    } else {
        ('a' as u8 + (n - 10)) as char
    }
}

/// Writes `bytes` in lower-case hexadecimal.
pub(crate) fn hex_text(bytes: &[u8]) -> (s: String)
    ensures
        s@ == hex(bytes@),
{
    let mut s: String = String::new();
    let mut i: usize = 0;
    while i < bytes.len()
        invariant
            i <= bytes@.len(),
            s@ == hex(bytes@.take(i as int)),
        decreases bytes@.len() - i,
    {
        let b: u8 = bytes[i];
        s.push(hex_char(b / 16));
        s.push(hex_char(b % 16));
        i = i + 1;
        assert(s@ =~= hex(bytes@.take(i as int)));
    }
    assert(bytes@.take(bytes@.len() as int) == bytes@);
    s
}

/// `c` with the letters `A` to `Z` made small.
pub open spec fn ascii_lower(c: char) -> char {
    if 'A' <= c <= 'Z' {
        (c as int + 32) as char
    } else {
        c
    }
}

/// Equality that takes `A` to `Z` and `a` to `z` as the same letters.
pub open spec fn same_ignoring_case(a: Seq<char>, b: Seq<char>) -> bool {
    a.len() == b.len() && forall|i: int|
        0 <= i < a.len() ==> ascii_lower(#[trigger] a[i]) == ascii_lower(b[i])
}

fn lower(c: char) -> (r: char)
    ensures
        r == ascii_lower(c),
{
    if 'A' <= c && c <= 'Z' {
        (c as u8 + 32) as char
    } else {
        c
    }
}

/// Compares two strings, ignoring the case of the letters `A` to `Z`.
pub(crate) fn eq_ignoring_case(a: &str, b: &str) -> (r: bool)
    ensures
        r == same_ignoring_case(a@, b@),
{
    let x = characters(a);
    let y = characters(b);
    if x.len() != y.len() {
        return false;
    }
    let mut i: usize = 0;
    while i < x.len()
        invariant
            x@ == a@,
            y@ == b@,
            i <= x@.len() == y@.len(),
            forall|j: int| 0 <= j < i ==> ascii_lower(#[trigger] a@[j]) == ascii_lower(b@[j]),
        decreases x@.len() - i,
    {
        if lower(x[i]) != lower(y[i]) {
            assert(ascii_lower(a@[i as int]) != ascii_lower(b@[i as int]));
            return false;
        }
        i = i + 1;
    }
    true
}

/// Compares two strings for equality.
pub(crate) fn same_text(a: &str, b: &str) -> (r: bool)
    ensures
        r == (a@ == b@),
{
    let x = characters(a);
    let y = characters(b);
    if x.len() != y.len() {
        return false;
    }
    let mut i: usize = 0;
    while i < x.len()
        invariant
            x@ == a@,
            y@ == b@,
            i <= x@.len() == y@.len(),
            forall|j: int| 0 <= j < i ==> a@[j] == b@[j],
        decreases x@.len() - i,
    {
        if x[i] != y[i] {
            return false;
        }
        i = i + 1;
    }
    assert(a@ =~= b@);
    true
}

} // verus!
