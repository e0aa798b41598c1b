//! Dotted version strings: reading them and comparing them.
//!
//! A version is up to three numbers, `major.minor.patch`, then optionally a
//! pre-release after a `-` and build metadata after a `+`. Build metadata
//! plays no part in anything here.

use vstd::prelude::*;

use crate::order;
use crate::text;
use crate::text::{characters, find_char, is_all_digits, read_digits, read_number, split};
use std::cmp::Ordering;

verus! {

// ---------------------------------------------------------------------------
// The numbers of a version
// ---------------------------------------------------------------------------
/// `s` without build metadata.
pub open spec fn release_text(s: Seq<char>) -> Seq<char> {
    text::before(s, '+')
}

/// The dotted numbers of `s`.
pub open spec fn core_text(s: Seq<char>) -> Seq<char> {
    text::before(release_text(s), '-')
}

/// The pre-release of `s`; empty for a release.
pub open spec fn pre_text(s: Seq<char>) -> Seq<char> {
    text::after(release_text(s), '-')
}

/// The text of the `k`th number of `s`; a number that is left out counts as `0`.
pub open spec fn component(s: Seq<char>, k: int) -> Seq<char> {
    let list = text::pieces(core_text(s), '.');
    if k < list.len() {
        list[k]
    } else {
        seq!['0']
    }
}

/// `t` can stand as a number of a version.
pub open spec fn valid_component(t: Seq<char>) -> bool {
    text::is_number(t) && text::number_value(t) <= u64::MAX
}

/// `s` is a version.
pub open spec fn valid_version(s: Seq<char>) -> bool {
    &&& valid_component(component(s, 0))
    &&& valid_component(component(s, 1))
    &&& valid_component(component(s, 2))
    &&& text::pieces(core_text(s), '.').len() <= 3
}

/// The `k`th number of `s`.
pub open spec fn number(s: Seq<char>, k: int) -> nat {
    text::number_value(component(s, k))
}

/// The complaint about `t` as a number of a version.
pub open spec fn component_error(t: Seq<char>) -> Seq<char> {
    "invalid version component '"@ + t + "'"@
}

/// The complaint about `s`: the first number that is none, else that there
/// are too many.
pub open spec fn version_error(s: Seq<char>) -> Seq<char> {
    if !valid_component(component(s, 0)) {
        component_error(component(s, 0))
    } else if !valid_component(component(s, 1)) {
        component_error(component(s, 1))
    } else if !valid_component(component(s, 2)) {
        component_error(component(s, 2))
    } else {
        "invalid version '"@ + release_text(s) + "': too many numeric components"@
    }
}

/// Reads one number of a version.
pub fn parse_version_component(s: &str) -> (r: Result<u64, String>)
    ensures
        r is Ok <==> valid_component(s@),
        r matches Ok(n) ==> n == text::number_value(s@),
        r matches Err(e) ==> e@ == component_error(s@),
{
    match read_number(s) {
        Some(n) => Ok(n),
        None => {
            let mut e: String = String::new();
            e.append("invalid version component '");
            e.append(s);
            e.append("'");
            assert(e@ =~= component_error(s@));
            Err(e)
        },
    }
}

/// What stands on either side of the first `c` of `s`; `None` if there is none.
fn split_once<'a>(s: &'a str, c: char) -> (r: Option<(&'a str, &'a str)>)
    ensures
        r is Some <==> s@.contains(c),
        r matches Some((x, y)) ==> x@ == text::before(s@, c) && y@ == text::after(s@, c),
        r is None ==> text::before(s@, c) == s@ && text::after(s@, c) == Seq::<char>::empty(),
{
    let n = s.unicode_len();
    let i = find_char(s, c);
    if i == n {
        assert(text::before(s@, c) =~= s@);
        None
    } else {
        Some((s.substring_char(0, i), s.substring_char(i + 1, n)))
    }
}

/// The `k`th of the dotted numbers in `list`, or `0` where it is left out.
fn component_or_zero<'a>(list: &Vec<&'a str>, k: usize) -> (t: &'a str)
    ensures
        t@ == (if k < list@.len() {
            text::texts(list@)[k as int]
        } else {
            seq!['0']
        }),
{
    if k < list.len() {
        list[k]
    } else {
        proof {
            reveal_strlit("0");
        }
        assert("0"@ =~= seq!['0']);
        "0"
    }
}

/// Reads a dotted version string (e.g. "0.5.7" or "1.0.0-rc1") into its three
/// numbers and its pre-release. Build metadata (`+linux`) is stripped and
/// malformed numbers are rejected instead of silently taken as zero.
pub fn parse_version(s: &str) -> (r: Result<(u64, u64, u64, &str), String>)
    ensures
        r is Ok <==> valid_version(s@),
        r matches Ok((major, minor, patch, pre)) ==> {
            &&& major == number(s@, 0)
            &&& minor == number(s@, 1)
            &&& patch == number(s@, 2)
            &&& pre@ == pre_text(s@)
        },
        r matches Err(e) ==> e@ == version_error(s@),
{
    let release: &str = match split_once(s, '+') {
        Some((v, _)) => v,
        None => s,
    };
    let (core, pre): (&str, &str) = match split_once(release, '-') {
        Some((c, p)) => (c, p),
        None => {
            proof {
                reveal_strlit("");
            }
            assert(""@ =~= Seq::<char>::empty());
            (release, "")
        },
    };
    let nums = split(core, '.');
    assert(text::texts(nums@).len() == nums@.len());
    let major = parse_version_component(component_or_zero(&nums, 0))?;
    let minor = parse_version_component(component_or_zero(&nums, 1))?;
    let patch = parse_version_component(component_or_zero(&nums, 2))?;
    if nums.len() > 3 {
        let mut e: String = String::new();
        e.append("invalid version '");
        e.append(release);
        e.append("': too many numeric components");
        assert(e@ =~= version_error(s@));
        return Err(e);
    }
    Ok((major, minor, patch, pre))
}

// ---------------------------------------------------------------------------
// The identifiers of a pre-release
// ---------------------------------------------------------------------------
/// Pre-release identifier, either numeric or alphanumeric.
#[derive(Debug, PartialEq)]
pub enum PrId {
    Num(u64),
    Str(String),
}

/// What a pre-release identifier stands for.
pub enum Identifier {
    Num(u64),
    Str(Seq<char>),
}

impl View for PrId {
    type V = Identifier;

    open spec fn view(&self) -> Identifier {
        match self {
            PrId::Num(n) => Identifier::Num(*n),
            PrId::Str(t) => Identifier::Str(t@),
        }
    }
}

/// What each identifier of a list stands for.
pub open spec fn identifiers(list: Seq<PrId>) -> Seq<Identifier> {
    list.map_values(|p: PrId| p@)
}

/// Whether `c` has the Unicode property Alphabetic.
pub uninterp spec fn alphabetic(c: char) -> bool;

/// `char::is_alphabetic` tells whether the character has the Unicode property
/// Alphabetic, which depends on the character alone. Among the ASCII
/// characters those are the letters.
pub assume_specification[ char::is_alphabetic ](c: char) -> (b: bool)
    ensures
        b == alphabetic(c),
        c <= '\x7f' ==> (b <==> 'a' <= c <= 'z' || 'A' <= c <= 'Z'),
;

/// A character that can stand before the digits of an identifier such as `rc1`.
pub open spec fn is_name_char(c: char) -> bool {
    alphabetic(c) || c == '-'
}

/// Position of the first digit of `s`, or the length of `s` if there is none.
pub open spec fn first_digit(s: Seq<char>) -> int
    decreases s.len(),
{
    if s.len() == 0 || text::is_digit(s[0]) {
        0
    } else {
        1 + first_digit(s.drop_first())
    }
}

/// `s` is a name and a number, such as `rc1`.
pub open spec fn is_name_and_number(s: Seq<char>) -> bool {
    let i = first_digit(s);
    &&& 0 < i < s.len()
    &&& forall|j: int| 0 <= j < i ==> is_name_char(#[trigger] s[j])
    &&& text::all_digits(s.skip(i))
}

/// The number that a run of digits denotes, or `u64::MAX` if it is greater.
pub open spec fn capped_value(s: Seq<char>) -> u64 {
    if text::digits_value(s) <= u64::MAX {
        text::digits_value(s) as u64
    } else {
        u64::MAX
    }
}

/// The identifiers of one dotted segment of a pre-release: none if it is
/// empty, a number, a name and a number, or else the segment itself.
pub open spec fn segment_identifiers(s: Seq<char>) -> Seq<Identifier> {
    if s.len() == 0 {
        seq![]
    } else if text::all_digits(s) {
        seq![Identifier::Num(capped_value(s))]
    } else if is_name_and_number(s) {
        seq![
            Identifier::Str(s.take(first_digit(s))),
            Identifier::Num(capped_value(s.skip(first_digit(s)))),
        ]
    } else {
        seq![Identifier::Str(s)]
    }
}

/// The identifiers of a list of segments, one segment after the other.
pub open spec fn segments_identifiers(list: Seq<Seq<char>>) -> Seq<Identifier>
    decreases list.len(),
{
    if list.len() == 0 {
        seq![]
    } else {
        segments_identifiers(list.drop_last()) + segment_identifiers(list.last())
    }
}

/// The identifiers of a pre-release.
pub open spec fn pre_identifiers(s: Seq<char>) -> Seq<Identifier> {
    segments_identifiers(text::pieces(s, '.'))
}

/// Where the first digit stands.
pub proof fn lemma_first_digit(s: Seq<char>, i: int)
    requires
        0 <= i <= s.len(),
        forall|j: int| 0 <= j < i ==> !text::is_digit(#[trigger] s[j]),
        i < s.len() ==> text::is_digit(s[i]),
    ensures
        first_digit(s) == i,
    decreases i,
{
    if i > 0 {
        assert(!text::is_digit(s[0]));
        let rest = s.drop_first();
        assert forall|j: int| 0 <= j < i - 1 implies !text::is_digit(#[trigger] rest[j]) by {
            assert(rest[j] == s[j + 1]);
        }
        lemma_first_digit(rest, i - 1);
    }
}

/// Nothing before the first digit is a digit.
pub proof fn lemma_first_digit_is_first(s: Seq<char>)
    ensures
        0 <= first_digit(s) <= s.len(),
        forall|j: int| 0 <= j < first_digit(s) ==> !text::is_digit(#[trigger] s[j]),
    decreases s.len(),
{
    if s.len() > 0 && !text::is_digit(s[0]) {
        let rest = s.drop_first();
        lemma_first_digit_is_first(rest);
        assert forall|j: int| 0 <= j < first_digit(s) implies !text::is_digit(#[trigger] s[j]) by {
            if j > 0 {
                assert(s[j] == rest[j - 1]);
            }
        }
    }
}

/// Position of the first digit of `s`, or its length if there is none.
fn find_digit(s: &Vec<char>) -> (i: usize)
    ensures
        i == first_digit(s@),
        i <= s@.len(),
{
    let mut i: usize = 0;
    while i < s.len()
        invariant
            i <= s@.len(),
            forall|j: int| 0 <= j < i ==> !text::is_digit(#[trigger] s@[j]),
        decreases s@.len() - i,
    {
        if '0' <= s[i] && s[i] <= '9' {
            proof {
                lemma_first_digit(s@, i as int);
            }
            return i;
        }
        i = i + 1;
    }
    proof {
        lemma_first_digit(s@, i as int);
    }
    i
}

/// Whether the first `n` characters of `s` can all stand in a name.
fn is_name(s: &Vec<char>, n: usize) -> (b: bool)
    requires
        n <= s@.len(),
    ensures
        b <==> forall|j: int| 0 <= j < n ==> is_name_char(#[trigger] s@[j]),
{
    let mut i: usize = 0;
    while i < n
        invariant
            i <= n <= s@.len(),
            forall|j: int| 0 <= j < i ==> is_name_char(#[trigger] s@[j]),
        decreases n - i,
    {
        if !(s[i].is_alphabetic() || s[i] == '-') {
            assert(!is_name_char(s@[i as int]));
            return false;
        }
        i = i + 1;
    }
    true
}

/// Reads a run of digits, taking numbers beyond `u64::MAX` as `u64::MAX`.
fn read_capped(s: &str) -> (n: u64)
    requires
        text::all_digits(s@),
    ensures
        n == capped_value(s@),
{
    match read_digits(s) {
        Some(n) => n,
        None => u64::MAX,
    }
}

/// Reads one dotted segment of a pre-release into its identifiers.
pub fn parse_pre_segment(seg: &str) -> (r: Vec<PrId>)
    ensures
        identifiers(r@) == segment_identifiers(seg@),
{
    let n = seg.unicode_len();
    let mut r: Vec<PrId> = Vec::new();
    if n == 0 {
        assert(identifiers(r@) =~= segment_identifiers(seg@));
        return r;
    }
    if is_all_digits(seg) {
        r.push(PrId::Num(read_capped(seg)));
        assert(identifiers(r@) =~= segment_identifiers(seg@));
        return r;
    }
    let chars = characters(seg);
    let i = find_digit(&chars);
    if 0 < i && i < n && is_name(&chars, i) {
        let name = seg.substring_char(0, i);
        let rest = seg.substring_char(i, n);
        assert(rest@ == seg@.skip(i as int));
        assert(name@ == seg@.take(i as int));
        if is_all_digits(rest) {
            r.push(PrId::Str(name.to_owned()));
            r.push(PrId::Num(read_capped(rest)));
            assert(identifiers(r@) =~= segment_identifiers(seg@));
            return r;
        }
    }
    r.push(PrId::Str(seg.to_owned()));
    assert(identifiers(r@) =~= segment_identifiers(seg@));
    r
}

/// Reads a pre-release suffix into semver-like identifiers.
pub fn parse_pre(s: &str) -> (r: Vec<PrId>)
    ensures
        identifiers(r@) == pre_identifiers(s@),
{
    let list = split(s, '.');
    let ghost segs = text::texts(list@);
    let mut r: Vec<PrId> = Vec::new();
    let mut i: usize = 0;
    assert(identifiers(r@) =~= segments_identifiers(segs.take(0)));
    while i < list.len()
        invariant
            i <= list@.len(),
            segs == text::texts(list@),
            identifiers(r@) == segments_identifiers(segs.take(i as int)),
        decreases list@.len() - i,
    {
        let mut ids = parse_pre_segment(list[i]);
        let ghost was = r@;
        let ghost new = ids@;
        r.append(&mut ids);
        assert(identifiers(r@) =~= identifiers(was) + identifiers(new));
        assert(segs.take(i + 1).drop_last() =~= segs.take(i as int));
        i = i + 1;
    }
    assert(segs.take(segs.len() as int) =~= segs);
    r
}

// ---------------------------------------------------------------------------
// The order of versions
// ---------------------------------------------------------------------------
/// The order of characters by code point.
pub open spec fn char_order() -> spec_fn(char, char) -> bool {
    |x: char, y: char| x < y
}

/// Numbers come before names, numbers are ordered by value and names as in a
/// dictionary.
pub open spec fn identifier_less(a: Identifier, b: Identifier) -> bool {
    match (a, b) {
        (Identifier::Num(x), Identifier::Num(y)) => x < y,
        (Identifier::Num(_), Identifier::Str(_)) => true,
        (Identifier::Str(_), Identifier::Num(_)) => false,
        (Identifier::Str(x), Identifier::Str(y)) => order::lex_less(x, y, char_order()),
    }
}

/// The order of pre-release identifiers.
pub open spec fn identifier_order() -> spec_fn(Identifier, Identifier) -> bool {
    |a: Identifier, b: Identifier| identifier_less(a, b)
}

/// Pre-release `a` is older than pre-release `b`: identifier by identifier,
/// and with all identifiers alike the one that has fewer.
pub open spec fn pre_less(a: Seq<char>, b: Seq<char>) -> bool {
    order::lex_less(pre_identifiers(a), pre_identifiers(b), identifier_order())
}

/// The three numbers of `a` are below those of `b`.
pub open spec fn core_less(a: Seq<char>, b: Seq<char>) -> bool {
    ||| number(a, 0) < number(b, 0)
    ||| number(a, 0) == number(b, 0) && number(a, 1) < number(b, 1)
    ||| number(a, 0) == number(b, 0) && number(a, 1) == number(b, 1) && number(a, 2) < number(b, 2)
}

/// The three numbers of `a` are those of `b`.
pub open spec fn same_core(a: Seq<char>, b: Seq<char>) -> bool {
    &&& number(a, 0) == number(b, 0)
    &&& number(a, 1) == number(b, 1)
    &&& number(a, 2) == number(b, 2)
}

/// Version `a` is older than version `b`: by the numbers, and with equal
/// numbers a pre-release is older than the release, and pre-releases are
/// ordered among themselves.
pub open spec fn older(a: Seq<char>, b: Seq<char>) -> bool {
    ||| core_less(a, b)
    ||| same_core(a, b) && pre_text(a).len() > 0 && (pre_text(b).len() == 0 || pre_less(
        pre_text(a),
        pre_text(b),
    ))
}

/// Version `a` is `b` or newer.
pub open spec fn at_least(a: Seq<char>, b: Seq<char>) -> bool {
    !older(a, b)
}

proof fn lemma_char_order()
    ensures
        order::strict_total(char_order()),
{
}

/// Identifiers are totally ordered.
pub proof fn lemma_identifier_order()
    ensures
        order::strict_total(identifier_order()),
{
    let less = identifier_order();
    lemma_char_order();
    assert forall|x: Identifier| !#[trigger] less(x, x) by {
        if let Identifier::Str(t) = x {
            order::lemma_lex_irreflexive(t, char_order());
        }
    }
    assert forall|x: Identifier, y: Identifier, z: Identifier|
        #![trigger less(x, y), less(y, z)]
        less(x, y) && less(y, z) implies less(x, z) by {
        match (x, y, z) {
            (Identifier::Str(p), Identifier::Str(q), Identifier::Str(r)) => {
                order::lemma_lex_transitive(p, q, r, char_order());
            },
            _ => {},
        }
    }
    assert forall|x: Identifier, y: Identifier| #![trigger less(x, y)] less(x, y) || x == y || less(
        y,
        x,
    ) by {
        match (x, y) {
            (Identifier::Str(p), Identifier::Str(q)) => {
                order::lemma_lex_trichotomy(p, q, char_order());
            },
            _ => {},
        }
    }
}

/// Whether `a` comes before `b` in dictionary order.
fn text_less(a: &str, b: &str) -> (r: bool)
    ensures
        r == order::lex_less(a@, b@, char_order()),
{
    let x = characters(a);
    let y = characters(b);
    let mut i: usize = 0;
    while i < x.len() && i < y.len() && x[i] == y[i]
        invariant
            i <= x@.len(),
            i <= y@.len(),
            x@.take(i as int) == y@.take(i as int),
        decreases x@.len() - i,
    {
        assert(x@.take(i + 1) =~= x@.take(i as int).push(x@[i as int]));
        assert(y@.take(i + 1) =~= y@.take(i as int).push(y@[i as int]));
        i = i + 1;
    }
    proof {
        order::lemma_lex_at(x@, y@, i as int, char_order());
    }
    i < y.len() && (i == x.len() || x[i] < y[i])
}

/// Whether identifier `a` comes before identifier `b`.
fn id_less(a: &PrId, b: &PrId) -> (r: bool)
    ensures
        r == identifier_less(a@, b@),
{
    match (a, b) {
        (PrId::Num(x), PrId::Num(y)) => *x < *y,
        (PrId::Num(_), PrId::Str(_)) => true,
        (PrId::Str(_), PrId::Num(_)) => false,
        (PrId::Str(x), PrId::Str(y)) => text_less(x.as_str(), y.as_str()),
    }
}

/// Whether the identifiers `a` come before the identifiers `b`.
fn ids_less(a: &Vec<PrId>, b: &Vec<PrId>) -> (r: bool)
    ensures
        r == order::lex_less(identifiers(a@), identifiers(b@), identifier_order()),
{
    let ghost x = identifiers(a@);
    let ghost y = identifiers(b@);
    proof {
        lemma_identifier_order();
    }
    let ghost less = identifier_order();
    let mut i: usize = 0;
    while i < a.len() && i < b.len()
        invariant
            i <= a@.len(),
            i <= b@.len(),
            x == identifiers(a@),
            y == identifiers(b@),
            x.take(i as int) == y.take(i as int),
            less == identifier_order(),
            order::strict_total(less),
        decreases a@.len() - i,
    {
        assert(x[i as int] == a@[i as int]@);
        assert(y[i as int] == b@[i as int]@);
        if id_less(&a[i], &b[i]) {
            proof {
                assert(less(x[i as int], y[i as int]));
                assert(!less(x[i as int], x[i as int]));
                order::lemma_lex_at(x, y, i as int, less);
            }
            return true;
        }
        if id_less(&b[i], &a[i]) {
            proof {
                assert(less(y[i as int], x[i as int]));
                assert(!less(y[i as int], y[i as int]));
                assert(!less(x[i as int], y[i as int]));
                order::lemma_lex_at(x, y, i as int, less);
            }
            return false;
        }
        assert(!less(x[i as int], y[i as int]) && !less(y[i as int], x[i as int]));
        assert(x.take(i + 1) =~= x.take(i as int).push(x[i as int]));
        assert(y.take(i + 1) =~= y.take(i as int).push(y[i as int]));
        i = i + 1;
    }
    proof {
        order::lemma_lex_at(x, y, i as int, less);
    }
    i < b.len()
}

/// Compares two pre-releases, identifier by identifier.
pub fn cmp_pre(current: &str, min: &str) -> (r: Ordering)
    ensures
        r == Ordering::Less <==> pre_less(current@, min@),
        r == Ordering::Greater <==> pre_less(min@, current@),
        r == Ordering::Equal <==> pre_identifiers(current@) == pre_identifiers(min@),
{
    let c = parse_pre(current);
    let m = parse_pre(min);
    proof {
        lemma_identifier_order();
        order::lemma_lex_trichotomy(identifiers(c@), identifiers(m@), identifier_order());
    }
    if ids_less(&c, &m) {
        Ordering::Less
    } else if ids_less(&m, &c) {
        Ordering::Greater
    } else {
        Ordering::Equal
    }
}

/// Compares two dotted version strings.
///
/// Semver-style rules are used: a release is newer than any pre-release of the
/// same core; pre-releases are compared identifier by identifier, with numeric
/// identifiers sorting before alphanumeric ones and shorter prefixes sorting
/// before longer ones (`alpha` < `alpha.1`).
pub fn version_at_least(current: &str, min: &str) -> (r: Result<bool, String>)
    ensures
        r is Ok <==> valid_version(current@) && valid_version(min@),
        r matches Ok(b) ==> b == at_least(current@, min@),
        r matches Err(e) ==> e@ == (if !valid_version(current@) {
            version_error(current@)
        } else {
            version_error(min@)
        }),
{
    let (c_maj, c_min, c_pat, c_pre) = parse_version(current)?;
    let (m_maj, m_min, m_pat, m_pre) = parse_version(min)?;
    if c_maj != m_maj {
        return Ok(c_maj > m_maj);
    }
    if c_min != m_min {
        return Ok(c_min > m_min);
    }
    if c_pat != m_pat {
        return Ok(c_pat > m_pat);
    }
    if m_pre.is_empty() {
        Ok(c_pre.is_empty())
    } else if c_pre.is_empty() {
        Ok(true)
    } else {
        match cmp_pre(c_pre, m_pre) {
            Ordering::Less => Ok(false),
            Ordering::Equal => Ok(true),
            Ordering::Greater => Ok(true),
        }
    }
}

} // verus!
