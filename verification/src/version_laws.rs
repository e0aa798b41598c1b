//! What holds of the order of versions as a whole.

use vstd::prelude::*;

use crate::order;
use crate::text;
use crate::text_laws;
use crate::version;

verus! {

/// Every version is at least itself.
pub proof fn at_least_is_reflexive(v: Seq<char>)
    ensures
        version::at_least(v, v),
{
    order::lemma_lex_irreflexive(
        version::pre_identifiers(version::pre_text(v)),
        version::identifier_order(),
    );
}

/// Of any two versions one is at least the other.
pub proof fn at_least_is_total(a: Seq<char>, b: Seq<char>)
    ensures
        version::at_least(a, b) || version::at_least(b, a),
{
    version::lemma_identifier_order();
    order::lemma_lex_trichotomy(
        version::pre_identifiers(version::pre_text(a)),
        version::pre_identifiers(version::pre_text(b)),
        version::identifier_order(),
    );
}

/// A version at least `b` is at least whatever `b` is at least.
pub proof fn at_least_is_transitive(a: Seq<char>, b: Seq<char>, c: Seq<char>)
    requires
        version::at_least(a, b),
        version::at_least(b, c),
    ensures
        version::at_least(a, c),
{
    let x = version::pre_identifiers(version::pre_text(a));
    let y = version::pre_identifiers(version::pre_text(b));
    let z = version::pre_identifiers(version::pre_text(c));
    let less = version::identifier_order();
    version::lemma_identifier_order();
    order::lemma_lex_trichotomy(x, y, less);
    order::lemma_lex_trichotomy(y, z, less);
    order::lemma_lex_trichotomy(x, z, less);
    if order::lex_less(x, z, less) && order::lex_less(z, y, less) {
        order::lemma_lex_transitive(x, z, y, less);
    }
    if order::lex_less(y, x, less) && order::lex_less(x, z, less) {
        order::lemma_lex_transitive(y, x, z, less);
    }
}

/// Two versions that are each at least the other have the same numbers, and
/// both are releases or both are pre-releases with the same identifiers.
pub proof fn at_least_both_ways_means_equal(a: Seq<char>, b: Seq<char>)
    ensures
        version::at_least(a, b) && version::at_least(b, a) <==> {
            &&& version::same_core(a, b)
            &&& version::pre_text(a).len() == 0 <==> version::pre_text(b).len() == 0
            &&& version::pre_text(a).len() == 0 || version::pre_identifiers(version::pre_text(a))
                == version::pre_identifiers(version::pre_text(b))
        },
{
    version::lemma_identifier_order();
    order::lemma_lex_trichotomy(
        version::pre_identifiers(version::pre_text(a)),
        version::pre_identifiers(version::pre_text(b)),
        version::identifier_order(),
    );
}

/// Build metadata changes nothing: not whether a version is valid, not what is
/// wrong with it, not its numbers, not its pre-release, not how it compares.
pub proof fn build_metadata_is_ignored(v: Seq<char>, metadata: Seq<char>, other: Seq<char>)
    ensures
        ({
            let built = v + seq!['+'] + metadata;
            &&& version::valid_version(built) == version::valid_version(v)
            &&& version::version_error(built) == version::version_error(v)
            &&& version::same_core(built, v)
            &&& version::pre_text(built) == version::pre_text(v)
            &&& version::at_least(built, other) == version::at_least(v, other)
            &&& version::at_least(other, built) == version::at_least(other, v)
        }),
{
    let built = v + seq!['+'] + metadata;
    text::lemma_first_index_joined(v, '+', metadata);
    text::lemma_first_index(v, '+');
    assert(version::release_text(built) =~= version::release_text(v));
}

/// A version whose numbers are higher is newer, whatever its pre-release.
pub proof fn higher_numbers_are_newer(a: Seq<char>, b: Seq<char>)
    requires
        version::core_less(b, a),
    ensures
        version::at_least(a, b),
        !version::at_least(b, a),
{
}

/// The parts of a version written as numbers, a dash and a pre-release.
proof fn lemma_parts(core: Seq<char>, pre: Seq<char>)
    requires
        !core.contains('+'),
        !core.contains('-'),
    ensures
        version::core_text(core) == core,
        version::pre_text(core) == Seq::<char>::empty(),
        version::core_text(core + seq!['-'] + pre) == core,
        version::pre_text(core + seq!['-'] + pre) == text::before(pre, '+'),
{
    let v = core + seq!['-'] + pre;
    text::lemma_first_index(core, '+');
    text::lemma_first_index(core, '-');
    text::lemma_first_index(pre, '+');
    text::lemma_first_index(v, '+');
    assert(version::release_text(core) =~= core);
    assert(version::core_text(core) =~= core);
    let cut = text::before(pre, '+');
    let i = text::first_index(v, '+');
    let k = text::first_index(pre, '+');
    assert(v.take(core.len() as int) =~= core);
    assert forall|j: int| 0 <= j < core.len() + 1 + k implies v[j] != '+' by {
        if j < core.len() {
            assert(v[j] == core[j]);
        } else if j > core.len() {
            assert(v[j] == pre[j - core.len() - 1]);
        }
    }
    if k < pre.len() {
        assert(v[core.len() + 1 + k] == '+');
    }
    assert(i == core.len() + 1 + k);
    assert(version::release_text(v) =~= core + seq!['-'] + cut);
    text::lemma_first_index_joined(core, '-', cut);
    text::lemma_first_index(core + seq!['-'] + cut, '-');
    assert((core + seq!['-'] + cut)[core.len() as int] == '-');
    assert(version::core_text(v) =~= core);
    assert(version::pre_text(v) =~= cut);
}

/// A release is newer than any pre-release of the same numbers.
pub proof fn release_is_newer_than_its_pre_releases(core: Seq<char>, pre: Seq<char>)
    requires
        !core.contains('+'),
        !core.contains('-'),
        pre.len() > 0,
        pre[0] != '+',
    ensures
        version::at_least(core, core + seq!['-'] + pre),
        !version::at_least(core + seq!['-'] + pre, core),
{
    lemma_parts(core, pre);
    text::lemma_first_index(pre, '+');
    text::lemma_first_index(pre.drop_first(), '+');
    assert(text::before(pre, '+').len() > 0);
}

/// Numeric identifiers sort before alphanumeric ones: where two pre-releases
/// first differ, the one that has a number there is older than the one that
/// has a name.
pub proof fn numbers_sort_before_names(a: Seq<char>, b: Seq<char>, i: int)
    requires
        0 <= i < version::pre_identifiers(a).len(),
        i < version::pre_identifiers(b).len(),
        version::pre_identifiers(a).take(i) == version::pre_identifiers(b).take(i),
        version::pre_identifiers(a)[i] is Num,
        version::pre_identifiers(b)[i] is Str,
    ensures
        version::pre_less(a, b),
        !version::pre_less(b, a),
{
    let x = version::pre_identifiers(a);
    let y = version::pre_identifiers(b);
    order::lemma_lex_at(x, y, i, version::identifier_order());
    order::lemma_lex_at(y, x, i, version::identifier_order());
}

proof fn lemma_segments_concat(a: Seq<Seq<char>>, b: Seq<Seq<char>>)
    ensures
        version::segments_identifiers(a + b) == version::segments_identifiers(a)
            + version::segments_identifiers(b),
    decreases b.len(),
{
    if b.len() == 0 {
        assert(a + b =~= a);
        assert(version::segments_identifiers(a + b) =~= version::segments_identifiers(a)
            + version::segments_identifiers(b));
    } else {
        assert((a + b).drop_last() =~= a + b.drop_last());
        lemma_segments_concat(a, b.drop_last());
        assert(version::segments_identifiers(a + b) =~= version::segments_identifiers(a)
            + version::segments_identifiers(b));
    }
}

/// Shorter prefixes sort before longer ones (`alpha` < `alpha.1`): appending
/// further identifiers to a pre-release makes it newer.
pub proof fn shorter_prefix_is_older(pre: Seq<char>, more: Seq<char>)
    requires
        version::pre_identifiers(more).len() > 0,
    ensures
        version::pre_less(pre, pre + seq!['.'] + more),
        !version::pre_less(pre + seq!['.'] + more, pre),
{
    let x = version::pre_identifiers(pre);
    let y = version::pre_identifiers(pre + seq!['.'] + more);
    text::lemma_pieces_joined(pre, '.', more);
    lemma_segments_concat(text::pieces(pre, '.'), text::pieces(more, '.'));
    assert(y.take(x.len() as int) =~= x);
    order::lemma_lex_prefix(x, y, version::identifier_order());
    version::lemma_identifier_order();
    order::lemma_lex_trichotomy(x, y, version::identifier_order());
}

/// Among pre-releases of one core, the order of versions is
/// that of the pre-releases.
pub proof fn pre_releases_of_one_core(core: Seq<char>, a: Seq<char>, b: Seq<char>)
    requires
        !core.contains('+'),
        !core.contains('-'),
        !a.contains('+'),
        !b.contains('+'),
        a.len() > 0,
        b.len() > 0,
    ensures
        version::at_least(core + seq!['-'] + a, core + seq!['-'] + b) == !version::pre_less(a, b),
{
    lemma_parts(core, a);
    lemma_parts(core, b);
    text::lemma_first_index(a, '+');
    text::lemma_first_index(b, '+');
    assert(text::before(a, '+') =~= a);
    assert(text::before(b, '+') =~= b);
}

/// A number that is left out counts as zero: writing the zero out changes
/// neither whether the version is valid nor its numbers.
pub proof fn missing_number_is_zero(core: Seq<char>)
    requires
        !core.contains('+'),
        !core.contains('-'),
        text::pieces(core, '.').len() < 3,
    ensures
        version::valid_version(core + seq!['.', '0']) == version::valid_version(core),
        version::same_core(core + seq!['.', '0'], core),
{
    let full = core + seq!['.', '0'];
    assert(full =~= core + seq!['.'] + seq!['0']);
    text::lemma_first_index(full, '+');
    text::lemma_first_index(full, '-');
    text::lemma_first_index(core, '+');
    text::lemma_first_index(core, '-');
    assert forall|j: int| 0 <= j < full.len() implies full[j] != '+' && full[j] != '-' by {
        if j < core.len() {
            assert(full[j] == core[j]);
        }
    }
    assert(version::release_text(full) =~= full);
    assert(version::release_text(core) =~= core);
    assert(version::core_text(full) =~= full);
    assert(version::core_text(core) =~= core);
    text::lemma_pieces_joined(core, '.', seq!['0']);
    assert(text::pieces(seq!['0'], '.') =~= seq![seq!['0']]);
}

// ---------------------------------------------------------------------------
// Numbers
// ---------------------------------------------------------------------------
/// The first number that differs decides, by its value, and no pre-release
/// changes that.
pub proof fn greater_number_is_newer(a: Seq<char>, b: Seq<char>)
    ensures
        version::number(a, 0) > version::number(b, 0) ==> version::at_least(a, b)
            && !version::at_least(b, a),
        version::number(a, 0) == version::number(b, 0) && version::number(a, 1) > version::number(
            b,
            1,
        ) ==> version::at_least(a, b) && !version::at_least(b, a),
        version::number(a, 0) == version::number(b, 0) && version::number(a, 1) == version::number(
            b,
            1,
        ) && version::number(a, 2) > version::number(b, 2) ==> version::at_least(a, b)
            && !version::at_least(b, a),
{
}

/// With equal numbers the pre-releases decide: a release is at least anything,
/// and a pre-release is at least those that it does not come before.
pub proof fn equal_numbers_leave_it_to_the_pre_releases(a: Seq<char>, b: Seq<char>)
    requires
        version::number(a, 0) == version::number(b, 0),
        version::number(a, 1) == version::number(b, 1),
        version::number(a, 2) == version::number(b, 2),
    ensures
        version::at_least(a, b) <==> version::pre_text(a).len() == 0 || (version::pre_text(b).len()
            > 0 && !version::pre_less(version::pre_text(a), version::pre_text(b))),
{
}

/// A version is its dotted numbers, then a pre-release after a dash and build
/// metadata after a plus sign.
pub proof fn version_has_three_parts(core: Seq<char>, pre: Seq<char>, build: Seq<char>)
    requires
        !core.contains('+'),
        !core.contains('-'),
        !pre.contains('+'),
    ensures
        version::core_text(core) == core,
        version::pre_text(core) == Seq::<char>::empty(),
        version::release_text(core) == core,
        version::core_text(core + seq!['-'] + pre) == core,
        version::pre_text(core + seq!['-'] + pre) == pre,
        version::release_text(core + seq!['-'] + pre) == core + seq!['-'] + pre,
        version::core_text(core + seq!['+'] + build) == core,
        version::pre_text(core + seq!['+'] + build) == Seq::<char>::empty(),
        version::release_text(core + seq!['+'] + build) == core,
        version::core_text(core + seq!['-'] + pre + seq!['+'] + build) == core,
        version::pre_text(core + seq!['-'] + pre + seq!['+'] + build) == pre,
        version::release_text(core + seq!['-'] + pre + seq!['+'] + build) == core + seq!['-']
            + pre,
{
    let whole = core + seq!['-'] + pre;
    assert(!whole.contains('+')) by {
        if whole.contains('+') {
            let i = choose|i: int| 0 <= i < whole.len() && whole[i] == '+';
            if i < core.len() {
                assert(core[i] == '+');
            } else {
                assert(pre[i - core.len() - 1] == '+');
            }
        }
    }
    text_laws::text_is_cut_at_the_first_separator(core, '+', build);
    text_laws::text_is_cut_at_the_first_separator(whole, '+', build);
    text_laws::text_is_cut_at_the_first_separator(core, '-', pre);
}

/// A version has one, two or three numbers, each of them digits that denote no
/// more than `u64::MAX`.
pub proof fn version_is_up_to_three_numbers(core: Seq<char>, v: Seq<char>)
    requires
        !core.contains('+'),
        version::core_text(v) == core,
    ensures
        version::valid_version(v) <==> text::pieces(core, '.').len() <= 3 && forall|i: int|
            0 <= i < text::pieces(core, '.').len() ==> {
                &&& text::all_digits(#[trigger] text::pieces(core, '.')[i])
                &&& text::digits_value(text::pieces(core, '.')[i]) <= u64::MAX
            },
        version::valid_version(v) ==> forall|k: int|
            0 <= k < 3 ==> #[trigger] version::number(v, k) == (if k < text::pieces(
                core,
                '.',
            ).len() {
                text::digits_value(text::pieces(core, '.')[k])
            } else {
                0
            }),
{
    let list = text::pieces(core, '.');
    lemma_pieces_without(core, '.', '+');
    lemma_zero();
    assert forall|i: int| 0 <= i < list.len() implies (version::valid_component(
        #[trigger] list[i],
    ) <==> text::all_digits(list[i]) && text::digits_value(list[i]) <= u64::MAX) && (
    text::all_digits(list[i]) ==> text::number_value(list[i]) == text::digits_value(list[i])) by {
        lemma_unsigned(list[i]);
    }
    if version::valid_version(v) {
        assert forall|i: int| 0 <= i < list.len() implies text::all_digits(#[trigger] list[i])
            && text::digits_value(list[i]) <= u64::MAX by {
            assert(version::valid_component(version::component(v, i)));
            assert(version::component(v, i) == list[i]);
        }
        assert forall|k: int| 0 <= k < 3 implies #[trigger] version::number(v, k) == (if k
            < list.len() {
            text::digits_value(list[k])
        } else {
            0
        }) by {
            if k < list.len() {
                assert(version::component(v, k) == list[k]);
            }
        }
    }
    if list.len() <= 3 && forall|i: int|
        0 <= i < list.len() ==> text::all_digits(#[trigger] list[i]) && text::digits_value(list[i])
            <= u64::MAX {
        assert forall|k: int| 0 <= k < 3 implies version::valid_component(
            #[trigger] version::component(v, k),
        ) by {
            if k < list.len() {
                assert(text::all_digits(list[k]));
            }
        }
        assert(version::valid_component(version::component(v, 0)));
        assert(version::valid_component(version::component(v, 1)));
        assert(version::valid_component(version::component(v, 2)));
    }
}

proof fn lemma_zero()
    ensures
        version::valid_component(seq!['0']),
        text::number_value(seq!['0']) == 0,
{
    let z = seq!['0'];
    assert(text::is_digit(z[0]));
    assert(text::all_digits(z));
    assert(z.drop_last() =~= Seq::<char>::empty());
    assert(text::digits_value(z.drop_last()) == 0);
}

proof fn lemma_unsigned(s: Seq<char>)
    requires
        !s.contains('+'),
    ensures
        version::valid_component(s) <==> text::all_digits(s) && text::digits_value(s) <= u64::MAX,
        text::number_value(s) == text::digits_value(s),
{
    if s.len() > 0 {
        assert(s.contains(s[0]));
    }
}

proof fn lemma_pieces_without(s: Seq<char>, c: char, other: char)
    requires
        !s.contains(other),
    ensures
        text::pieces(s, c).len() > 0,
        forall|i: int|
            0 <= i < text::pieces(s, c).len() ==> !(#[trigger] text::pieces(s, c)[i]).contains(
                other,
            ),
    decreases s.len(),
{
    if s.contains(c) {
        text::lemma_first_index(s, c);
        let a = text::before(s, c);
        let b = text::after(s, c);
        assert(!a.contains(other)) by {
            if a.contains(other) {
                let i = choose|i: int| 0 <= i < a.len() && a[i] == other;
                assert(s[i] == other);
            }
        }
        assert(!b.contains(other)) by {
            if b.contains(other) {
                let i = choose|i: int| 0 <= i < b.len() && b[i] == other;
                assert(s[i + a.len() + 1] == other);
            }
        }
        lemma_pieces_without(b, c, other);
        let rest = text::pieces(b, c);
        assert forall|i: int| 0 <= i < text::pieces(s, c).len() implies !(#[trigger] text::pieces(
            s,
            c,
        )[i]).contains(other) by {
            if i > 0 {
                assert(text::pieces(s, c)[i] == rest[i - 1]);
            }
        }
    }
}

/// The complaint about a version names its first bad number.
pub proof fn first_bad_number_is_named(core: Seq<char>, v: Seq<char>, k: int)
    requires
        !core.contains('+'),
        version::core_text(v) == core,
        0 <= k < 3,
        k < text::pieces(core, '.').len(),
        forall|i: int|
            0 <= i < k ==> text::all_digits(#[trigger] text::pieces(core, '.')[i])
                && text::digits_value(text::pieces(core, '.')[i]) <= u64::MAX,
        !(text::all_digits(text::pieces(core, '.')[k]) && text::digits_value(
            text::pieces(core, '.')[k],
        ) <= u64::MAX),
    ensures
        !version::valid_version(v),
        version::version_error(v) == "invalid version component '"@ + text::pieces(core, '.')[k]
            + "'"@,
{
    let list = text::pieces(core, '.');
    lemma_pieces_without(core, '.', '+');
    lemma_unsigned(list[k]);
    if k > 0 {
        lemma_unsigned(list[0]);
        assert(text::all_digits(list[0]));
    }
    if k > 1 {
        lemma_unsigned(list[1]);
        assert(text::all_digits(list[1]));
    }
    assert(version::component(v, k) == list[k]);
}

/// The complaint about a version with more than three numbers gives it without
/// its build metadata.
pub proof fn too_many_numbers_are_refused(core: Seq<char>, v: Seq<char>)
    requires
        !core.contains('+'),
        version::core_text(v) == core,
        text::pieces(core, '.').len() > 3,
        forall|i: int|
            0 <= i < 3 ==> text::all_digits(#[trigger] text::pieces(core, '.')[i])
                && text::digits_value(text::pieces(core, '.')[i]) <= u64::MAX,
    ensures
        !version::valid_version(v),
        version::version_error(v) == "invalid version '"@ + text::before(v, '+')
            + "': too many numeric components"@,
{
    let list = text::pieces(core, '.');
    lemma_pieces_without(core, '.', '+');
    lemma_unsigned(list[0]);
    lemma_unsigned(list[1]);
    lemma_unsigned(list[2]);
    assert(text::all_digits(list[0]));
    assert(text::all_digits(list[1]));
    assert(text::all_digits(list[2]));
}

/// One number of a version is digits, with or without a plus sign, that denote
/// no more than `u64::MAX`; the complaint about anything else quotes it.
pub proof fn one_number_is_digits(t: Seq<char>)
    ensures
        version::valid_component(t) <==> (text::all_digits(t) && text::digits_value(t) <= u64::MAX)
            || (t.len() > 0 && t[0] == '+' && text::all_digits(t.drop_first())
            && text::digits_value(t.drop_first()) <= u64::MAX),
        version::component_error(t) == "invalid version component '"@ + t + "'"@,
{
    text_laws::number_is_digits_with_or_without_plus(t);
    if t.len() > 0 && t[0] == '+' {
        text_laws::number_is_digits_with_or_without_plus(t.drop_first());
        assert(seq!['+'] + t.drop_first() =~= t);
        assert(!text::is_digit(t[0]));
    }
}

/// Three numbers written out with dots between them.
pub open spec fn written(major: nat, minor: nat, patch: nat) -> Seq<char> {
    text::decimal(major) + seq!['.'] + text::decimal(minor) + seq!['.'] + text::decimal(patch)
}

proof fn lemma_digits_without(s: Seq<char>, c: char)
    requires
        text::all_digits(s),
        !text::is_digit(c),
    ensures
        !s.contains(c),
{
    if s.contains(c) {
        let i = choose|i: int| 0 <= i < s.len() && s[i] == c;
        assert(text::is_digit(s[i]));
    }
}

proof fn lemma_joined_without(a: Seq<char>, c: char, b: Seq<char>, other: char)
    requires
        !a.contains(other),
        !b.contains(other),
        c != other,
    ensures
        !(a + seq![c] + b).contains(other),
{
    let s = a + seq![c] + b;
    if s.contains(other) {
        let i = choose|i: int| 0 <= i < s.len() && s[i] == other;
        if i < a.len() {
            assert(a[i] == other);
        } else if i > a.len() {
            assert(b[i - a.len() - 1] == other);
        }
    }
}

/// Numbers that are written out are read back.
pub proof fn written_numbers_are_read_back(major: nat, minor: nat, patch: nat)
    requires
        major <= u64::MAX,
        minor <= u64::MAX,
        patch <= u64::MAX,
    ensures
        version::valid_version(written(major, minor, patch)),
        version::number(written(major, minor, patch), 0) == major,
        version::number(written(major, minor, patch), 1) == minor,
        version::number(written(major, minor, patch), 2) == patch,
        version::pre_text(written(major, minor, patch)) == Seq::<char>::empty(),
{
    let a = text::decimal(major);
    let b = text::decimal(minor);
    let c = text::decimal(patch);
    let v = written(major, minor, patch);
    text_laws::written_number_is_read_back(major);
    text_laws::written_number_is_read_back(minor);
    text_laws::written_number_is_read_back(patch);
    lemma_digits_without(a, '.');
    lemma_digits_without(b, '.');
    lemma_digits_without(c, '.');
    lemma_digits_without(a, '+');
    lemma_digits_without(b, '+');
    lemma_digits_without(c, '+');
    lemma_digits_without(a, '-');
    lemma_digits_without(b, '-');
    lemma_digits_without(c, '-');
    lemma_joined_without(a, '.', b, '+');
    lemma_joined_without(a, '.', b, '-');
    lemma_joined_without(a + seq!['.'] + b, '.', c, '+');
    lemma_joined_without(a + seq!['.'] + b, '.', c, '-');
    version_has_three_parts(v, Seq::empty(), Seq::empty());
    text_laws::pieces_lie_between_separators(a, '.', b);
    text_laws::pieces_lie_between_separators(b, '.', c);
    text_laws::pieces_lie_between_separators(c, '.', c);
    text_laws::pieces_lie_between_separators(a + seq!['.'] + b, '.', c);
    assert(text::pieces(v, '.') =~= seq![a, b, c]);
    version_is_up_to_three_numbers(v, v);
}

/// Versions are compared number by number, by value: 0.10.0 is newer than 0.9.0.
pub proof fn written_versions_are_compared_by_value(
    a: (nat, nat, nat),
    b: (nat, nat, nat),
)
    requires
        a.0 <= u64::MAX,
        a.1 <= u64::MAX,
        a.2 <= u64::MAX,
        b.0 <= u64::MAX,
        b.1 <= u64::MAX,
        b.2 <= u64::MAX,
    ensures
        version::at_least(written(a.0, a.1, a.2), written(b.0, b.1, b.2)) <==> a.0 > b.0 || (a.0
            == b.0 && (a.1 > b.1 || (a.1 == b.1 && a.2 >= b.2))),
{
    written_numbers_are_read_back(a.0, a.1, a.2);
    written_numbers_are_read_back(b.0, b.1, b.2);
}

// ---------------------------------------------------------------------------
// Pre-releases
// ---------------------------------------------------------------------------
/// The identifiers of a pre-release are those of its dotted segments, in order.
pub proof fn identifiers_are_those_of_the_segments(a: Seq<char>, b: Seq<char>)
    ensures
        version::pre_identifiers(a + seq!['.'] + b) == version::pre_identifiers(a)
            + version::pre_identifiers(b),
        !a.contains('.') ==> version::pre_identifiers(a) == version::segment_identifiers(a),
{
    text::lemma_pieces_joined(a, '.', b);
    lemma_segments_concat(text::pieces(a, '.'), text::pieces(b, '.'));
    if !a.contains('.') {
        let one = seq![a];
        assert(one.drop_last() =~= Seq::<Seq<char>>::empty());
        assert(one.last() == a);
        assert(version::segments_identifiers(one.drop_last()) =~= Seq::<
            version::Identifier,
        >::empty());
        assert(version::segments_identifiers(one) =~= version::segment_identifiers(a));
    }
}

/// An empty segment has no identifier, and a segment of digits is the number
/// that they denote, or `u64::MAX` if that is less.
pub proof fn digits_are_a_numeric_identifier(s: Seq<char>)
    ensures
        version::segment_identifiers(Seq::empty()) == Seq::<version::Identifier>::empty(),
        text::all_digits(s) ==> version::segment_identifiers(s) == seq![
            version::Identifier::Num(
                if text::digits_value(s) <= u64::MAX {
                    text::digits_value(s) as u64
                } else {
                    u64::MAX
                },
            ),
        ],
{
}

/// A name followed by digits, such as `rc1`, is the name and then the number.
pub proof fn name_and_digits_are_two_identifiers(name: Seq<char>, digits: Seq<char>)
    requires
        name.len() > 0,
        forall|i: int|
            0 <= i < name.len() ==> (version::alphabetic(#[trigger] name[i]) || name[i] == '-')
                && !"0123456789"@.contains(name[i]),
        text::all_digits(digits),
    ensures
        version::segment_identifiers(name + digits) == seq![
            version::Identifier::Str(name),
            version::Identifier::Num(
                if text::digits_value(digits) <= u64::MAX {
                    text::digits_value(digits) as u64
                } else {
                    u64::MAX
                },
            ),
        ],
{
    let s = name + digits;
    assert forall|j: int| 0 <= j < name.len() implies !text::is_digit(#[trigger] s[j])
        && version::is_name_char(s[j]) by {
        assert(s[j] == name[j]);
        text_laws::there_are_ten_digits(s[j], s);
    }
    assert(s[name.len() as int] == digits[0]);
    assert(text::is_digit(digits[0]));
    version::lemma_first_digit(s, name.len() as int);
    assert(s.take(name.len() as int) =~= name);
    assert(s.skip(name.len() as int) =~= digits);
    assert(!text::is_digit(s[0]));
}

/// Any other segment is one identifier, as it stands.
pub proof fn other_segments_are_one_identifier(s: Seq<char>)
    requires
        s.len() > 0,
        !text::all_digits(s),
        forall|i: int|
            0 < i < s.len() ==> !(text::all_digits(#[trigger] s.skip(i)) && forall|j: int|
                0 <= j < i ==> (version::alphabetic(#[trigger] s[j]) || s[j] == '-')
                    && !"0123456789"@.contains(s[j])),
    ensures
        version::segment_identifiers(s) == seq![version::Identifier::Str(s)],
{
    if version::is_name_and_number(s) {
        let i = version::first_digit(s);
        version::lemma_first_digit_is_first(s);
        assert forall|j: int| 0 <= j < i implies (version::alphabetic(#[trigger] s[j]) || s[j]
            == '-') && !"0123456789"@.contains(s[j]) by {
            assert(version::is_name_char(s[j]));
            text_laws::there_are_ten_digits(s[j], s);
        }
        assert(text::all_digits(s.skip(i)));
    }
}

/// The identifiers of a list stand for the numbers and names in it.
pub proof fn identifiers_stand_for_numbers_and_names(list: Seq<version::PrId>, i: int)
    requires
        0 <= i < list.len(),
    ensures
        version::identifiers(list).len() == list.len(),
        list[i] matches version::PrId::Num(n) ==> version::identifiers(list)[i]
            == version::Identifier::Num(n),
        list[i] matches version::PrId::Str(t) ==> version::identifiers(list)[i]
            == version::Identifier::Str(t@),
{
}

/// Where two pre-releases first differ in numbers, the one with the smaller
/// number is older.
pub proof fn numbers_sort_by_value(a: Seq<char>, b: Seq<char>, i: int)
    requires
        0 <= i < version::pre_identifiers(a).len(),
        i < version::pre_identifiers(b).len(),
        version::pre_identifiers(a).take(i) == version::pre_identifiers(b).take(i),
        version::pre_identifiers(a)[i] is Num,
        version::pre_identifiers(b)[i] is Num,
        version::pre_identifiers(a)[i]->Num_0 < version::pre_identifiers(b)[i]->Num_0,
    ensures
        version::pre_less(a, b),
        !version::pre_less(b, a),
{
    let x = version::pre_identifiers(a);
    let y = version::pre_identifiers(b);
    order::lemma_lex_at(x, y, i, version::identifier_order());
    order::lemma_lex_at(y, x, i, version::identifier_order());
}

/// Where two pre-releases first differ in names, the one whose name has the
/// lesser character where the names first differ is older, and so is the one
/// whose name is the beginning of the other.
pub proof fn names_sort_as_in_a_dictionary(a: Seq<char>, b: Seq<char>, i: int, j: int)
    requires
        0 <= i < version::pre_identifiers(a).len(),
        i < version::pre_identifiers(b).len(),
        version::pre_identifiers(a).take(i) == version::pre_identifiers(b).take(i),
        version::pre_identifiers(a)[i] is Str,
        version::pre_identifiers(b)[i] is Str,
        ({
            let x = version::pre_identifiers(a)[i]->Str_0;
            let y = version::pre_identifiers(b)[i]->Str_0;
            &&& 0 <= j <= x.len()
            &&& j < y.len()
            &&& x.take(j) == y.take(j)
            &&& j == x.len() || x[j] < y[j]
        }),
    ensures
        version::pre_less(a, b),
        !version::pre_less(b, a),
{
    let x = version::pre_identifiers(a);
    let y = version::pre_identifiers(b);
    let p = x[i]->Str_0;
    let q = y[i]->Str_0;
    order::lemma_lex_at(p, q, j, version::char_order());
    order::lemma_lex_at(q, p, j, version::char_order());
    if p == q {
        assert(p.len() == q.len());
    }
    order::lemma_lex_at(x, y, i, version::identifier_order());
    order::lemma_lex_at(y, x, i, version::identifier_order());
}

/// Of two pre-releases that agree as far as the shorter goes, the shorter is
/// older, and with the same identifiers neither is.
pub proof fn fewer_identifiers_are_older(a: Seq<char>, b: Seq<char>)
    requires
        version::pre_identifiers(a).len() <= version::pre_identifiers(b).len(),
        version::pre_identifiers(a) == version::pre_identifiers(b).take(
            version::pre_identifiers(a).len() as int,
        ),
    ensures
        version::pre_less(a, b) <==> version::pre_identifiers(a).len() < version::pre_identifiers(
            b,
        ).len(),
        !version::pre_less(b, a),
{
    let x = version::pre_identifiers(a);
    let y = version::pre_identifiers(b);
    assert(x.take(x.len() as int) =~= x);
    order::lemma_lex_at(x, y, x.len() as int, version::identifier_order());
    order::lemma_lex_at(y, x, x.len() as int, version::identifier_order());
}

} // verus!
