//! Verification of grammar binaries against the checksums in the manifest.

use vstd::prelude::*;

use crate::manifest::PluginManifest;
use crate::paths;
use crate::paths::display_path;
use crate::text;
use crate::text::{characters, eq_ignoring_case, hex_text};
use crate::text_laws;
use sha2::{Digest, Sha256};
use std::path::PathBuf;

verus! {

/// Position of the last `c` in `s`, or -1 if there is none.
pub open spec fn last_index(s: Seq<char>, c: char) -> int
    decreases s.len(),
{
    if s.len() == 0 || s.last() == c {
        s.len() - 1
    } else {
        last_index(s.drop_last(), c)
    }
}

/// The platform that a grammar file is for: its name without the extension
/// (e.g. `darwin-arm64` for `darwin-arm64.dylib`).
pub open spec fn platform_of(file: Seq<char>) -> Seq<char> {
    if last_index(file, '.') >= 0 {
        file.take(last_index(file, '.'))
    } else {
        file
    }
}

proof fn lemma_last_index(s: Seq<char>, c: char, i: int)
    requires
        -1 <= i < s.len(),
        i >= 0 ==> s[i] == c,
        forall|j: int| i < j < s.len() ==> s[j] != c,
    ensures
        last_index(s, c) == i,
    decreases s.len(),
{
    if s.len() > 0 && i < s.len() - 1 {
        assert(s.last() == s[s.len() - 1]);
        lemma_last_index(s.drop_last(), c, i);
    }
}

/// Strips the extension to get the platform key.
pub fn platform_key(file: &str) -> (key: &str)
    ensures
        key@ == platform_of(file@),
{
    let chars = characters(file);
    let mut i: usize = chars.len();
    while i > 0
        invariant
            chars@ == file@,
            i <= chars@.len(),
            forall|j: int| i <= j < chars@.len() ==> chars@[j] != '.',
        decreases i,
    {
        if chars[i - 1] == '.' {
            proof {
                lemma_last_index(file@, '.', i - 1);
            }
            return file.substring_char(0, i - 1);
        }
        i = i - 1;
    }
    proof {
        lemma_last_index(file@, '.', -1);
    }
    file
}

/// The SHA-256 digest of `bytes`.
pub uninterp spec fn sha256_digest(bytes: Seq<u8>) -> Seq<u8>;

/// `sha2::Sha256::digest` gives the 32 bytes of the SHA-256 digest of the data,
/// which depends on the data alone.
#[verifier::external_body]
fn sha256(bytes: &[u8]) -> (digest: Vec<u8>)
    ensures
        digest@ == sha256_digest(bytes@),
        digest@.len() == 32,
{
    Sha256::digest(bytes).to_vec()
}

/// The checksum that the manifest has for the grammar file, if any.
pub open spec fn expected_for<S, T>(manifest: PluginManifest<S, T>, file: Seq<char>) -> Option<
    Seq<char>,
> {
    let sums = manifest.checksums@;
    if sums.contains_key(platform_of(file)) {
        Some(sums[platform_of(file)])
    } else {
        None
    }
}

/// A digest written in hexadecimal is the expected one, in whichever case.
pub open spec fn digest_matches(digest: Seq<u8>, expected: Seq<char>) -> bool {
    text::same_ignoring_case(text::hex(digest), expected)
}

/// The bytes are those that the manifest expects of the grammar file; any are
/// if it has no checksum for it.
pub open spec fn checksum_holds<S, T>(
    manifest: PluginManifest<S, T>,
    file: Seq<char>,
    bytes: Seq<u8>,
) -> bool {
    expected_for(manifest, file) matches Some(e) ==> digest_matches(sha256_digest(bytes), e)
}

/// The complaint about a grammar binary whose digest is not the expected one.
pub open spec fn mismatch_error(
    path: PathBuf,
    expected: Seq<char>,
    digest: Seq<u8>,
) -> Seq<char> {
    "Checksum mismatch for "@ + paths::path_text(path) + ": expected "@ + expected + ", got "@
        + text::hex(digest)
}

/// The checksum that the manifest has for the grammar file, if any.
pub fn expected_checksum<'a, S, T>(manifest: &'a PluginManifest<S, T>, file: &str) -> (r: Option<
    &'a String,
>)
    ensures
        r is Some <==> expected_for(*manifest, file@) is Some,
        r matches Some(e) ==> expected_for(*manifest, file@) == Some(e@),
{
    manifest.checksums.get(platform_key(file))
}

/// Compares the digest of the grammar binary at `grammar_path` with the
/// expected checksum, ignoring case.
pub fn check_digest(grammar_path: &PathBuf, expected: &str, digest: &[u8]) -> (r: Result<
    (),
    String,
>)
    ensures
        r is Ok <==> digest_matches(digest@, expected@),
        r matches Err(e) ==> e@ == mismatch_error(*grammar_path, expected@, digest@),
{
    let actual = hex_text(digest);
    if eq_ignoring_case(actual.as_str(), expected) {
        Ok(())
    } else {
        let mut e: String = String::new();
        e.append("Checksum mismatch for ");
        e.append(display_path(grammar_path).as_str());
        e.append(": expected ");
        e.append(expected);
        e.append(", got ");
        e.append(actual.as_str());
        assert(e@ =~= mismatch_error(*grammar_path, expected@, digest@));
        Err(e)
    }
}

/// Verifies the SHA256 checksum of a grammar binary against the manifest.
/// `bytes` is what the file at `grammar_path` holds, and `grammar_file` its
/// name. Without a checksum in the manifest there is nothing to verify.
pub fn verify_checksum<S, T>(
    manifest: &PluginManifest<S, T>,
    grammar_path: &PathBuf,
    grammar_file: &str,
    bytes: &[u8],
) -> (r: Result<(), String>)
    ensures
        r is Ok <==> checksum_holds(*manifest, grammar_file@, bytes@),
        r matches Err(e) ==> e@ == mismatch_error(
            *grammar_path,
            expected_for(*manifest, grammar_file@)->0,
            sha256_digest(bytes@),
        ),
        expected_for(*manifest, grammar_file@) is Some ==> sha256_digest(bytes@).len() == 32,
        expected_for(*manifest, grammar_file@) matches Some(e) && e.len() != 64 ==> r is Err,
{
    match expected_checksum(manifest, grammar_file) {
        Some(expected) => {
            let digest = sha256(bytes);
            check_digest(grammar_path, expected.as_str(), digest.as_slice())
        },
        None => Ok(()),
    }
}

// ---------------------------------------------------------------------------
// Laws
// ---------------------------------------------------------------------------
/// The case in which a checksum is written does not matter.
pub proof fn checksum_case_does_not_matter(digest: Seq<u8>, a: Seq<char>, b: Seq<char>)
    requires
        text::same_ignoring_case(a, b),
    ensures
        digest_matches(digest, a) == digest_matches(digest, b),
{
    let h = text::hex(digest);
    if digest_matches(digest, a) {
        assert forall|i: int| 0 <= i < h.len() implies text::ascii_lower(#[trigger] h[i])
            == text::ascii_lower(b[i]) by {
            assert(text::ascii_lower(a[i]) == text::ascii_lower(b[i]));
        }
    }
    if digest_matches(digest, b) {
        assert forall|i: int| 0 <= i < h.len() implies text::ascii_lower(#[trigger] h[i])
            == text::ascii_lower(a[i]) by {
            assert(text::ascii_lower(a[i]) == text::ascii_lower(b[i]));
        }
    }
}

/// A checksum is that of one digest only.
pub proof fn checksum_names_one_digest(a: Seq<u8>, b: Seq<u8>, checksum: Seq<char>)
    requires
        digest_matches(a, checksum),
        digest_matches(b, checksum),
    ensures
        a == b,
{
    let x = text::hex(a);
    let y = text::hex(b);
    assert(a.len() == b.len());
    assert forall|i: int| 0 <= i < a.len() implies a[i] == b[i] by {
        assert(text::ascii_lower(x[2 * i]) == text::ascii_lower(y[2 * i]));
        assert(text::ascii_lower(x[2 * i + 1]) == text::ascii_lower(y[2 * i + 1]));
        assert(x[2 * i] == text::hex_digit(a[i] as int / 16));
        assert(y[2 * i] == text::hex_digit(b[i] as int / 16));
        assert(x[2 * i + 1] == text::hex_digit(a[i] as int % 16));
        assert(y[2 * i + 1] == text::hex_digit(b[i] as int % 16));
    }
    assert(a =~= b);
}

/// A checksum of the wrong length, such as an empty one, matches no digest.
pub proof fn checksum_has_two_digits_a_byte(digest: Seq<u8>, checksum: Seq<char>)
    requires
        digest_matches(digest, checksum),
    ensures
        checksum.len() == 2 * digest.len(),
{
}

/// The digest in hexadecimal is itself a checksum that the bytes have.
pub proof fn own_digest_matches(digest: Seq<u8>)
    ensures
        digest_matches(digest, text::hex(digest)),
{
}

/// The platform is the name of the file without its extension, which is what
/// follows the last dot: a file with no extension is named after its platform.
pub proof fn platform_is_the_name_without_extension(key: Seq<char>, extension: Seq<char>)
    requires
        !extension.contains('.'),
    ensures
        platform_of(key + seq!['.'] + extension) == key,
        !key.contains('.') ==> platform_of(key) == key,
{
    let file = key + seq!['.'] + extension;
    assert forall|j: int| key.len() < j < file.len() implies file[j] != '.' by {
        assert(file[j] == extension[j - key.len() - 1]);
    }
    lemma_last_index(file, '.', key.len() as int);
    assert(file.take(key.len() as int) =~= key);
    if !key.contains('.') {
        lemma_last_index(key, '.', -1);
    }
}

/// The checksum that is expected of a grammar file is the one that the manifest
/// has for its platform, and none is if it has none.
pub proof fn checksum_is_that_of_the_platform<S, T>(
    manifest: PluginManifest<S, T>,
    key: Seq<char>,
    extension: Seq<char>,
)
    requires
        !extension.contains('.'),
    ensures
        expected_for(manifest, key + seq!['.'] + extension) == (if manifest.checksums@.contains_key(
            key,
        ) {
            Some(manifest.checksums@[key])
        } else {
            None
        }),
        !key.contains('.') ==> expected_for(manifest, key) == (if manifest.checksums@.contains_key(
            key,
        ) {
            Some(manifest.checksums@[key])
        } else {
            None
        }),
{
    platform_is_the_name_without_extension(key, extension);
}

/// A digest matches exactly its own digits, each in either case, two to a byte.
pub proof fn digest_matches_its_digits(digest: Seq<u8>, digits: Seq<char>)
    ensures
        digest_matches(digest, digits) <==> digits.len() == 2 * digest.len() && forall|i: int|
            0 <= i < digest.len() ==> {
                let high = (#[trigger] digest[i]) as int / 16;
                let low = digest[i] as int % 16;
                &&& digits[2 * i] == "0123456789abcdef"@[high] || digits[2 * i]
                    == "0123456789ABCDEF"@[high]
                &&& digits[2 * i + 1] == "0123456789abcdef"@[low] || digits[2 * i + 1]
                    == "0123456789ABCDEF"@[low]
            },
{
    text_laws::digits_are_compared_in_either_case(digest, digits);
}

/// A grammar binary passes exactly if the manifest has no checksum for its
/// platform, or has the digits of its SHA-256 digest, each in either case, two
/// to a byte.
pub proof fn binary_passes_iff_its_digest_is_expected<S, T>(
    manifest: PluginManifest<S, T>,
    key: Seq<char>,
    extension: Seq<char>,
    bytes: Seq<u8>,
)
    requires
        !extension.contains('.'),
    ensures
        checksum_holds(manifest, key + seq!['.'] + extension, bytes) <==> (
        manifest.checksums@.contains_key(key) ==> {
            let digest = sha256_digest(bytes);
            let digits = manifest.checksums@[key];
            &&& digits.len() == 2 * digest.len()
            &&& forall|i: int|
                0 <= i < digest.len() ==> {
                    let high = (#[trigger] digest[i]) as int / 16;
                    let low = digest[i] as int % 16;
                    &&& digits[2 * i] == "0123456789abcdef"@[high] || digits[2 * i]
                        == "0123456789ABCDEF"@[high]
                    &&& digits[2 * i + 1] == "0123456789abcdef"@[low] || digits[2 * i + 1]
                        == "0123456789ABCDEF"@[low]
                }
        }),
{
    checksum_is_that_of_the_platform(manifest, key, extension);
    if manifest.checksums@.contains_key(key) {
        text_laws::digits_are_compared_in_either_case(
            sha256_digest(bytes),
            manifest.checksums@[key],
        );
    }
}

/// The complaint names the binary, the checksum that was expected and the
/// digits of the digest that it has, in small letters.
pub proof fn complaint_names_both_checksums(
    path: PathBuf,
    expected: Seq<char>,
    digest: Seq<u8>,
    actual: Seq<char>,
)
    requires
        actual.len() == 2 * digest.len(),
        forall|i: int|
            0 <= i < digest.len() ==> {
                &&& actual[2 * i] == "0123456789abcdef"@[(#[trigger] digest[i]) as int / 16]
                &&& actual[2 * i + 1] == "0123456789abcdef"@[digest[i] as int % 16]
            },
    ensures
        mismatch_error(path, expected, digest) == "Checksum mismatch for "@ + paths::path_text(path)
            + ": expected "@ + expected + ", got "@ + actual,
{
    let h = text::hex(digest);
    assert forall|j: int| 0 <= j < h.len() implies h[j] == actual[j] by {
        let i = j / 2;
        text_laws::byte_is_written_with_two_digits(digest, i);
        assert(digest[i] as int / 16 >= 0);
        assert(j == 2 * i || j == 2 * i + 1);
    }
    assert(h =~= actual);
}

} // verus!
