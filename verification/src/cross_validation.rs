//! Cross-validation of the quality signal via compression ratio.
//!
//! The dependency edges are written as a list of bytes, and the list is
//! compressed. High compressibility means redundant structure, low
//! compressibility means unique structure: a second opinion on the quality
//! signal, independent of how that was computed.

use vstd::prelude::*;

use flate2::write::DeflateEncoder;
use flate2::Compression;
use std::io::Write;

verus! {

// ---------------------------------------------------------------------------
// Node identifiers
// ---------------------------------------------------------------------------
/// Where a 64-bit FNV-1a hash starts.
pub const FNV_OFFSET: u64 = 0xcbf29ce484222325;

/// What a 64-bit FNV-1a hash multiplies by.
pub const FNV_PRIME: u64 = 0x00000100000001b3;

/// The 64-bit FNV-1a hash of `bytes`.
pub open spec fn fnv1a(bytes: Seq<u8>) -> u64
    decreases bytes.len(),
{
    if bytes.len() == 0 {
        FNV_OFFSET
    } else {
        let mixed: u64 = fnv1a(bytes.drop_last()) ^ (bytes.last() as u64);
        ((mixed * FNV_PRIME) % 0x1_0000_0000_0000_0000) as u64
    }
}

/// The identifier of the file called `name`: the hash of its UTF-8 bytes.
pub open spec fn node_id(name: Seq<char>) -> u64 {
    fnv1a(vstd::utf8::encode_utf8(name))
}

/// Deterministic 64-bit FNV-1a hash used to assign label-independent node IDs.
pub fn fnv1a_hash(s: &str) -> (h: u64)
    ensures
        h == node_id(s@),
{
    let bytes = s.as_bytes();
    let mut h: u64 = FNV_OFFSET;
    let mut i: usize = 0;
    while i < bytes.len()
        invariant
            i <= bytes@.len(),
            h == fnv1a(bytes@.take(i as int)),
        decreases bytes@.len() - i,
    {
        assert(bytes@.take(i + 1).drop_last() =~= bytes@.take(i as int));
        h = h ^ (bytes[i] as u64);
        h = h.wrapping_mul(FNV_PRIME);
        i = i + 1;
    }
    assert(bytes@.take(bytes@.len() as int) =~= bytes@);
    h
}

// ---------------------------------------------------------------------------
// The edge list
// ---------------------------------------------------------------------------
/// One file importing another.
#[derive(Debug)]
pub struct ImportEdge {
    pub from_file: String,
    pub to_file: String,
}

impl View for ImportEdge {
    type V = (Seq<char>, Seq<char>);

    open spec fn view(&self) -> (Seq<char>, Seq<char>) {
        (self.from_file@, self.to_file@)
    }
}

/// The names of the files that each edge joins.
pub open spec fn edge_names(edges: Seq<ImportEdge>) -> Seq<(Seq<char>, Seq<char>)> {
    edges.map_values(|e: ImportEdge| e@)
}

/// Both files of the edge are named.
pub open spec fn is_named(edge: (Seq<char>, Seq<char>)) -> bool {
    edge.0.len() > 0 && edge.1.len() > 0
}

/// Some edge names both its files.
pub open spec fn has_named_edge(edges: Seq<(Seq<char>, Seq<char>)>) -> bool {
    exists|i: int| 0 <= i < edges.len() && is_named(#[trigger] edges[i])
}

/// The identifiers of the two files of each edge that names both, in order.
pub open spec fn id_pairs(edges: Seq<(Seq<char>, Seq<char>)>) -> Seq<(u64, u64)>
    decreases edges.len(),
{
    if edges.len() == 0 {
        seq![]
    } else if is_named(edges.last()) {
        id_pairs(edges.drop_last()).push((node_id(edges.last().0), node_id(edges.last().1)))
    } else {
        id_pairs(edges.drop_last())
    }
}

/// Pairs are ordered by their first number, then by their second.
pub open spec fn pair_order() -> spec_fn((u64, u64), (u64, u64)) -> bool {
    |a: (u64, u64), b: (u64, u64)| a.0 < b.0 || (a.0 == b.0 && a.1 <= b.1)
}

/// The identifier pairs in ascending order.
pub open spec fn sorted_pairs(edges: Seq<(Seq<char>, Seq<char>)>) -> Seq<(u64, u64)> {
    id_pairs(edges).sort_by(pair_order())
}

/// The `n` low bytes of `x`, the lowest first.
pub open spec fn le_bytes(x: nat, n: nat) -> Seq<u8>
    decreases n,
{
    if n == 0 {
        seq![]
    } else {
        seq![(x % 256) as u8] + le_bytes(x / 256, (n - 1) as nat)
    }
}

/// Each pair as two numbers of eight bytes, one pair after the other.
pub open spec fn pair_bytes(pairs: Seq<(u64, u64)>) -> Seq<u8>
    decreases pairs.len(),
{
    if pairs.len() == 0 {
        seq![]
    } else {
        pair_bytes(pairs.drop_last()) + le_bytes(pairs.last().0 as nat, 8) + le_bytes(
            pairs.last().1 as nat,
            8,
        )
    }
}

/// The edge list as bytes: the identifier pairs of the named edges, sorted.
pub open spec fn edge_bytes(edges: Seq<(Seq<char>, Seq<char>)>) -> Seq<u8> {
    pair_bytes(sorted_pairs(edges))
}

proof fn lemma_pair_order()
    ensures
        vstd::relations::total_ordering(pair_order()),
{
}

proof fn lemma_le_bytes_len(x: nat, n: nat)
    ensures
        le_bytes(x, n).len() == n,
    decreases n,
{
    if n > 0 {
        lemma_le_bytes_len(x / 256, (n - 1) as nat);
    }
}

/// Every pair takes sixteen bytes.
pub proof fn lemma_pair_bytes_len(pairs: Seq<(u64, u64)>)
    ensures
        pair_bytes(pairs).len() == 16 * pairs.len(),
    decreases pairs.len(),
{
    if pairs.len() > 0 {
        lemma_pair_bytes_len(pairs.drop_last());
        lemma_le_bytes_len(pairs.last().0 as nat, 8);
        lemma_le_bytes_len(pairs.last().1 as nat, 8);
    }
}

/// `slice::sort_unstable` puts the items in ascending order and neither adds
/// nor drops any. Tuples of integers are ordered by their first member, then
/// by their second.
#[verifier::external_body]
fn sort_pairs(pairs: &mut Vec<(u64, u64)>)
    ensures
        vstd::relations::sorted_by(final(pairs)@, pair_order()),
        final(pairs)@.to_multiset() == old(pairs)@.to_multiset(),
{
    pairs.sort_unstable();
}

/// The identifier pairs of the edges that name both files.
fn collect_pairs(edges: &[ImportEdge]) -> (pairs: Vec<(u64, u64)>)
    ensures
        pairs@ == id_pairs(edge_names(edges@)),
{
    let ghost names = edge_names(edges@);
    let mut pairs: Vec<(u64, u64)> = Vec::new();
    let mut i: usize = 0;
    while i < edges.len()
        invariant
            i <= edges@.len(),
            names == edge_names(edges@),
            pairs@ == id_pairs(names.take(i as int)),
        decreases edges@.len() - i,
    {
        let e = &edges[i];
        assert(names.take(i + 1).drop_last() =~= names.take(i as int));
        if !e.from_file.as_str().is_empty() && !e.to_file.as_str().is_empty() {
            let from_id = fnv1a_hash(e.from_file.as_str());
            let to_id = fnv1a_hash(e.to_file.as_str());
            pairs.push((from_id, to_id));
        }
        i = i + 1;
    }
    assert(names.take(names.len() as int) =~= names);
    pairs
}

/// Appends the eight bytes of `x`, the lowest first.
fn push_le_bytes(out: &mut Vec<u8>, x: u64)
    ensures
        final(out)@ == old(out)@ + le_bytes(x as nat, 8),
{
    let ghost start = out@;
    let ghost whole = le_bytes(x as nat, 8);
    let mut rest: u64 = x;
    let mut left: u8 = 8;
    while left > 0
        invariant
            left <= 8,
            start + whole == out@ + le_bytes(rest as nat, left as nat),
        decreases left,
    {
        let ghost tail = le_bytes(rest as nat / 256, (left - 1) as nat);
        let b: u8 = (rest % 256) as u8;
        let ghost was = out@;
        out.push(b);
        assert(was + (seq![b] + tail) =~= out@ + tail);
        rest = rest / 256;
        left = left - 1;
    }
    assert(out@ =~= start + whole);
}

/// Writes the edge list as bytes. Edges are encoded as pairs of deterministic
/// 64-bit node IDs derived from file paths, so what is compressed is the
/// structure of the edges rather than the raw path strings.
pub fn encode_edges(edges: &[ImportEdge]) -> (bytes: Vec<u8>)
    ensures
        bytes@ == edge_bytes(edge_names(edges@)),
{
    let ghost names = edge_names(edges@);
    let mut pairs = collect_pairs(edges);
    sort_pairs(&mut pairs);
    proof {
        lemma_pair_order();
        id_pairs(names).lemma_sort_by_ensures(pair_order());
        vstd::seq_lib::lemma_sorted_unique(pairs@, sorted_pairs(names), pair_order());
    }
    let mut bytes: Vec<u8> = Vec::new();
    let mut i: usize = 0;
    while i < pairs.len()
        invariant
            i <= pairs@.len(),
            bytes@ == pair_bytes(pairs@.take(i as int)),
        decreases pairs@.len() - i,
    {
        assert(pairs@.take(i + 1).drop_last() =~= pairs@.take(i as int));
        push_le_bytes(&mut bytes, pairs[i].0);
        push_le_bytes(&mut bytes, pairs[i].1);
        i = i + 1;
    }
    assert(pairs@.take(pairs@.len() as int) =~= pairs@);
    bytes
}

// ---------------------------------------------------------------------------
// The compression ratio
// ---------------------------------------------------------------------------
/// The compressed size as a share of the original size. It is at most one:
/// data that did not compress counts as fully incompressible.
#[derive(Debug, Clone, Copy, PartialEq, Eq)]
pub struct CompressionRatio {
    pub compressed: usize,
    pub original: usize,
}

impl CompressionRatio {
    /// The ratio is defined and lies between zero and one.
    pub open spec fn well_formed(self) -> bool {
        self.compressed <= self.original && self.original > 0
    }
}

/// The ratio of `compressed_len` to `original_len`, capped at one.
pub fn compression_ratio(compressed_len: usize, original_len: usize) -> (r: CompressionRatio)
    requires
        original_len > 0,
    ensures
        r.well_formed(),
        r.original == original_len,
        r.compressed == (if compressed_len <= original_len {
            compressed_len
        } else {
            original_len
        }),
{
    let compressed: usize = if compressed_len <= original_len {
        compressed_len
    } else {
        original_len
    };
    CompressionRatio { compressed, original: original_len }
}

/// What compressing `bytes` with DEFLATE at the default level gives; `None` if
/// the encoder reports an error.
pub uninterp spec fn deflated(bytes: Seq<u8>) -> Option<Seq<u8>>;

/// Writing bytes through a `flate2::write::DeflateEncoder` into a vector, at
/// the default level, and finishing the stream gives a result that depends on
/// the bytes alone.
#[verifier::external_body]
fn deflate(bytes: &[u8]) -> (r: Option<Vec<u8>>)
    ensures
        r is Some <==> deflated(bytes@) is Some,
        r matches Some(v) ==> deflated(bytes@) == Some(v@),
{
    let mut encoder = DeflateEncoder::new(Vec::new(), Compression::default());
    encoder.write_all(bytes).ok()?;
    encoder.finish().ok()
}

/// How well the dependency edges compress.
///
/// Returns `None` when there is no structural dependency data, because a
/// compression estimate needs edges to be meaningful, and when the encoder
/// fails.
pub fn compute(edges: &[ImportEdge]) -> (r: Option<CompressionRatio>)
    ensures
        r is Some <==> {
            &&& has_named_edge(edge_names(edges@))
            &&& deflated(edge_bytes(edge_names(edges@))) is Some
        },
        r matches Some(ratio) ==> {
            let original = edge_bytes(edge_names(edges@)).len();
            let compressed = deflated(edge_bytes(edge_names(edges@)))->0.len();
            &&& ratio.well_formed()
            &&& ratio.original == original
            &&& ratio.compressed == (if compressed <= original {
                compressed
            } else {
                original
            })
        },
{
    let ghost names = edge_names(edges@);
    let original = encode_edges(edges);
    proof {
        edge_bytes_length(names);
        pairs_exist_iff_some_edge_is_named(names);
    }
    if original.len() == 0 {
        return None;
    }
    let compressed = deflate(original.as_slice())?;
    Some(compression_ratio(compressed.len(), original.len()))
}

// ---------------------------------------------------------------------------
// Laws
// ---------------------------------------------------------------------------
/// There is something to compress exactly when some edge names both its files.
pub proof fn pairs_exist_iff_some_edge_is_named(edges: Seq<(Seq<char>, Seq<char>)>)
    ensures
        id_pairs(edges).len() > 0 <==> has_named_edge(edges),
    decreases edges.len(),
{
    if edges.len() > 0 {
        let init = edges.drop_last();
        pairs_exist_iff_some_edge_is_named(init);
        if is_named(edges.last()) {
            assert(is_named(edges[edges.len() - 1]));
        } else {
            if has_named_edge(edges) {
                let i = choose|i: int| 0 <= i < edges.len() && is_named(#[trigger] edges[i]);
                assert(is_named(init[i]));
            }
            if has_named_edge(init) {
                let i = choose|i: int| 0 <= i < init.len() && is_named(#[trigger] init[i]);
                assert(is_named(edges[i]));
            }
        }
    }
}

proof fn lemma_id_pairs_concat(a: Seq<(Seq<char>, Seq<char>)>, b: Seq<(Seq<char>, Seq<char>)>)
    ensures
        id_pairs(a + b) == id_pairs(a) + id_pairs(b),
    decreases b.len(),
{
    if b.len() == 0 {
        assert(a + b =~= a);
    } else {
        assert((a + b).drop_last() =~= a + b.drop_last());
        lemma_id_pairs_concat(a, b.drop_last());
    }
    assert(id_pairs(a + b) =~= id_pairs(a) + id_pairs(b));
}

proof fn lemma_id_pairs_multiset(a: Seq<(Seq<char>, Seq<char>)>, b: Seq<(Seq<char>, Seq<char>)>)
    requires
        a.to_multiset() == b.to_multiset(),
    ensures
        id_pairs(a).to_multiset() == id_pairs(b).to_multiset(),
    decreases a.len(),
{
    broadcast use vstd::seq_lib::group_to_multiset_ensures;
    broadcast use vstd::multiset::group_multiset_axioms;

    vstd::seq_lib::to_multiset_len(a);
    vstd::seq_lib::to_multiset_len(b);
    if a.len() == 0 {
        assert(a =~= b);
    } else {
        let x = a.last();
        assert(a.to_multiset().contains(x)) by {
            assert(a.contains(x));
        }
        assert(b.contains(x));
        let k = choose|k: int| 0 <= k < b.len() && b[k] == x;
        let b1 = b.take(k);
        let b2 = b.skip(k + 1);
        assert(b =~= b1 + (seq![x] + b2));
        assert(b.remove(k) =~= b1 + b2);
        assert(a.remove(a.len() - 1) =~= a.drop_last());
        assert(a =~= a.drop_last() + seq![x]);
        lemma_id_pairs_multiset(a.drop_last(), b1 + b2);
        lemma_id_pairs_concat(a.drop_last(), seq![x]);
        lemma_id_pairs_concat(b1, seq![x] + b2);
        lemma_id_pairs_concat(seq![x], b2);
        lemma_id_pairs_concat(b1, b2);
        let p = id_pairs(seq![x]);
        vstd::seq_lib::lemma_multiset_commutative(id_pairs(a.drop_last()), p);
        vstd::seq_lib::lemma_multiset_commutative(id_pairs(b1), p + id_pairs(b2));
        vstd::seq_lib::lemma_multiset_commutative(p, id_pairs(b2));
        vstd::seq_lib::lemma_multiset_commutative(id_pairs(b1), id_pairs(b2));
        assert(id_pairs(a).to_multiset() =~= id_pairs(b).to_multiset());
    }
}

/// The order in which the edges are listed does not matter: two lists of the
/// same edges are written as the same bytes, and so compress alike.
pub proof fn edge_order_does_not_matter(
    a: Seq<(Seq<char>, Seq<char>)>,
    b: Seq<(Seq<char>, Seq<char>)>,
)
    requires
        a.to_multiset() == b.to_multiset(),
    ensures
        has_named_edge(a) == has_named_edge(b),
        edge_bytes(a) == edge_bytes(b),
        deflated(edge_bytes(a)) == deflated(edge_bytes(b)),
{
    lemma_id_pairs_multiset(a, b);
    vstd::seq_lib::to_multiset_len(id_pairs(a));
    vstd::seq_lib::to_multiset_len(id_pairs(b));
    pairs_exist_iff_some_edge_is_named(a);
    pairs_exist_iff_some_edge_is_named(b);
    lemma_pair_order();
    id_pairs(a).lemma_sort_by_ensures(pair_order());
    id_pairs(b).lemma_sort_by_ensures(pair_order());
    vstd::seq_lib::lemma_sorted_unique(sorted_pairs(a), sorted_pairs(b), pair_order());
}

/// An edge that leaves a file unnamed does not matter, wherever it stands.
pub proof fn unnamed_edge_does_not_matter(edges: Seq<(Seq<char>, Seq<char>)>, i: int)
    requires
        0 <= i < edges.len(),
        !is_named(edges[i]),
    ensures
        has_named_edge(edges.remove(i)) == has_named_edge(edges),
        edge_bytes(edges.remove(i)) == edge_bytes(edges),
{
    let a = edges.take(i);
    let b = edges.skip(i + 1);
    assert(edges =~= a + (seq![edges[i]] + b));
    assert(edges.remove(i) =~= a + b);
    lemma_id_pairs_concat(a, seq![edges[i]] + b);
    lemma_id_pairs_concat(seq![edges[i]], b);
    lemma_id_pairs_concat(a, b);
    let one = seq![edges[i]];
    assert(one.last() == edges[i]);
    assert(one.drop_last().len() == 0);
    assert(id_pairs(one.drop_last()).len() == 0);
    assert(id_pairs(edges.remove(i)) =~= id_pairs(edges));
    pairs_exist_iff_some_edge_is_named(edges);
    pairs_exist_iff_some_edge_is_named(edges.remove(i));
}

/// The edge list takes sixteen bytes for every edge that names both files.
pub proof fn edge_bytes_length(edges: Seq<(Seq<char>, Seq<char>)>)
    ensures
        edge_bytes(edges).len() == 16 * id_pairs(edges).len(),
{
    lemma_pair_order();
    id_pairs(edges).lemma_sort_by_ensures(pair_order());
    vstd::seq_lib::to_multiset_len(id_pairs(edges));
    vstd::seq_lib::to_multiset_len(sorted_pairs(edges));
    lemma_pair_bytes_len(sorted_pairs(edges));
}

/// The whole name of a file is hashed, byte by byte.
pub proof fn whole_name_is_hashed(name: Seq<char>)
    ensures
        node_id(name) == vstd::utf8::encode_utf8(name).fold_left(
            0xcbf29ce484222325u64,
            |h: u64, b: u8|
                (((h ^ (b as u64)) * 0x100000001b3) % 0x1_0000_0000_0000_0000) as u64,
        ),
{
    lemma_fold(vstd::utf8::encode_utf8(name));
}

proof fn lemma_fold(bytes: Seq<u8>)
    ensures
        fnv1a(bytes) == bytes.fold_left(
            0xcbf29ce484222325u64,
            |h: u64, b: u8|
                (((h ^ (b as u64)) * 0x100000001b3) % 0x1_0000_0000_0000_0000) as u64,
        ),
    decreases bytes.len(),
{
    if bytes.len() > 0 {
        lemma_fold(bytes.drop_last());
    }
}

proof fn lemma_encode_push(name: Seq<char>, c: char)
    ensures
        vstd::utf8::encode_utf8(name.push(c)) == vstd::utf8::encode_utf8(name)
            + vstd::utf8::encode_utf8(seq![c]),
    decreases name.len(),
{
    let longer = name.push(c);
    if name.len() == 0 {
        assert(longer =~= seq![c]);
        assert(vstd::utf8::encode_utf8(name) =~= Seq::<u8>::empty());
        assert(Seq::<u8>::empty() + vstd::utf8::encode_utf8(seq![c])
            =~= vstd::utf8::encode_utf8(seq![c]));
    } else {
        assert(longer.drop_first() =~= name.drop_first().push(c));
        lemma_encode_push(name.drop_first(), c);
        assert(vstd::utf8::encode_utf8(longer) =~= vstd::utf8::encode_utf8(name)
            + vstd::utf8::encode_utf8(seq![c]));
    }
}

/// Every further character of a name is mixed into the hash, which starts from
/// the offset.
pub proof fn further_character_is_mixed_in(name: Seq<char>, c: char)
    requires
        c <= '\x7f',
    ensures
        node_id(Seq::empty()) == 0xcbf29ce484222325,
        node_id(name.push(c)) == ((node_id(name) ^ (c as u64)) * 0x100000001b3)
            % 0x1_0000_0000_0000_0000,
{
    assert(vstd::utf8::encode_utf8(Seq::empty()) =~= Seq::<u8>::empty());
    let one = seq![c];
    lemma_encode_push(name, c);
    vstd::utf8::is_ascii_chars_encode_utf8(one);
    let bytes = vstd::utf8::encode_utf8(name.push(c));
    assert(one[0] as u8 == vstd::utf8::encode_utf8(one)[0]);
    assert(bytes.drop_last() =~= vstd::utf8::encode_utf8(name));
    assert(bytes.last() == c as u8);
}

/// An edge joins the file that imports and the file that is imported.
pub proof fn edges_join_the_files_that_they_name(edges: Seq<ImportEdge>, i: int)
    requires
        0 <= i < edges.len(),
    ensures
        edge_names(edges).len() == edges.len(),
        edge_names(edges)[i].0 == edges[i].from_file@,
        edge_names(edges)[i].1 == edges[i].to_file@,
{
}

/// `at` are the places of the edges that name both their files, in order, and
/// `pairs` are the hashes of those names.
pub open spec fn are_the_named(
    at: Seq<int>,
    edges: Seq<(Seq<char>, Seq<char>)>,
    pairs: Seq<(u64, u64)>,
) -> bool {
    &&& at.len() == pairs.len()
    &&& forall|k: int|
        0 <= k < at.len() ==> 0 <= #[trigger] at[k] < edges.len() && edges[at[k]].0.len() > 0
            && edges[at[k]].1.len() > 0 && pairs[k].0 == node_id(edges[at[k]].0) && pairs[k].1
            == node_id(edges[at[k]].1)
    &&& forall|j: int, k: int| 0 <= j < k < at.len() ==> at[j] < at[k]
    &&& forall|i: int|
        0 <= i < edges.len() && (#[trigger] edges[i]).0.len() > 0 && edges[i].1.len() > 0
            ==> at.contains(i)
}

/// Every edge that names both its files gives one pair of hashes, that of the
/// importing file first, and nothing else does.
pub proof fn every_named_edge_gives_a_pair(edges: Seq<(Seq<char>, Seq<char>)>)
    ensures
        exists|at: Seq<int>| are_the_named(at, edges, id_pairs(edges)),
        has_named_edge(edges) <==> exists|i: int|
            0 <= i < edges.len() && (#[trigger] edges[i]).0.len() > 0 && edges[i].1.len() > 0,
    decreases edges.len(),
{
    let pairs = id_pairs(edges);
    if has_named_edge(edges) {
        let i = choose|i: int| 0 <= i < edges.len() && is_named(#[trigger] edges[i]);
        assert(edges[i].0.len() > 0);
    }
    if exists|i: int|
        0 <= i < edges.len() && (#[trigger] edges[i]).0.len() > 0 && edges[i].1.len() > 0 {
        let i = choose|i: int|
            0 <= i < edges.len() && (#[trigger] edges[i]).0.len() > 0 && edges[i].1.len() > 0;
        assert(is_named(edges[i]));
    }
    if edges.len() == 0 {
        assert(are_the_named(Seq::<int>::empty(), edges, pairs));
    } else {
        let init = edges.drop_last();
        let last = edges.len() - 1;
        every_named_edge_gives_a_pair(init);
        let part = id_pairs(init);
        let before = choose|at: Seq<int>| are_the_named(at, init, part);
        let at = if is_named(edges[last]) {
            before.push(last)
        } else {
            before
        };
        assert forall|k: int| 0 <= k < at.len() implies 0 <= #[trigger] at[k] < edges.len()
            && edges[at[k]].0.len() > 0 && edges[at[k]].1.len() > 0 && pairs[k].0 == node_id(
            edges[at[k]].0,
        ) && pairs[k].1 == node_id(edges[at[k]].1) by {
            if k < before.len() {
                assert(at[k] == before[k]);
                assert(init[before[k]] == edges[at[k]]);
            }
        }
        assert forall|i: int|
            0 <= i < edges.len() && (#[trigger] edges[i]).0.len() > 0 && edges[i].1.len()
                > 0 implies at.contains(i) by {
            if i < last {
                assert(init[i] == edges[i]);
                let k = choose|k: int| 0 <= k < before.len() && before[k] == i;
                assert(at[k] == i);
            } else {
                assert(at[before.len() as int] == i);
            }
        }
        assert(are_the_named(at, edges, pairs));
    }
}

proof fn lemma_le_byte(x: nat, n: nat, j: nat)
    requires
        j < n,
    ensures
        le_bytes(x, n).len() == n,
        le_bytes(x, n)[j as int] as int == (x as int / vstd::arithmetic::power::pow(256, j)) % 256,
    decreases n,
{
    lemma_le_bytes_len(x, n);
    vstd::arithmetic::power::lemma_pow0(256);
    if j > 0 {
        let k = (j - 1) as nat;
        lemma_le_byte(x / 256, (n - 1) as nat, k);
        vstd::arithmetic::power::lemma_pow_positive(256, k);
        reveal(vstd::arithmetic::power::pow);
        assert(vstd::arithmetic::power::pow(256, j) == 256 * vstd::arithmetic::power::pow(256, k));
        vstd::arithmetic::div_mod::lemma_div_denominator(
            x as int,
            256,
            vstd::arithmetic::power::pow(256, k),
        );
        lemma_le_bytes_len(x / 256, (n - 1) as nat);
        assert(le_bytes(x, n)[j as int] == le_bytes(x / 256, (n - 1) as nat)[k as int]);
    }
}

proof fn lemma_pair_byte(pairs: Seq<(u64, u64)>, i: int, j: nat)
    requires
        0 <= i < pairs.len(),
        j < 8,
    ensures
        pair_bytes(pairs).len() == 16 * pairs.len(),
        pair_bytes(pairs)[16 * i + j] as int == (pairs[i].0 as int / vstd::arithmetic::power::pow(
            256,
            j,
        )) % 256,
        pair_bytes(pairs)[16 * i + 8 + j] as int == (pairs[i].1 as int
            / vstd::arithmetic::power::pow(256, j)) % 256,
    decreases pairs.len(),
{
    let init = pairs.drop_last();
    let last = pairs.last();
    lemma_pair_bytes_len(pairs);
    lemma_pair_bytes_len(init);
    lemma_le_byte(last.0 as nat, 8, j);
    lemma_le_byte(last.1 as nat, 8, j);
    if i < pairs.len() - 1 {
        lemma_pair_byte(init, i, j);
        assert(init[i] == pairs[i]);
        assert(pair_bytes(pairs)[16 * i + j] == pair_bytes(init)[16 * i + j]);
        assert(pair_bytes(pairs)[16 * i + 8 + j] == pair_bytes(init)[16 * i + 8 + j]);
    } else {
        assert(pair_bytes(pairs)[16 * i + j] == le_bytes(last.0 as nat, 8)[j as int]);
        assert(pair_bytes(pairs)[16 * i + 8 + j] == le_bytes(last.1 as nat, 8)[j as int]);
    }
}

/// `pairs` are in ascending order, by their first number and then by their
/// second.
pub open spec fn ascending(pairs: Seq<(u64, u64)>) -> bool {
    forall|i: int, j: int|
        0 <= i < j < pairs.len() ==> (#[trigger] pairs[i]).0 < (#[trigger] pairs[j]).0 || (
        pairs[i].0 == pairs[j].0 && pairs[i].1 <= pairs[j].1)
}

/// The edge list holds the pairs of hashes and no others, in ascending order,
/// each number in eight bytes from the lowest to the highest.
pub proof fn edge_list_holds_the_pairs_in_order(edges: Seq<(Seq<char>, Seq<char>)>)
    ensures
        exists|pairs: Seq<(u64, u64)>|
            #![trigger ascending(pairs)]
            {
                &&& ascending(pairs)
                &&& pairs.to_multiset() == id_pairs(edges).to_multiset()
                &&& edge_bytes(edges).len() == 16 * pairs.len()
                &&& forall|i: int, j: nat|
                    #![trigger pairs[i], vstd::arithmetic::power::pow(256, j)]
                    0 <= i < pairs.len() && j < 8 ==> {
                        &&& edge_bytes(edges)[16 * i + j] as int == (pairs[i].0 as int
                            / vstd::arithmetic::power::pow(256, j)) % 256
                        &&& edge_bytes(edges)[16 * i + 8 + j] as int == (pairs[i].1 as int
                            / vstd::arithmetic::power::pow(256, j)) % 256
                    }
            },
{
    let pairs = sorted_pairs(edges);
    lemma_pair_order();
    id_pairs(edges).lemma_sort_by_ensures(pair_order());
    lemma_pair_bytes_len(pairs);
    assert(ascending(pairs)) by {
        assert forall|i: int, j: int| 0 <= i < j < pairs.len() implies (#[trigger] pairs[i]).0 < (
        #[trigger] pairs[j]).0 || (pairs[i].0 == pairs[j].0 && pairs[i].1 <= pairs[j].1) by {
            assert(pair_order()(pairs[i], pairs[j]));
        }
    }
    assert forall|i: int, j: nat|
        #![trigger pairs[i], vstd::arithmetic::power::pow(256, j)]
        0 <= i < pairs.len() && j < 8 implies {
        &&& edge_bytes(edges)[16 * i + j] as int == (pairs[i].0 as int
            / vstd::arithmetic::power::pow(256, j)) % 256
        &&& edge_bytes(edges)[16 * i + 8 + j] as int == (pairs[i].1 as int
            / vstd::arithmetic::power::pow(256, j)) % 256
    } by {
        lemma_pair_byte(pairs, i, j);
    }
}

} // verus!
