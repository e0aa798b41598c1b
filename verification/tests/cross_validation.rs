use sentrux_core::cross_validation::{
    compression_ratio, compute, encode_edges, fnv1a_hash, CompressionRatio, ImportEdge,
};

fn edge(from: &str, to: &str) -> ImportEdge {
    ImportEdge {
        from_file: from.into(),
        to_file: to.into(),
    }
}

/// The ratio as a number, and how closely it aligns with a quality signal.
struct Estimate {
    compression_ratio: f64,
    agreement: f64,
    confidence: f64,
}

fn estimate(edges: &[ImportEdge], quality_signal: f64) -> Option<Estimate> {
    let ratio = compute(edges)?;
    let compression_ratio = ratio.compressed as f64 / ratio.original as f64;
    let expected = quality_signal.clamp(0.0, 1.0);
    let agreement = if expected.is_nan() {
        0.0
    } else {
        (1.0 - (compression_ratio - expected).abs()).clamp(0.0, 1.0)
    };
    Some(Estimate {
        compression_ratio,
        agreement,
        confidence: agreement,
    })
}

/// Deterministic pseudo-random printable-ASCII string for incompressible edges.
fn random_name(seed: u64) -> String {
    fn next(x: &mut u64) -> u64 {
        *x = x.wrapping_add(0x9e3779b97f4a7c15);
        let mut z = *x;
        z = (z ^ (z >> 30)).wrapping_mul(0xbf58476d1ce4e5b9);
        z = (z ^ (z >> 27)).wrapping_mul(0x94d049bb133111eb);
        z ^ (z >> 31)
    }

    let mut x = seed;
    let bytes: Vec<u8> = (0..8)
        .flat_map(|_| {
            let v = next(&mut x);
            v.to_le_bytes().map(|b| b % 95 + 32)
        })
        .collect();
    String::from_utf8(bytes).unwrap()
}

fn unique_edges(count: usize) -> Vec<ImportEdge> {
    (0..count)
        .map(|i| {
            let base = i as u64 * 2;
            edge(&random_name(base), &random_name(base + 1))
        })
        .collect()
}

#[test]
fn empty_edges_returns_none() {
    assert!(estimate(&[], 0.5).is_none());
    assert!(compute(&[]).is_none());
}

#[test]
fn compressible_redundant_graph_agrees_with_low_quality() {
    // 100 identical edges are highly compressible => low ratio => low quality agreement.
    let edges: Vec<_> = (0..100).map(|_| edge("src/a.rs", "src/b.rs")).collect();
    let cv = estimate(&edges, 0.05).unwrap();
    assert!(
        cv.compression_ratio < 0.5,
        "repeated edges should compress well"
    );
    assert!(
        cv.agreement > 0.5,
        "low quality should agree with low ratio"
    );
    assert!(cv.confidence > 0.0);
}

#[test]
fn incompressible_unique_graph_agrees_with_high_quality() {
    // 100 unique pseudo-random edges are less compressible than a redundant graph
    // and should agree with a high quality signal.
    let unique = unique_edges(100);
    let redundant: Vec<_> = (0..100).map(|_| edge("src/a.rs", "src/b.rs")).collect();
    let cv_unique = estimate(&unique, 0.95).unwrap();
    let cv_redundant = estimate(&redundant, 0.5).unwrap();
    assert!(
        cv_unique.compression_ratio > cv_redundant.compression_ratio,
        "unique graph should be less compressible than redundant graph"
    );
    assert!(
        cv_unique.agreement > 0.5,
        "high quality should agree with high ratio"
    );
}

#[test]
fn high_quality_with_compressible_graph_produces_low_agreement() {
    // A high quality signal paired with a highly redundant graph is a mismatch.
    let edges: Vec<_> = (0..100).map(|_| edge("src/a.rs", "src/b.rs")).collect();
    let cv = estimate(&edges, 0.95).unwrap();
    assert!(cv.agreement < 0.5, "mismatch should produce low agreement");
}

#[test]
fn unique_graph_has_higher_ratio_than_redundant_graph() {
    let redundant: Vec<_> = (0..100).map(|_| edge("src/a.rs", "src/b.rs")).collect();
    let unique = unique_edges(100);
    let cv_redundant = estimate(&redundant, 0.5).unwrap();
    let cv_unique = estimate(&unique, 0.5).unwrap();
    assert!(
        cv_unique.compression_ratio > cv_redundant.compression_ratio,
        "unique graph should be less compressible than redundant graph"
    );
}

#[test]
fn clamps_quality_signal_and_ratio() {
    // A single edge is too small to compress; ratio clamps to 1.
    let edges = vec![edge("a.rs", "b.rs")];
    let cv = estimate(&edges, -0.5).unwrap();
    assert!(cv.compression_ratio >= 0.0 && cv.compression_ratio <= 1.0);
    assert!(cv.agreement >= 0.0 && cv.agreement <= 1.0);
    assert!(cv.confidence >= 0.0 && cv.confidence <= 1.0);
}

#[test]
fn missing_quality_signal_agrees_with_nothing() {
    let cv = estimate(&[edge("a.rs", "b.rs")], f64::NAN).unwrap();
    assert_eq!(cv.compression_ratio, 1.0);
    assert_eq!(cv.agreement, 0.0);
    assert_eq!(cv.confidence, 0.0);
}

#[test]
fn single_edge_counts_as_incompressible() {
    assert_eq!(
        compute(&[edge("a.rs", "b.rs")]),
        Some(CompressionRatio {
            compressed: 16,
            original: 16
        })
    );
}

#[test]
fn hash_has_the_published_values() {
    assert_eq!(fnv1a_hash(""), 0xcbf29ce484222325);
    assert_eq!(fnv1a_hash("a"), 0xaf63dc4c8601ec8c);
    assert_eq!(fnv1a_hash("b"), 0xaf63df4c8601f1a5);
    assert_eq!(fnv1a_hash("foobar"), 0x85944171f73967e8);
}

#[test]
fn edges_are_written_as_sorted_identifiers() {
    let a = 0xaf63dc4c8601ec8cu64;
    let b = 0xaf63df4c8601f1a5u64;
    let mut expected: Vec<u8> = Vec::new();
    for id in [a, a, a, b, b, a] {
        expected.extend_from_slice(&id.to_le_bytes());
    }
    let edges = [edge("b", "a"), edge("a", "b"), edge("a", "a")];
    assert_eq!(encode_edges(&edges), expected);
}

#[test]
fn order_of_edges_does_not_matter() {
    let mut edges = unique_edges(20);
    edges.push(edge("x", "y"));
    let bytes = encode_edges(&edges);
    let ratio = compute(&edges);
    edges.reverse();
    assert_eq!(encode_edges(&edges), bytes);
    assert_eq!(compute(&edges), ratio);
}

#[test]
fn edges_without_a_name_do_not_matter() {
    assert!(compute(&[edge("", "b"), edge("a", ""), edge("", "")]).is_none());
    assert_eq!(
        encode_edges(&[edge("", "b"), edge("a", "b"), edge("a", "")]),
        encode_edges(&[edge("a", "b")])
    );
}

#[test]
fn edge_list_takes_sixteen_bytes_an_edge() {
    assert_eq!(encode_edges(&unique_edges(7)).len(), 112);
    let ratio = compute(&unique_edges(7)).unwrap();
    assert_eq!(ratio.original, 112);
}

#[test]
fn ratio_is_capped_at_one() {
    let exact = compression_ratio(3, 12);
    assert_eq!((exact.compressed, exact.original), (3, 12));
    let capped = compression_ratio(20, 16);
    assert_eq!((capped.compressed, capped.original), (16, 16));
}

#[test]
fn identical_edges_are_really_compressed() {
    let edges: Vec<_> = (0..100).map(|_| edge("src/a.rs", "src/b.rs")).collect();
    let ratio = compute(&edges).unwrap();
    assert_eq!(ratio.original, 1600);
    assert!(ratio.compressed > 0 && ratio.compressed < 100);
}
