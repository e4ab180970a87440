use sitegen::checksum::Checksum;
use sitegen::checksum::ChecksumError;
use sitegen::checksum::ChecksumStream;
use sitegen::checksum::GlobMatch;
use sitegen::checksum::MatchedFile;
use sitegen::paths::compare_paths;
use sitegen::paths::PathPart;
use sitegen::state::calculate_sha256_hash;
use std::path::Component;
use std::path::Path;
use std::time::Instant;

const PATTERNS: &[&str] = &["src/*", "content/*", "templates/**/*"];

/// The components of a path, as the standard library reads them.
fn parts(path: &str) -> Vec<PathPart> {
    Path::new(path)
        .components()
        .map(|c| match c {
            Component::Prefix(p) => PathPart::Prefix(p.as_os_str().to_string_lossy().into_owned()),
            Component::RootDir => PathPart::Root,
            Component::CurDir => PathPart::Current,
            Component::ParentDir => PathPart::Parent,
            Component::Normal(n) => PathPart::Name(n.to_string_lossy().into_owned()),
        })
        .collect()
}

fn file(path: &str, content: Option<&[u8]>) -> MatchedFile {
    MatchedFile { path: parts(path), content: content.map(|c| c.to_vec()) }
}

fn found(pattern: &str, files: Vec<MatchedFile>) -> GlobMatch {
    GlobMatch { pattern: pattern.to_string(), files }
}

fn matches_of_patterns() -> Vec<GlobMatch> {
    let mut out = Vec::new();
    for pattern in PATTERNS {
        let dir = pattern.split('/').next().unwrap();
        out.push(found(
            pattern,
            vec![
                file(&format!("{dir}/b.txt"), Some(b"second")),
                file(&format!("{dir}/a.txt"), Some(b"first")),
            ],
        ));
    }
    out
}

#[test]
fn bench_from_globs_par() {
    let iterations = 1_000;

    // Warmup
    for _ in 0..10 {
        std::hint::black_box(Checksum::from_globs_par(matches_of_patterns()));
    }

    let start = Instant::now();
    for _ in 0..iterations {
        std::hint::black_box(Checksum::from_globs_par(matches_of_patterns()));
    }
    let elapsed = start.elapsed();
    println!(
        "\nfrom_globs_parallel: {iterations} iterations took {elapsed:?} ({:?}/iter)",
        elapsed / iterations
    );
}

#[test]
fn checksum_of_empty_data_is_known() {
    let c = Checksum::from_data(b"");
    assert_eq!(c.as_str(), "47DEQpj8HBSa+/TImW+5JCeuQeRkm5NMpJWZG3hSuFU=");
}

#[test]
fn checksum_of_abc_is_known() {
    let c = Checksum::from_data(b"abc");
    assert_eq!(c.as_str(), "ungWv48Bz+pBQUDeXa4iI7ADYaOWF3qctBD/YfIAFa0=");
    assert_eq!(c.as_str().len(), 44);
}

#[test]
fn checksum_from_digest_is_base64_of_the_digest() {
    let zeros = [0u8; 32];
    let c = Checksum::from_sha256(&zeros);
    assert_eq!(c.as_str(), "AAAAAAAAAAAAAAAAAAAAAAAAAAAAAAAAAAAAAAAAAAA=");
}

#[test]
fn same_bytes_give_the_same_checksum() {
    let a = Checksum::from_data(b"hello world");
    let b = Checksum::from_data(&b"hello world".to_vec());
    assert_eq!(a, b);
    assert!(a.same_as(&b));
    assert_eq!(a.as_str(), "uU0nuZNNPgilLlLX2n2r+sSE7+N6U4DukIj3rOLvzek=");
}

#[test]
fn one_changed_byte_changes_the_checksum() {
    let a = Checksum::from_data(b"hello world");
    let b = Checksum::from_data(b"hello worle");
    assert_ne!(a, b);
    assert!(!a.same_as(&b));
}

#[test]
fn streamed_content_has_the_checksum_of_the_content() {
    let content = b"hello world";
    let whole = Checksum::from_data(content);
    for cut in 0..=content.len() {
        let mut stream = ChecksumStream::new();
        stream.update(&content[..cut]);
        stream.update(&content[cut..]);
        assert_eq!(stream.finish(), whole);
    }
    let mut stream = ChecksumStream::new();
    for byte in content {
        stream.update(&[*byte]);
    }
    assert_eq!(stream.finish().as_str(), "uU0nuZNNPgilLlLX2n2r+sSE7+N6U4DukIj3rOLvzek=");
    assert_eq!(
        ChecksumStream::new().finish().as_str(),
        "47DEQpj8HBSa+/TImW+5JCeuQeRkm5NMpJWZG3hSuFU="
    );
}

#[test]
fn checksums_can_be_hashed() {
    let mut seen = std::collections::HashSet::new();
    assert!(seen.insert(Checksum::from_data(b"abc")));
    assert!(!seen.insert(Checksum::from_data(b"abc")));
    assert!(seen.insert(Checksum::from_data(b"abd")));
    assert_eq!(seen.len(), 2);
}

#[test]
fn checksum_text_of_a_page_source() {
    assert_eq!(calculate_sha256_hash("héllo").len(), 44);
    assert_eq!(calculate_sha256_hash("abc"), "ungWv48Bz+pBQUDeXa4iI7ADYaOWF3qctBD/YfIAFa0=");
    assert_eq!(calculate_sha256_hash(""), "47DEQpj8HBSa+/TImW+5JCeuQeRkm5NMpJWZG3hSuFU=");
}

#[test]
fn encoded_checksum_round_trips() {
    let c = Checksum::from_data(b"abc");
    let back = Checksum::from_encoded(c.as_str()).unwrap();
    assert_eq!(back, c);
    assert_eq!(back.as_str(), c.as_str());
    assert_eq!(back.clone(), c);
}

#[test]
fn encoded_checksum_of_wrong_length_is_rejected() {
    assert_eq!(
        Checksum::from_encoded("too short").unwrap_err(),
        ChecksumError::InvalidLength { found: 9 }
    );
    assert_eq!(
        Checksum::from_encoded("").unwrap_err(),
        ChecksumError::InvalidLength { found: 0 }
    );
    let long = "A".repeat(45);
    assert_eq!(
        Checksum::from_encoded(&long).unwrap_err(),
        ChecksumError::InvalidLength { found: 45 }
    );
    assert!(Checksum::from_encoded(&"A".repeat(44)).is_ok());
}

#[test]
fn encoded_checksum_length_is_counted_in_bytes() {
    // 22 characters of two bytes each
    let text = "é".repeat(22);
    assert!(Checksum::from_encoded(&text).is_ok());
    let text = "é".repeat(44);
    assert_eq!(
        Checksum::from_encoded(&text).unwrap_err(),
        ChecksumError::InvalidLength { found: 88 }
    );
}

#[test]
fn globs_checksum_of_the_patterns_is_known() {
    let c = Checksum::from_globs_par(matches_of_patterns());
    assert_eq!(c.as_str(), "89SEYzqjwmuWLCP97uiupO+30ww2nBQ6OiX06lJddNM=");
}

#[test]
fn globs_checksum_is_known() {
    let c = Checksum::from_globs_par(vec![
        found("a/*", vec![file("a/1", Some(b"one")), file("a/2", Some(b"two"))]),
        found("b/*", vec![file("b/1", Some(b"three"))]),
    ]);
    assert_eq!(c.as_str(), "25tGxRGX/I3g0WacNzSgkaBxIc3DnKb/OW7Srvx1+Vg=");
}

#[test]
fn globs_checksum_ignores_the_order_of_patterns_and_paths() {
    let expected = "25tGxRGX/I3g0WacNzSgkaBxIc3DnKb/OW7Srvx1+Vg=";
    let patterns_reversed = Checksum::from_globs_par(vec![
        found("b/*", vec![file("b/1", Some(b"three"))]),
        found("a/*", vec![file("a/1", Some(b"one")), file("a/2", Some(b"two"))]),
    ]);
    assert_eq!(patterns_reversed.as_str(), expected);
    let paths_reversed = Checksum::from_globs_par(vec![
        found("a/*", vec![file("a/2", Some(b"two")), file("a/1", Some(b"one"))]),
        found("b/*", vec![file("b/1", Some(b"three"))]),
    ]);
    assert_eq!(paths_reversed.as_str(), expected);
}

#[test]
fn pattern_listed_twice_adds_its_files_twice() {
    let twice = Checksum::from_globs_par(vec![
        found("a/*", vec![file("a/2", Some(b"y")), file("a/1", Some(b"x"))]),
        found("a/*", vec![file("a/1", Some(b"x")), file("a/2", Some(b"y"))]),
    ]);
    // x, y, x, y: the files of the pattern, and the same again
    assert_eq!(twice.as_str(), "e3NcgESj7fnQAdmB6U3XB5n1Cq04wrWcMCCXqVxwt5U=");
    let once = Checksum::from_globs_par(vec![found(
        "a/*",
        vec![file("a/1", Some(b"x")), file("a/2", Some(b"y"))],
    )]);
    assert_eq!(once.as_str(), "8VDoUIu7yL5SMqmZo693sD9EMPhue1lZNHZxClrLAVY=");
}

#[test]
fn file_matched_by_two_patterns_is_folded_twice() {
    let c = Checksum::from_globs_par(vec![
        found("t/*", vec![file("t/1", Some(b"x"))]),
        found("s/*", vec![file("t/1", Some(b"x")), file("s/1", Some(b"y"))]),
    ]);
    // s/* adds y then x, t/* adds x
    let d = Checksum::from_globs_par(vec![
        found("s/*", vec![file("s/1", Some(b"y")), file("t/1", Some(b"x"))]),
        found("t/*", vec![file("t/1", Some(b"x"))]),
    ]);
    assert_eq!(c, d);
}

#[test]
fn paths_are_ordered_by_their_components() {
    // as text `t/b.txt` comes before `t/b/x`; by components `b` comes
    // before `b.txt`
    let c = Checksum::from_globs_par(vec![found(
        "t/**/*",
        vec![file("t/b.txt", Some(b"y")), file("t/b/x", Some(b"x"))],
    )]);
    assert_eq!(c.as_str(), "8VDoUIu7yL5SMqmZo693sD9EMPhue1lZNHZxClrLAVY=");
}

#[test]
fn path_order_is_that_of_the_standard_library() {
    let paths = [
        "t/b/x", "t/b.txt", "t/b", "t", "t/a-b", "t/a/b", "/t", "./t", "../t", "t/é", "a//b",
        "a/./b", "a/b/", "",
    ];
    for a in paths {
        for b in paths {
            let (same, before) = compare_paths(&parts(a), &parts(b));
            assert_eq!(same, Path::new(a) == Path::new(b), "{a} == {b}");
            assert_eq!(before, Path::new(a) <= Path::new(b), "{a} <= {b}");
        }
    }
}

#[test]
fn globs_checksum_skips_unreadable_files() {
    let with_unreadable = Checksum::from_globs_par(vec![
        found("a/*", vec![file("a/1", Some(b"one")), file("a/2", None)]),
        found("b/*", vec![file("b/1", Some(b"three"))]),
    ]);
    assert_eq!(with_unreadable.as_str(), "1skoqtC/tGTieTA723ZizEWWT3Zjjpq5tSNv69TzcIw=");
}

#[test]
fn globs_checksum_of_no_match_is_the_checksum_of_nothing() {
    let c = Checksum::from_globs_par(Vec::new());
    assert_eq!(c.as_str(), "47DEQpj8HBSa+/TImW+5JCeuQeRkm5NMpJWZG3hSuFU=");
    let c = Checksum::from_globs_par(vec![found("a/*", Vec::new())]);
    assert_eq!(c.as_str(), "47DEQpj8HBSa+/TImW+5JCeuQeRkm5NMpJWZG3hSuFU=");
}

#[test]
fn globs_checksum_depends_on_content() {
    let a = Checksum::from_globs_par(vec![found("a/*", vec![file("a/1", Some(b"one"))])]);
    let b = Checksum::from_globs_par(vec![found("a/*", vec![file("a/1", Some(b"two"))])]);
    assert_ne!(a, b);
}
