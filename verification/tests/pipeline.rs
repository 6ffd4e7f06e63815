use dvorak_words::loader::parse_words;
use dvorak_words::mapping::qd_map;
use dvorak_words::matcher::{find_matches, run, MatchPair};
use dvorak_words::transform::{is_eligible, transform, TransformError};
use dvorak_words::word_index::WordIndex;

fn toks(words: &[&str]) -> Vec<Vec<u8>> {
    words.iter().map(|w| w.as_bytes().to_vec()).collect()
}

fn lines(ms: &[MatchPair]) -> Vec<(String, String)> {
    ms.iter()
        .map(|m| {
            (
                String::from_utf8(m.original.clone()).unwrap(),
                String::from_utf8(m.converted.clone()).unwrap(),
            )
        })
        .collect()
}

const EXCLUDED: &[u8] = b"eEqQwWzZ";

fn is_ascii_letter(b: u8) -> bool {
    (b'a'..=b'z').contains(&b) || (b'A'..=b'Z').contains(&b)
}

#[test]
fn mapping_covers_every_nonexcluded_letter() {
    for b in 0u8..=255 {
        let image = qd_map(b);
        if is_ascii_letter(b) && !EXCLUDED.contains(&b) {
            assert_ne!(image, 0, "letter {} has no image", b as char);
        } else {
            assert_eq!(image, 0, "byte {} should have no image", b);
        }
    }
}

#[test]
fn mapping_is_injective_on_its_domain() {
    let mut seen: Vec<(u8, u8)> = Vec::new();
    for b in 0u8..=255 {
        let image = qd_map(b);
        if image != 0 {
            for (prev, prev_image) in &seen {
                assert!(
                    *prev_image != image,
                    "{} and {} share image {}",
                    *prev as char,
                    b as char,
                    image as char
                );
            }
            seen.push((b, image));
        }
    }
    assert_eq!(seen.len(), 44);
}

#[test]
fn mapping_preserves_case() {
    for b in b'a'..=b'z' {
        let lower = qd_map(b);
        let upper = qd_map(b.to_ascii_uppercase());
        if lower != 0 {
            assert_eq!(upper, lower.to_ascii_uppercase());
            assert!(lower.is_ascii_lowercase());
            assert!(upper.is_ascii_uppercase());
        } else {
            assert_eq!(upper, 0);
        }
    }
}

#[test]
fn excluded_token_is_skipped_not_mapped() {
    for word in ["we", "quiz", "zap", "Echo", "Wag", "max1e"] {
        let w = word.as_bytes().to_vec();
        assert!(!is_eligible(&w), "{} should be ineligible", word);
        // The driver produces no output for it, even against a list that
        // holds its would-be image.
        let list = toks(&[word]);
        let index = WordIndex::from_tokens(&list);
        let ms = find_matches(&list, &index).unwrap();
        assert!(ms.is_empty());
    }
}

#[test]
fn transform_preserves_length() {
    for word in ["a", "cab", "antidisambiguation", "XYLOPHONIST"] {
        let w = word.as_bytes().to_vec();
        if let Ok(t) = transform(&w) {
            assert_eq!(t.len(), w.len());
        }
    }
    assert_eq!(transform(&Vec::new()).unwrap(), Vec::<u8>::new());
}

#[test]
fn transform_exact_image() {
    let w = b"cab".to_vec();
    assert_eq!(transform(&w).unwrap(), b"jax".to_vec());
    let w = b"CAB".to_vec();
    assert_eq!(transform(&w).unwrap(), b"JAX".to_vec());
}

#[test]
fn transform_reports_first_gap() {
    // Eligible (no excluded byte) but the hyphen has no table entry.
    let w = b"a-b".to_vec();
    assert!(is_eligible(&w));
    assert_eq!(transform(&w), Err(TransformError::MappingGap(b'-')));
    // The first uncovered byte is the one reported.
    let w = b"c3-p0".to_vec();
    assert_eq!(transform(&w), Err(TransformError::MappingGap(b'3')));
}

#[test]
fn case_consistency_match_present() {
    let list = toks(&["cab", "jax"]);
    let index = WordIndex::from_tokens(&list);
    let ms = find_matches(&list, &index).unwrap();
    assert_eq!(
        lines(&ms),
        vec![("cab".to_string(), "jax".to_string())],
        "cab maps to jax and jax is a word of the list"
    );
}

#[test]
fn case_consistency_no_match_when_absent() {
    let list = toks(&["cab", "dab"]);
    let index = WordIndex::from_tokens(&list);
    let ms = find_matches(&list, &index).unwrap();
    assert!(ms.is_empty(), "jax is absent, so no line for cab");
}

#[test]
fn index_holds_every_token() {
    let list = toks(&["cab", "jax", "dab"]);
    let index = WordIndex::from_tokens(&list);
    for word in ["cab", "jax", "dab"] {
        assert!(index.contains(&word.as_bytes().to_vec()));
    }
    assert!(!index.contains(&b"pay".to_vec()));
}

#[test]
fn indexing_twice_is_idempotent() {
    let mut once = WordIndex::new();
    once.insert(b"jax".to_vec());
    let mut twice = WordIndex::new();
    twice.insert(b"jax".to_vec());
    twice.insert(b"jax".to_vec());
    let list = toks(&["cab"]);
    let ms_once = find_matches(&list, &once).unwrap();
    let ms_twice = find_matches(&list, &twice).unwrap();
    assert_eq!(lines(&ms_once), lines(&ms_twice));
    assert_eq!(
        lines(&ms_twice),
        vec![("cab".to_string(), "jax".to_string())],
        "one line, not two"
    );
}

#[test]
fn end_to_end_scenario() {
    let contents = b"cab\njax\nrat\nkit\n";
    let ms = run(contents).unwrap();
    assert_eq!(lines(&ms), vec![("cab".to_string(), "jax".to_string())]);
}

#[test]
fn run_reports_gap_of_first_eligible_uncovered_token() {
    match run(b"we\na-b\ncab\n") {
        Err(e) => assert_eq!(e, TransformError::MappingGap(b'-')),
        Ok(_) => panic!("an eligible token with an uncovered byte must fail"),
    }
}

#[test]
fn run_on_empty_input() {
    assert!(run(b"").unwrap().is_empty());
}
