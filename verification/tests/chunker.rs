use cognitrade::chunker::{chunk_text, collapse_whitespace_chars};
use cognitrade::text::is_whitespace_char;

#[test]
fn empty_text_returns_empty() {
    assert!(chunk_text("", 100, 10).is_empty());
    assert!(chunk_text("   \n\n  ", 100, 10).is_empty());
}

#[test]
fn short_text_is_one_chunk() {
    let c = chunk_text("Hello world. This is short.", 500, 50);
    assert_eq!(c.len(), 1);
}

#[test]
fn long_text_splits_with_overlap() {
    let para = "Lorem ipsum dolor sit amet. ".repeat(200);
    let c = chunk_text(&para, 500, 50);
    assert!(c.len() >= 2);
    for chunk in &c {
        assert!(chunk.len() <= 500 * 4 + 100, "chunk too big: {}", chunk.len());
    }
}

#[test]
fn prefers_sentence_boundary() {
    let s = "First sentence here. Second one is here. Third lands here.";
    let c = chunk_text(s, 5, 0);
    assert!(c.len() >= 2);
}

#[test]
fn whitespace_matches_std_for_every_char() {
    for u in 0u32..=0x10FFFF {
        if let Some(c) = char::from_u32(u) {
            assert_eq!(is_whitespace_char(c), c.is_whitespace(), "U+{:04X}", u);
        }
    }
}

#[test]
fn collapse_matches_split_whitespace_join() {
    let samples = [
        "",
        "   ",
        "a",
        "  a  b\t\tc \n d  ",
        "x\u{00A0}y\u{3000}z\u{2028}",
        "one.two  three!\r\nfour?",
    ];
    for s in samples {
        let expected: String = s.split_whitespace().collect::<Vec<_>>().join(" ");
        let got: String = collapse_whitespace_chars(s).into_iter().collect();
        assert_eq!(got, expected);
    }
}

#[test]
fn short_text_chunk_is_the_collapsed_text() {
    let c = chunk_text("  Hello   world.\n\nThis  is short.  ", 500, 50);
    assert_eq!(c, vec!["Hello world. This is short.".to_string()]);
}

#[test]
fn chunks_end_at_sentence_ends() {
    let s = "First sentence here. Second one is here. Third lands here.";
    let c = chunk_text(s, 5, 0);
    assert_eq!(
        c,
        vec![
            "First sentence here.".to_string(),
            "Second one is here.".to_string(),
            "Third lands here.".to_string(),
        ]
    );
}

#[test]
fn chunks_overlap_when_no_sentence_end() {
    let s = "abcdefghijklmnopqrstuvwxyz";
    let c = chunk_text(s, 2, 1);
    assert_eq!(
        c,
        vec![
            "abcdefgh".to_string(),
            "efghijkl".to_string(),
            "ijklmnop".to_string(),
            "mnopqrst".to_string(),
            "qrstuvwx".to_string(),
            "uvwxyz".to_string(),
        ]
    );
}

#[test]
fn every_chunk_is_bounded_and_a_part_of_the_text() {
    let text = "Alpha beta. Gamma delta epsilon! Zeta eta theta? Iota kappa lambda mu nu xi. ".repeat(30);
    let collapsed: String = text.split_whitespace().collect::<Vec<_>>().join(" ");
    let c = chunk_text(&text, 20, 5);
    assert!(c.len() > 1);
    for chunk in &c {
        assert!(!chunk.is_empty());
        assert!(chunk.chars().count() <= 80);
        assert_eq!(chunk.trim(), chunk.as_str());
        assert!(collapsed.contains(chunk.as_str()));
    }
}

#[test]
fn huge_target_on_short_text_is_one_chunk() {
    let c = chunk_text("Hello  world. Short.", usize::MAX / 5, 0);
    assert_eq!(c, vec!["Hello world. Short.".to_string()]);
}
