use lmmp::comments::CommentMap;
use lmmp::text::parse_u32;
use lmmp::vorbfile::{comment_field_of, comments_to_map, error_description};

#[test]
fn parse_u32_accepts_decimal() {
    assert_eq!(parse_u32("0"), Some(0));
    assert_eq!(parse_u32("42"), Some(42));
    assert_eq!(parse_u32("+42"), Some(42));
    assert_eq!(parse_u32("007"), Some(7));
    assert_eq!(parse_u32("4294967295"), Some(u32::MAX));
}

#[test]
fn parse_u32_refuses_the_rest() {
    assert_eq!(parse_u32(""), None);
    assert_eq!(parse_u32("+"), None);
    assert_eq!(parse_u32("-1"), None);
    assert_eq!(parse_u32("4294967296"), None);
    assert_eq!(parse_u32("99999999999999999999"), None);
    assert_eq!(parse_u32(" 1"), None);
    assert_eq!(parse_u32("1a"), None);
    assert_eq!(parse_u32("++1"), None);
}

#[test]
fn parse_u32_agrees_with_std() {
    for x in ["1", "12", "+3", "-0", "", "x", "4294967295", "4294967296", "٣"] {
        assert_eq!(parse_u32(x), x.parse::<u32>().ok(), "{}", x);
    }
}

#[test]
fn comment_fields() {
    assert_eq!(comment_field_of("A=b"), Some(("A".to_string(), "b".to_string())));
    assert_eq!(comment_field_of("A=b=c"), Some(("A".to_string(), "b".to_string())));
    assert_eq!(comment_field_of("A="), Some(("A".to_string(), "".to_string())));
    assert_eq!(comment_field_of("=b"), Some(("".to_string(), "b".to_string())));
    assert_eq!(comment_field_of("Ab"), None);
}

#[test]
fn comments_map_last_wins() {
    let m = comments_to_map(&vec!["K=1".to_string(), "no".to_string(), "K=2".to_string(), "J=3".to_string()]);
    assert_eq!(m.get("K").map(|s| s.as_str()), Some("2"));
    assert_eq!(m.get("J").map(|s| s.as_str()), Some("3"));
    assert_eq!(m.get("no"), None);
}

#[test]
fn comment_map_insert_get_remove() {
    let mut m = CommentMap::new();
    assert_eq!(m.get("a"), None);
    m.insert("a".to_string(), "1".to_string());
    m.insert("b".to_string(), "2".to_string());
    m.insert("a".to_string(), "3".to_string());
    assert_eq!(m.get("a").map(|s| s.as_str()), Some("3"));
    assert_eq!(m.remove("a"), Some("3".to_string()));
    assert_eq!(m.get("a"), None);
    assert_eq!(m.remove("a"), None);
    assert_eq!(m.get("b").map(|s| s.as_str()), Some("2"));
}

#[test]
fn comment_map_from_pairs_last_wins() {
    let m = CommentMap::from_pairs(vec![
        ("x".to_string(), "1".to_string()),
        ("x".to_string(), "2".to_string()),
    ]);
    assert_eq!(m.get("x").map(|s| s.as_str()), Some("2"));
}

#[test]
fn vorbis_error_descriptions() {
    assert_eq!(error_description(-128), Some("A read from media returned an error"));
    assert_eq!(error_description(-132), Some("Bitstream does not contain any Vorbis data"));
    assert_eq!(error_description(-134), Some("Vorbis version mismatch"));
    assert_eq!(error_description(-133), Some("Invalid Vorbis bitstream header"));
    assert_eq!(error_description(-129), Some("Internal logic fault"));
    assert_eq!(error_description(-1), None);
}
