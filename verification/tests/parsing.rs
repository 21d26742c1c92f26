use glyphsinfo::errors::{Axis, IngestError, InvalidReason};
use glyphsinfo::record::{parse_codepoint, parse_glyph_element, split_names, RawAttr, XmlRecord};
use glyphsinfo::vocab::{Case, Category, Direction, Script, SubCategory};

fn attr(key: &str, value: &str) -> RawAttr {
    RawAttr { key: key.into(), value: value.into() }
}

#[test]
fn codepoints_parse_from_base_sixteen() {
    assert_eq!(parse_codepoint("41"), Some('A'));
    assert_eq!(parse_codepoint("17F6"), Some('\u{17F6}'));
    assert_eq!(parse_codepoint("+41"), Some('A'));
    assert_eq!(parse_codepoint("10FFFF"), Some('\u{10FFFF}'));
    assert_eq!(parse_codepoint("0"), Some('\0'));
}

#[test]
fn bad_codepoints_are_absent() {
    assert_eq!(parse_codepoint(""), None);
    assert_eq!(parse_codepoint("+"), None);
    assert_eq!(parse_codepoint("xyz"), None);
    assert_eq!(parse_codepoint("41 "), None);
    assert_eq!(parse_codepoint("D800"), None);
    assert_eq!(parse_codepoint("110000"), None);
    assert_eq!(parse_codepoint("FFFFFFFFF"), None);
}

#[test]
fn alternative_names_split_on_commas() {
    assert_eq!(split_names("pramMuoyLekattak-khmer"), vec!["pramMuoyLekattak-khmer"]);
    assert_eq!(split_names(" a , b ,, c "), vec!["a", "b", "c"]);
    assert_eq!(split_names(""), Vec::<String>::new());
    assert_eq!(split_names(" , "), Vec::<String>::new());
    assert_eq!(split_names("one two, three"), vec!["one two", "three"]);
}

#[test]
fn vocabulary_spellings_resolve() {
    assert_eq!(Category::parse("Number"), Some(Category::Number));
    assert_eq!(Category::parse("number"), None);
    assert_eq!(SubCategory::parse("Decimal Digit"), Some(SubCategory::DecimalDigit));
    assert_eq!(SubCategory::parse("Decimal digit"), Some(SubCategory::DecimalDigit));
    assert_eq!(SubCategory::parse("Spacing Combining"), Some(SubCategory::SpacingCombining));
    assert_eq!(Case::parse("smallCaps"), Some(Case::SmallCaps));
    assert_eq!(Case::parse("SmallCaps"), None);
    assert_eq!(Script::parse("khmer"), Some(Script::Khmer));
    assert_eq!(Script::parse("Black Letter"), Some(Script::BlackLetter));
    assert_eq!(Script::parse("phaistosDisc"), Some(Script::PhaistosDisc));
    assert_eq!(Script::parse("nyiakeng puachue hmong"), Some(Script::NyiakengPuachueHmong));
    assert_eq!(Direction::parse("LTR"), Some(Direction::LeftToRight));
    assert_eq!(Direction::parse("RTL"), Some(Direction::RightToLeft));
    assert_eq!(Direction::parse("TTB"), None);
}

#[test]
fn element_parsing_collects_every_field() {
    let attrs = vec![
        attr("unicode", "0041"),
        attr("name", "A"),
        attr("category", "Letter"),
        attr("subCategory", "Ligature"),
        attr("case", "upper"),
        attr("script", "latin"),
        attr("direction", "LTR"),
        attr("description", "LATIN CAPITAL LETTER A"),
        attr("production", "uni0041"),
        attr("altNames", "a-cap, letterA"),
        attr("futureField", "ignored"),
    ];
    let parsed = parse_glyph_element(&attrs, false).unwrap();
    assert_eq!(parsed.unicode, Some('A'));
    assert_eq!(parsed.name, "A");
    assert_eq!(parsed.category, Category::Letter);
    assert_eq!(parsed.sub_category, Some(SubCategory::Ligature));
    assert_eq!(parsed.case, Some(Case::Upper));
    assert_eq!(parsed.script, Some(Script::Latin));
    assert_eq!(parsed.direction, Some(Direction::LeftToRight));
    assert_eq!(parsed.description.as_deref(), Some("LATIN CAPITAL LETTER A"));
    assert_eq!(parsed.production_name.as_deref(), Some("uni0041"));
    assert_eq!(parsed.alternative_names, vec!["a-cap", "letterA"]);
}

#[test]
fn element_parsing_refuses_bad_vocabulary() {
    let attrs = vec![attr("name", "g"), attr("category", "Letter"), attr("case", "Upper")];
    let err = parse_glyph_element(&attrs, false).unwrap_err();
    assert_eq!(err, IngestError::UnknownVocabularyValue { axis: Axis::Case, value: "Upper".into() });

    let attrs = vec![attr("name", "g"), attr("category", "letter")];
    let err = parse_glyph_element(&attrs, false).unwrap_err();
    assert_eq!(err, IngestError::InvalidRecord { reason: InvalidReason::UnknownCategory });

    let attrs = vec![attr("category", "Letter")];
    let err = parse_glyph_element(&attrs, false).unwrap_err();
    assert_eq!(err, IngestError::InvalidRecord { reason: InvalidReason::MissingName });
}

#[test]
fn into_record_splits_off_the_name() {
    let parsed = XmlRecord {
        unicode: Some('A'),
        name: "A".into(),
        category: Category::Letter,
        sub_category: None,
        case: Some(Case::Upper),
        script: Some(Script::Latin),
        direction: None,
        description: None,
        production_name: Some("uni0041".into()),
        alternative_names: vec![],
    };
    let (name, record) = parsed.into_record();
    assert_eq!(name, "A");
    assert_eq!(record.unicode, Some('A'));
    assert_eq!(record.category, Category::Letter);
    assert_eq!(record.case, Some(Case::Upper));
    assert_eq!(record.production_name.as_deref(), Some("uni0041"));
}
