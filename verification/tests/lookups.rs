use glyphsinfo::pipeline::IngestConfig;
use glyphsinfo::record::Record;
use glyphsinfo::store::GlyphData;
use glyphsinfo::vocab::{Category, Script, SubCategory};

fn khmer_source() -> &'static str {
    "<?xml version=\"1.0\" encoding=\"UTF-8\"?>\
     <glyphData>\
     <glyph unicode=\"17F6\" name=\"lekattakpramMuoy-khmer\" category=\"Number\" \
      subCategory=\"Decimal Digit\" script=\"khmer\" production=\"uni17F6\" \
      altNames=\"pramMuoyLekattak-khmer\" \
      description=\"KHMER SYMBOL LEK ATTAK PRAM-MUOY\"/>\
     </glyphData>"
}

fn expected_khmer_record() -> Record {
    Record {
        unicode: Some('\u{17F6}'),
        category: Category::Number,
        sub_category: Some(SubCategory::DecimalDigit),
        case: None,
        script: Some(Script::Khmer),
        direction: None,
        description: Some("KHMER SYMBOL LEK ATTAK PRAM-MUOY".into()),
        production_name: Some("uni17F6".into()),
        alternative_names: vec!["pramMuoyLekattak-khmer".into()],
    }
}

#[test]
fn test_by_name() {
    let xml = khmer_source();
    let data = GlyphData::from_xmls(&[xml.as_bytes()], IngestConfig::default()).unwrap();
    let expected = expected_khmer_record();

    let record = data.record_for_name("lekattakpramMuoy-khmer").unwrap();
    assert_eq!(*record, expected);
    let record = data.record_for_production_name("uni17F6").unwrap();
    assert_eq!(*record, expected);
    let record = data.record_for_alternative_name("pramMuoyLekattak-khmer").unwrap();
    assert_eq!(*record, expected);
    let record = data.record_for_unicode('\u{17F6}').unwrap();
    assert_eq!(*record, expected);
}

#[test]
fn lib_test_by_name() {
    let xml = khmer_source();
    let data = GlyphData::from_xmls(&[xml.as_bytes()], IngestConfig::default()).unwrap();
    let expected = expected_khmer_record();

    let record = data.record_for_name("lekattakpramMuoy-khmer").unwrap();
    assert_eq!(*record, expected);
    let record = data.record_for_production_name("uni17F6").unwrap();
    assert_eq!(*record, expected);
    let record = data.record_for_alternative_name("pramMuoyLekattak-khmer").unwrap();
    assert_eq!(*record, expected);
    let record = data.record_for_unicode('\u{17F6}').unwrap();
    assert_eq!(*record, expected);
}

#[test]
fn unknown_keys_find_nothing() {
    let xml = khmer_source();
    let data = GlyphData::from_xmls(&[xml.as_bytes()], IngestConfig::default()).unwrap();
    assert!(data.record_for_name("missing").is_none());
    assert!(data.record_for_production_name("uni0000").is_none());
    assert!(data.record_for_alternative_name("nobody").is_none());
    assert!(data.record_for_unicode('A').is_none());
    assert_eq!(data.records().len(), 1);
}

#[test]
fn empty_input_yields_empty_store() {
    let data = GlyphData::from_xmls(&[], IngestConfig::default()).unwrap();
    assert_eq!(data.records().len(), 0);
    assert!(data.record_for_name("anything").is_none());
}
