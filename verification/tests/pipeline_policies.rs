use glyphsinfo::errors::{Axis, IngestError, InvalidReason};
use glyphsinfo::pipeline::IngestConfig;
use glyphsinfo::store::GlyphData;
use glyphsinfo::vocab::Category;

fn glyph(name: &str, extra: &str) -> String {
    format!("<glyphData><glyph name=\"{}\" category=\"Letter\" {}/></glyphData>", name, extra)
}

#[test]
fn later_buffer_overrides_name() {
    let base = glyph("a-glyph", "description=\"first\"");
    let over = glyph("a-glyph", "description=\"second\"");
    let data = GlyphData::from_xmls(
        &[base.as_bytes(), over.as_bytes()],
        IngestConfig::default(),
    ).unwrap();
    assert_eq!(data.records().len(), 2);
    let found = data.record_for_name("a-glyph").unwrap();
    assert_eq!(found.description.as_deref(), Some("second"));
}

#[test]
fn later_buffer_overrides_production_name() {
    let base = glyph("one", "production=\"shared\" description=\"first\"");
    let over = glyph("two", "production=\"shared\" description=\"second\"");
    let data = GlyphData::from_xmls(
        &[base.as_bytes(), over.as_bytes()],
        IngestConfig::default(),
    ).unwrap();
    let found = data.record_for_production_name("shared").unwrap();
    assert_eq!(found.description.as_deref(), Some("second"));
    assert_eq!(data.record_for_name("one").unwrap().description.as_deref(), Some("first"));
}

#[test]
fn unparsable_unicode_is_lenient() {
    let xml = glyph("odd", "unicode=\"not-hex\"");
    let data = GlyphData::from_xmls(&[xml.as_bytes()], IngestConfig::default()).unwrap();
    let found = data.record_for_name("odd").unwrap();
    assert_eq!(found.unicode, None);
    assert_eq!(found.category, Category::Letter);
    assert_eq!(data.records().len(), 1);
}

#[test]
fn missing_category_is_rejected() {
    let xml = "<glyphData>\
        <glyph name=\"nocat\" production=\"uniFFFD\" unicode=\"FFFD\" altNames=\"other\"/>\
        <glyph name=\"good\" category=\"Symbol\"/>\
        </glyphData>";
    let data = GlyphData::from_xmls(&[xml.as_bytes()], IngestConfig::default()).unwrap();
    assert_eq!(data.records().len(), 1);
    assert!(data.record_for_name("nocat").is_none());
    assert!(data.record_for_production_name("uniFFFD").is_none());
    assert!(data.record_for_alternative_name("other").is_none());
    assert!(data.record_for_unicode('\u{FFFD}').is_none());
    assert!(data.record_for_name("good").is_some());
}

#[test]
fn strict_invalid_records_aborts() {
    let xml = "<glyphData><glyph name=\"nocat\"/></glyphData>";
    let cfg = IngestConfig { strict_invalid_records: true, ..IngestConfig::default() };
    let err = GlyphData::from_xmls(&[xml.as_bytes()], cfg).unwrap_err();
    assert_eq!(err, IngestError::InvalidRecord { reason: InvalidReason::MissingCategory });
}

#[test]
fn missing_name_is_rejected() {
    let xml = "<glyphData><glyph category=\"Letter\"/></glyphData>";
    let cfg = IngestConfig { strict_invalid_records: true, ..IngestConfig::default() };
    let err = GlyphData::from_xmls(&[xml.as_bytes()], cfg).unwrap_err();
    assert_eq!(err, IngestError::InvalidRecord { reason: InvalidReason::MissingName });
}

#[test]
fn unknown_category_invalidates_record() {
    let xml = glyph("odd", "");
    let bad = "<glyphData><glyph name=\"odd2\" category=\"Sigil\"/></glyphData>";
    let data = GlyphData::from_xmls(
        &[xml.as_bytes(), bad.as_bytes()],
        IngestConfig::default(),
    ).unwrap();
    assert_eq!(data.records().len(), 1);
    assert!(data.record_for_name("odd2").is_none());
}

#[test]
fn unknown_sub_category_is_a_hard_error() {
    let xml = "<glyphData><glyph name=\"g\" category=\"Letter\" subCategory=\"Bogus\"/></glyphData>";
    let err = GlyphData::from_xmls(&[xml.as_bytes()], IngestConfig::default()).unwrap_err();
    assert_eq!(
        err,
        IngestError::UnknownVocabularyValue { axis: Axis::SubCategory, value: "Bogus".into() },
    );
}

#[test]
fn unknown_script_is_a_hard_error() {
    let xml = "<glyphData><glyph name=\"g\" category=\"Letter\" script=\"Klingon\"/></glyphData>";
    let err = GlyphData::from_xmls(&[xml.as_bytes()], IngestConfig::default()).unwrap_err();
    assert_eq!(
        err,
        IngestError::UnknownVocabularyValue { axis: Axis::Script, value: "Klingon".into() },
    );
}

#[test]
fn duplicate_name_within_buffer_strict() {
    let xml = "<glyphData>\
        <glyph name=\"twice\" category=\"Letter\"/>\
        <glyph name=\"twice\" category=\"Mark\"/>\
        </glyphData>";
    let cfg = IngestConfig { strict_duplicate_names: true, ..IngestConfig::default() };
    let err = GlyphData::from_xmls(&[xml.as_bytes()], cfg).unwrap_err();
    assert_eq!(err, IngestError::DuplicateName { name: "twice".into() });
}

#[test]
fn duplicate_name_within_buffer_lenient_last_wins() {
    let xml = "<glyphData>\
        <glyph name=\"twice\" category=\"Letter\"/>\
        <glyph name=\"twice\" category=\"Mark\"/>\
        </glyphData>";
    let data = GlyphData::from_xmls(&[xml.as_bytes()], IngestConfig::default()).unwrap();
    assert_eq!(data.records().len(), 2);
    assert_eq!(data.record_for_name("twice").unwrap().category, Category::Mark);
}

#[test]
fn duplicate_name_across_buffers_is_tolerated_in_strict_mode() {
    let base = "<glyphData><glyph name=\"twice\" category=\"Letter\"/></glyphData>";
    let over = "<glyphData><glyph name=\"twice\" category=\"Mark\"/></glyphData>";
    let cfg = IngestConfig { strict_duplicate_names: true, ..IngestConfig::default() };
    let data = GlyphData::from_xmls(&[base.as_bytes(), over.as_bytes()], cfg).unwrap();
    assert_eq!(data.record_for_name("twice").unwrap().category, Category::Mark);
}

#[test]
fn required_description_gates_records() {
    let bare = "<glyphData><glyph name=\"plain\" category=\"Letter\"/></glyphData>";
    let cfg = IngestConfig { require_description: true, ..IngestConfig::default() };
    let data = GlyphData::from_xmls(&[bare.as_bytes()], cfg).unwrap();
    assert_eq!(data.records().len(), 0);

    let strict = IngestConfig {
        require_description: true,
        strict_invalid_records: true,
        ..IngestConfig::default()
    };
    let err = GlyphData::from_xmls(&[bare.as_bytes()], strict).unwrap_err();
    assert_eq!(err, IngestError::InvalidRecord { reason: InvalidReason::MissingDescription });
}

#[test]
fn malformed_source_is_refused() {
    let xml = b"<glyphData><glyph name=\"g\" category=\"Letter\"";
    let err = GlyphData::from_xmls(&[&xml[..]], IngestConfig::default()).unwrap_err();
    assert_eq!(err, IngestError::MalformedSource);
}

#[test]
fn escaped_attribute_values_are_unescaped() {
    let xml = "<glyphData><glyph name=\"amp\" category=\"Letter\" \
        description=\"A &amp; B &lt;C&gt;\"/></glyphData>";
    let data = GlyphData::from_xmls(&[xml.as_bytes()], IngestConfig::default()).unwrap();
    let found = data.record_for_name("amp").unwrap();
    assert_eq!(found.description.as_deref(), Some("A & B <C>"));
}

#[test]
fn non_glyph_elements_are_ignored() {
    let xml = "<glyphData>\
        <note name=\"skipped\" category=\"Letter\"/>\
        <glyph name=\"kept\" category=\"Letter\"/>\
        </glyphData>";
    let data = GlyphData::from_xmls(&[xml.as_bytes()], IngestConfig::default()).unwrap();
    assert_eq!(data.records().len(), 1);
    assert!(data.record_for_name("skipped").is_none());
    assert!(data.record_for_name("kept").is_some());
}
