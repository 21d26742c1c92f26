use glyphsinfo::errors::IngestError;
use glyphsinfo::pipeline::IngestConfig;
use glyphsinfo::store::GlyphData;

fn sample_store() -> GlyphData {
    let base = "<glyphData>\
        <glyph unicode=\"0041\" name=\"A\" category=\"Letter\" case=\"upper\" \
         script=\"latin\" production=\"uni0041\" altNames=\"a-cap, letterA\" \
         description=\"LATIN CAPITAL LETTER A\"/>\
        <glyph name=\"f_f_i\" category=\"Letter\" production=\"f_f_i\" direction=\"LTR\"/>\
        </glyphData>";
    let extra = "<glyphData>\
        <glyph unicode=\"17F6\" name=\"lekattakpramMuoy-khmer\" category=\"Number\" \
         subCategory=\"Decimal Digit\" script=\"khmer\" production=\"uni17F6\" \
         altNames=\"pramMuoyLekattak-khmer\"/>\
        </glyphData>";
    GlyphData::from_xmls(&[base.as_bytes(), extra.as_bytes()], IngestConfig::default()).unwrap()
}

#[test]
fn snapshot_round_trip_preserves_all_lookups() {
    let before = sample_store();
    let bytes = before.to_snapshot();
    let after = GlyphData::from_snapshot(&bytes).unwrap();

    assert_eq!(before.records(), after.records());
    for name in ["A", "f_f_i", "lekattakpramMuoy-khmer", "missing"] {
        assert_eq!(before.record_for_name(name), after.record_for_name(name));
    }
    for production in ["uni0041", "f_f_i", "uni17F6", "missing"] {
        assert_eq!(
            before.record_for_production_name(production),
            after.record_for_production_name(production),
        );
    }
    for alternative in ["a-cap", "letterA", "pramMuoyLekattak-khmer", "missing"] {
        assert_eq!(
            before.record_for_alternative_name(alternative),
            after.record_for_alternative_name(alternative),
        );
    }
    for codepoint in ['A', '\u{17F6}', 'z'] {
        assert_eq!(before.record_for_unicode(codepoint), after.record_for_unicode(codepoint));
    }
}

#[test]
fn empty_store_snapshot_is_the_zero_count() {
    let store = GlyphData::new();
    let bytes = store.to_snapshot();
    assert_eq!(bytes, vec![0u8; 8]);
    let back = GlyphData::from_snapshot(&bytes).unwrap();
    assert_eq!(back.records().len(), 0);
}

#[test]
fn truncated_snapshot_is_corrupt() {
    let bytes = sample_store().to_snapshot();
    let err = GlyphData::from_snapshot(&bytes[..bytes.len() - 1]).unwrap_err();
    assert_eq!(err, IngestError::CorruptSnapshot);
    let err = GlyphData::from_snapshot(&[1, 2, 3]).unwrap_err();
    assert_eq!(err, IngestError::CorruptSnapshot);
}

#[test]
fn trailing_bytes_are_corrupt() {
    let mut bytes = sample_store().to_snapshot();
    bytes.push(0);
    let err = GlyphData::from_snapshot(&bytes).unwrap_err();
    assert_eq!(err, IngestError::CorruptSnapshot);
}

#[test]
fn bad_codepoint_in_snapshot_is_corrupt() {
    // one record, whose name holds a single character that is no scalar
    // value: count 1, name length 1, then a surrogate.
    let mut bytes: Vec<u8> = Vec::new();
    bytes.extend_from_slice(&1u64.to_le_bytes());
    bytes.extend_from_slice(&1u64.to_le_bytes());
    bytes.extend_from_slice(&0xD800u32.to_le_bytes());
    let err = GlyphData::from_snapshot(&bytes).unwrap_err();
    assert_eq!(err, IngestError::CorruptSnapshot);
}
