//! The ingestion pipeline: source buffers are scanned for glyph elements,
//! each element is parsed into a record, and every accepted record is
//! appended to the store with its keys indexed.
//!
//! The XML tokenization itself is done by the quick_xml crate behind a
//! small trusted surface: a reader is modeled as the sequence of events it
//! will still deliver, and the events of a byte buffer are given a name,
//! `xml_events`, that the ingestion contract is stated over.

use std::io::Cursor;

use quick_xml::reader::Reader;

use vstd::prelude::*;
use vstd::slice::slice_to_vec;

use crate::errors::{ErrorView, IngestError};
use crate::record::{attrs_view, parse_glyph_element, RawAttr};
use crate::store::{spec_empty_store, spec_push_view, GlyphData, StoreView};
use crate::text::str_eq;

verus! {

#[verifier::external_type_specification]
#[verifier::external_body]
#[verifier::reject_recursive_types(T)]
pub struct ExCursor<T>(Cursor<T>);

#[verifier::external_type_specification]
#[verifier::external_body]
#[verifier::reject_recursive_types(R)]
pub struct ExReader<R>(Reader<R>);

/// One event of a source buffer, as the ingestion logic sees it: an empty
/// element with its name and its attribute pairs, or anything else.
pub uninterp spec fn xml_events(xml: Seq<u8>) -> Seq<
    Option<(Seq<char>, Seq<(Seq<char>, Seq<char>)>)>,
>;

/// Whether scanning the buffer reaches its end without a syntax error.
pub uninterp spec fn xml_well_formed(xml: Seq<u8>) -> bool;

/// The events a reader will still deliver.
pub uninterp spec fn scanner_events(r: Reader<Cursor<Vec<u8>>>) -> Seq<
    Option<(Seq<char>, Seq<(Seq<char>, Seq<char>)>)>,
>;

/// Whether the reader will reach the end of input without a syntax error.
pub uninterp spec fn scanner_clean(r: Reader<Cursor<Vec<u8>>>) -> bool;

/// One scanning step.
pub enum ScanStep {
    /// An empty element: its name and its attributes, in document order.
    Element { name: String, attributes: Vec<RawAttr> },
    /// Any other well-formed event.
    Other,
    /// The end of the buffer.
    End,
    /// A syntax error; the buffer is not well-formed XML.
    Malformed,
}

/// Relies on quick_xml's `Reader::from_reader`: a fresh reader delivers
/// exactly the events of the given bytes.
#[verifier::external_body]
fn scanner_new(xml: Vec<u8>) -> (r: Reader<Cursor<Vec<u8>>>)
    ensures
        scanner_events(r) == xml_events(xml@),
        scanner_clean(r) == xml_well_formed(xml@),
{
    Reader::from_reader(Cursor::new(xml))
}

/// Relies on quick_xml's `Reader::read_event_into` together with
/// `BytesStart::name`, `BytesStart::attributes` and
/// `Attribute::unescape_value`: one parsing step. An empty element is
/// handed over with its name and its unescaped attributes, in order,
/// attributes the crate refuses being dropped; any other event is skipped;
/// at the end of input the reader keeps reporting the end. A syntax error
/// is reported once, and nothing is promised of the reader after that:
/// quick_xml can go on delivering events past some errors, and this
/// library never reads past the first one.
#[verifier::external_body]
fn scanner_next(s: &mut Reader<Cursor<Vec<u8>>>) -> (step: ScanStep)
    ensures
        (if scanner_events(*old(s)).len() > 0 {
            &&& scanner_events(*final(s)) == scanner_events(*old(s)).drop_first()
            &&& scanner_clean(*final(s)) == scanner_clean(*old(s))
            &&& match step {
                ScanStep::Element { name, attributes } => scanner_events(*old(s))[0] == Some(
                    (name@, attrs_view(attributes@)),
                ),
                ScanStep::Other => scanner_events(*old(s))[0] is None,
                ScanStep::End => false,
                ScanStep::Malformed => false,
            }
        } else {
            if scanner_clean(*old(s)) {
                &&& step is End
                &&& scanner_events(*final(s)).len() == 0
                &&& scanner_clean(*final(s))
            } else {
                step is Malformed
            }
        }),
{
    let mut buf = Vec::new();
    match s.read_event_into(&mut buf) {
        Ok(quick_xml::events::Event::Empty(e)) => ScanStep::Element {
            name: e.name().as_ref().to_owned(),
            attributes: e.attributes().filter_map(|a| a.ok()).filter_map(
                |a: quick_xml::events::attributes::Attribute| a.unescape_value().ok().map(
                    |v| RawAttr { key: a.key.as_ref().to_owned(), value: v.into_owned() },
                ),
            ).collect(),
        },
        Ok(quick_xml::events::Event::Eof) => ScanStep::End,
        Ok(_) => ScanStep::Other,
        Err(_) => ScanStep::Malformed,
    }
}

/// The explicit ingestion options, one per policy the source variants
/// disagree on.
#[derive(Clone, Copy, Debug, PartialEq, Eq)]
pub struct IngestConfig {
    /// Refuse a second record with one name inside a single source buffer.
    /// Across buffers a later record always overrides, so that a later
    /// buffer can deliberately replace entries of an earlier one.
    pub strict_duplicate_names: bool,
    /// Demand a non-empty description on every record.
    pub require_description: bool,
    /// Abort the run on an invalid record instead of skipping the element.
    pub strict_invalid_records: bool,
}

impl Default for IngestConfig {
    /// The lenient policy: overrides win, descriptions are optional,
    /// invalid records are skipped.
    fn default() -> (r: IngestConfig)
        ensures
            r == (IngestConfig {
                strict_duplicate_names: false,
                require_description: false,
                strict_invalid_records: false,
            }),
    {
        IngestConfig {
            strict_duplicate_names: false,
            require_description: false,
            strict_invalid_records: false,
        }
    }
}

/// The attribute lists of the empty elements named `glyph`, in document
/// order.
pub open spec fn spec_glyph_elements(
    events: Seq<Option<(Seq<char>, Seq<(Seq<char>, Seq<char>)>)>>,
) -> Seq<Seq<(Seq<char>, Seq<char>)>>
    decreases events.len(),
{
    if events.len() == 0 {
        Seq::empty()
    } else {
        let prev = spec_glyph_elements(events.drop_last());
        match events.last() {
            Some(e) => if e.0 == "glyph"@ {
                prev.push(e.1)
            } else {
                prev
            },
            None => prev,
        }
    }
}

/// The glyph elements of an event prefix are a prefix of the glyph
/// elements of the whole.
proof fn lemma_glyph_elements_prefix(
    events: Seq<Option<(Seq<char>, Seq<(Seq<char>, Seq<char>)>)>>,
    c: int,
)
    requires
        0 <= c <= events.len(),
    ensures
        spec_glyph_elements(events.take(c)).len() <= spec_glyph_elements(events).len(),
        spec_glyph_elements(events).take(
            spec_glyph_elements(events.take(c)).len() as int,
        ) == spec_glyph_elements(events.take(c)),
    decreases events.len() - c,
{
    if c < events.len() {
        lemma_glyph_elements_prefix(events, c + 1);
        assert(events.take(c + 1).drop_last() =~= events.take(c));
        assert(events.take(c + 1).last() == events[c]);
        let g1 = spec_glyph_elements(events.take(c));
        let g2 = spec_glyph_elements(events.take(c + 1));
        let full = spec_glyph_elements(events);
        assert(g2.take(g1.len() as int) =~= g1);
        assert(full.take(g1.len() as int) =~= full.take(g2.len() as int).take(g1.len() as int));
    } else {
        assert(events.take(c) =~= events);
        assert(spec_glyph_elements(events).take(spec_glyph_elements(events).len() as int)
            =~= spec_glyph_elements(events));
    }
}

/// One element ingested: an invalid record is skipped or aborts, as asked;
/// a within-buffer duplicate name aborts under the strict policy; an
/// accepted record is appended with all its keys indexed, later keys
/// overriding earlier ones.
pub open spec fn spec_ingest_element(
    v: StoreView,
    attrs: Seq<(Seq<char>, Seq<char>)>,
    cfg: IngestConfig,
    buffer_start: int,
) -> Result<StoreView, ErrorView> {
    match crate::record::spec_parse_element(attrs, cfg.require_description) {
        Err(e) => match e {
            ErrorView::InvalidRecord { reason } => if cfg.strict_invalid_records {
                Err(e)
            } else {
                Ok(v)
            },
            _ => Err(e),
        },
        Ok(x) => if cfg.strict_duplicate_names && v.by_name.contains_key(x.name)
            && v.by_name[x.name] >= buffer_start {
            Err(ErrorView::DuplicateName { name: x.name })
        } else {
            Ok(spec_push_view(v, x.name, x.record()))
        },
    }
}

/// A refused element is invisible: ingesting it either aborts the run or
/// leaves the store exactly as it was, so none of its keys reaches any
/// index.
pub proof fn lemma_rejected_element_leaves_store(
    v: StoreView,
    attrs: Seq<(Seq<char>, Seq<char>)>,
    cfg: IngestConfig,
    buffer_start: int,
)
    requires
        crate::record::spec_parse_element(attrs, cfg.require_description) is Err,
    ensures
        spec_ingest_element(v, attrs, cfg, buffer_start) == Ok::<StoreView, ErrorView>(v)
            || spec_ingest_element(v, attrs, cfg, buffer_start) is Err,
{
}

/// A buffer's elements ingested in order; the first error wins.
pub open spec fn spec_ingest_elements(
    v: StoreView,
    elems: Seq<Seq<(Seq<char>, Seq<char>)>>,
    cfg: IngestConfig,
    buffer_start: int,
) -> Result<StoreView, ErrorView>
    decreases elems.len(),
{
    if elems.len() == 0 {
        Ok(v)
    } else {
        match spec_ingest_elements(v, elems.drop_last(), cfg, buffer_start) {
            Ok(v2) => spec_ingest_element(v2, elems.last(), cfg, buffer_start),
            Err(e) => Err(e),
        }
    }
}

proof fn lemma_ingest_elements_err_persists(
    v: StoreView,
    elems: Seq<Seq<(Seq<char>, Seq<char>)>>,
    cfg: IngestConfig,
    buffer_start: int,
    i: int,
)
    requires
        0 <= i <= elems.len(),
        spec_ingest_elements(v, elems.take(i), cfg, buffer_start) is Err,
    ensures
        spec_ingest_elements(v, elems, cfg, buffer_start) == spec_ingest_elements(
            v,
            elems.take(i),
            cfg,
            buffer_start,
        ),
    decreases elems.len() - i,
{
    if i < elems.len() {
        assert(elems.take(i + 1).drop_last() =~= elems.take(i));
        lemma_ingest_elements_err_persists(v, elems, cfg, buffer_start, i + 1);
    } else {
        assert(elems.take(i) =~= elems);
    }
}

/// In the lenient mode an invalid element is invisible to the whole run:
/// ingesting a buffer's elements yields exactly what ingesting them
/// without that element yields. Every other element of the buffer lands
/// as it would have, and no key of the skipped element reaches any index.
pub proof fn lemma_lenient_run_skips_invalid(
    v: StoreView,
    elems: Seq<Seq<(Seq<char>, Seq<char>)>>,
    cfg: IngestConfig,
    buffer_start: int,
    k: int,
)
    requires
        !cfg.strict_invalid_records,
        0 <= k < elems.len(),
        crate::record::spec_parse_element(elems[k], cfg.require_description) matches Err(e)
            && e is InvalidRecord,
    ensures
        spec_ingest_elements(v, elems, cfg, buffer_start) == spec_ingest_elements(
            v,
            elems.remove(k),
            cfg,
            buffer_start,
        ),
    decreases elems.len(),
{
    if k == elems.len() - 1 {
        assert(elems.remove(k) =~= elems.drop_last());
    } else {
        assert(elems.drop_last()[k] == elems[k]);
        lemma_lenient_run_skips_invalid(v, elems.drop_last(), cfg, buffer_start, k);
        assert(elems.remove(k).drop_last() =~= elems.drop_last().remove(k));
        assert(elems.remove(k).last() == elems.last());
        assert(elems.remove(k).len() > 0);
    }
}

/// A parsed element without a codepoint is still ingested whole: under the
/// tolerant duplicate policy its record is appended to the run, and the
/// codepoint index is left exactly as it was - the record is absent from
/// the codepoint index, not absent from the store.
pub proof fn lemma_accepted_element_without_codepoint(
    v: StoreView,
    attrs: Seq<(Seq<char>, Seq<char>)>,
    cfg: IngestConfig,
    buffer_start: int,
)
    requires
        !cfg.strict_duplicate_names,
        crate::record::spec_parse_element(attrs, cfg.require_description) matches Ok(x)
            && x.unicode is None,
    ensures
        ({
            let x = crate::record::spec_parse_element(attrs, cfg.require_description)->Ok_0;
            &&& spec_ingest_element(v, attrs, cfg, buffer_start) == Ok::<StoreView, ErrorView>(
                spec_push_view(v, x.name, x.record()),
            )
            &&& spec_push_view(v, x.name, x.record()).records == v.records.push(x.record())
            &&& spec_push_view(v, x.name, x.record()).by_unicode == v.by_unicode
        }),
{
}

/// One source buffer ingested: its glyph elements in document order, and
/// then, if no element aborted first, a well-formedness gate on the buffer
/// itself.
pub open spec fn spec_ingest_buffer(v: StoreView, xml: Seq<u8>, cfg: IngestConfig) -> Result<
    StoreView,
    ErrorView,
> {
    match spec_ingest_elements(
        v,
        spec_glyph_elements(xml_events(xml)),
        cfg,
        v.records.len() as int,
    ) {
        Ok(v2) => if xml_well_formed(xml) {
            Ok(v2)
        } else {
            Err(ErrorView::MalformedSource)
        },
        Err(e) => Err(e),
    }
}

/// Buffers ingested in the caller's order; the first error wins.
pub open spec fn spec_ingest_all(
    v: StoreView,
    buffers: Seq<Seq<u8>>,
    cfg: IngestConfig,
) -> Result<StoreView, ErrorView>
    decreases buffers.len(),
{
    if buffers.len() == 0 {
        Ok(v)
    } else {
        match spec_ingest_all(v, buffers.drop_last(), cfg) {
            Ok(v2) => spec_ingest_buffer(v2, buffers.last(), cfg),
            Err(e) => Err(e),
        }
    }
}

proof fn lemma_ingest_all_err_persists(
    v: StoreView,
    buffers: Seq<Seq<u8>>,
    cfg: IngestConfig,
    i: int,
)
    requires
        0 <= i <= buffers.len(),
        spec_ingest_all(v, buffers.take(i), cfg) is Err,
    ensures
        spec_ingest_all(v, buffers, cfg) == spec_ingest_all(v, buffers.take(i), cfg),
    decreases buffers.len() - i,
{
    if i < buffers.len() {
        assert(buffers.take(i + 1).drop_last() =~= buffers.take(i));
        lemma_ingest_all_err_persists(v, buffers, cfg, i + 1);
    } else {
        assert(buffers.take(i) =~= buffers);
    }
}

/// The byte sequences of the given buffers.
pub open spec fn bytes_views(bs: Seq<&[u8]>) -> Seq<Seq<u8>> {
    Seq::new(bs.len(), |i: int| bs[i]@)
}

/// Ingests one source buffer into the store. On an error the store is
/// abandoned by the caller, so nothing is said about it then.
fn ingest_buffer(store: &mut GlyphData, xml: &[u8], cfg: IngestConfig) -> (r: Result<
    (),
    IngestError,
>)
    ensures
        match r {
            Ok(_) => spec_ingest_buffer(old(store)@, xml@, cfg) == Ok::<StoreView, ErrorView>(
                final(store)@,
            ),
            Err(e) => spec_ingest_buffer(old(store)@, xml@, cfg) == Err::<StoreView, ErrorView>(
                e@,
            ),
        },
{
    let ghost v0 = store@;
    let ghost evs = xml_events(xml@);
    let buffer_start = store.records().len();
    let mut scanner = scanner_new(slice_to_vec(xml));
    let ghost mut consumed: int = 0;
    loop
        invariant
            v0 == old(store)@,
            evs == xml_events(xml@),
            0 <= consumed <= evs.len(),
            scanner_events(scanner) == evs.skip(consumed),
            scanner_clean(scanner) == xml_well_formed(xml@),
            buffer_start == v0.records.len(),
            spec_ingest_elements(
                v0,
                spec_glyph_elements(evs.take(consumed)),
                cfg,
                buffer_start as int,
            ) == Ok::<StoreView, ErrorView>(store@),
        decreases evs.len() - consumed,
    {
        proof {
            if scanner_events(scanner).len() > 0 {
                assert(evs.skip(consumed)[0] == evs[consumed]);
                assert(evs.skip(consumed).drop_first() =~= evs.skip(consumed + 1));
                assert(evs.take(consumed + 1).drop_last() =~= evs.take(consumed));
                assert(evs.take(consumed + 1).last() == evs[consumed]);
            }
        }
        let ghost elems_before = spec_glyph_elements(evs.take(consumed));
        match scanner_next(&mut scanner) {
            ScanStep::Element { name, attributes } => {
                let ghost elems_now = spec_glyph_elements(evs.take(consumed + 1));
                if str_eq(name.as_str(), "glyph") {
                    proof {
                        assert(elems_now == elems_before.push(attrs_view(attributes@)));
                        assert(elems_now.drop_last() =~= elems_before);
                    }
                    match parse_glyph_element(&attributes, cfg.require_description) {
                        Err(e) => {
                            let invalid = match &e {
                                IngestError::InvalidRecord { reason } => true,
                                _ => false,
                            };
                            if invalid && !cfg.strict_invalid_records {
                                // the element is skipped, the store stands
                            } else {
                                proof {
                                    assert(spec_ingest_elements(
                                        v0,
                                        elems_now,
                                        cfg,
                                        buffer_start as int,
                                    ) == Err::<StoreView, ErrorView>(e@));
                                    lemma_glyph_elements_prefix(evs, consumed + 1);
                                    lemma_ingest_elements_err_persists(
                                        v0,
                                        spec_glyph_elements(evs),
                                        cfg,
                                        buffer_start as int,
                                        elems_now.len() as int,
                                    );
                                }
                                return Err(e);
                            }
                        },
                        Ok(x) => {
                            if cfg.strict_duplicate_names {
                                let dup = match store.name_position(x.name.as_str()) {
                                    Some(i) => i >= buffer_start,
                                    None => false,
                                };
                                if dup {
                                    let e = IngestError::DuplicateName { name: x.name.clone() };
                                    proof {
                                        assert(spec_ingest_elements(
                                            v0,
                                            elems_now,
                                            cfg,
                                            buffer_start as int,
                                        ) == Err::<StoreView, ErrorView>(e@));
                                        lemma_glyph_elements_prefix(evs, consumed + 1);
                                        lemma_ingest_elements_err_persists(
                                            v0,
                                            spec_glyph_elements(evs),
                                            cfg,
                                            buffer_start as int,
                                            elems_now.len() as int,
                                        );
                                    }
                                    return Err(e);
                                }
                            }
                            let (record_name, record) = x.into_record();
                            store.push_record(record_name, record);
                        },
                    }
                }
                proof {
                    consumed = consumed + 1;
                }
            },
            ScanStep::Other => {
                proof {
                    consumed = consumed + 1;
                }
            },
            ScanStep::End => {
                proof {
                    assert(evs.skip(consumed).len() == 0);
                    assert(consumed == evs.len());
                    assert(evs.take(consumed) =~= evs);
                }
                return Ok(());
            },
            ScanStep::Malformed => {
                proof {
                    assert(evs.skip(consumed).len() == 0);
                    assert(consumed == evs.len());
                    assert(evs.take(consumed) =~= evs);
                    assert(!xml_well_formed(xml@));
                }
                return Err(IngestError::MalformedSource);
            },
        }
    }
}

impl GlyphData {
    /// Ingests one or more source buffers, in the caller's order, into a
    /// fresh store.
    pub fn from_xmls(xmls: &[&[u8]], cfg: IngestConfig) -> (r: Result<GlyphData, IngestError>)
        ensures
            match r {
                Ok(gd) => spec_ingest_all(spec_empty_store(), bytes_views(xmls@), cfg) == Ok::<
                    StoreView,
                    ErrorView,
                >(gd@),
                Err(e) => spec_ingest_all(spec_empty_store(), bytes_views(xmls@), cfg) == Err::<
                    StoreView,
                    ErrorView,
                >(e@),
            },
    {
        let ghost views = bytes_views(xmls@);
        let mut store = GlyphData::new();
        let n = xmls.len();
        let mut b: usize = 0;
        while b < n
            invariant
                0 <= b <= n,
                n == xmls@.len(),
                views == bytes_views(xmls@),
                spec_ingest_all(spec_empty_store(), views.take(b as int), cfg) == Ok::<
                    StoreView,
                    ErrorView,
                >(store@),
            decreases n - b,
        {
            proof {
                assert(views.take(b + 1 as int).drop_last() =~= views.take(b as int));
                assert(views.take(b + 1 as int).last() == views[b as int]);
            }
            match ingest_buffer(&mut store, xmls[b], cfg) {
                Ok(_) => {},
                Err(e) => {
                    proof {
                        lemma_ingest_all_err_persists(
                            spec_empty_store(),
                            views,
                            cfg,
                            b + 1 as int,
                        );
                    }
                    return Err(e);
                },
            }
            b = b + 1;
        }
        proof {
            assert(views.take(n as int) =~= views);
        }
        Ok(store)
    }
}

} // verus!
