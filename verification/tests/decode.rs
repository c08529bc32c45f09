//! Tests of the document parser, the chunk decoder and the stream
//! filters, on hand-built archive bytes.

use mprobe::bson::{parse_document, serialize_document, BsonValue, Document, DocumentKind, Element, MAX_DEPTH};
use mprobe::error::MetricParseError;
use mprobe::filter::{HostnameFilter, TimeWindow, TimeWindowFilter};
use mprobe::metadata::Metadata;
use mprobe::metrics::{MetricValue, MetricsChunk};
use mprobe::read::{BsonReader, MetricsChunkReader};
use mprobe::strfmt::{u64_to_string, usize_to_string};
use mprobe::walk::{is_not_interim_file, parse_u16, path_filter_keeps, sort_file_infos, FileInfo};

/// Appends one element: tag, NUL-terminated key, value bytes.
fn put_element(out: &mut Vec<u8>, tag: u8, key: &str, value: &[u8]) {
    out.push(tag);
    out.extend_from_slice(key.as_bytes());
    out.push(0);
    out.extend_from_slice(value);
}

/// Wraps element bytes into a document: length, elements, NUL.
fn wrap_doc(elements: Vec<u8>) -> Vec<u8> {
    let total = (elements.len() + 5) as u32;
    let mut out = total.to_le_bytes().to_vec();
    out.extend_from_slice(&elements);
    out.push(0);
    out
}

/// A length-prefixed string value.
fn string_value(s: &str) -> Vec<u8> {
    let mut out = ((s.len() + 1) as u32).to_le_bytes().to_vec();
    out.extend_from_slice(s.as_bytes());
    out.push(0);
    out
}

#[test]
fn parse_document_reads_a_small_document() {
    let mut elements = Vec::new();
    put_element(&mut elements, 0x10, "a", &7i32.to_le_bytes());
    put_element(&mut elements, 0x02, "b", &string_value("hi"));
    let bytes = wrap_doc(elements);

    let (doc, end) = parse_document(&bytes, 0, MAX_DEPTH).unwrap();
    assert_eq!(end, bytes.len());
    assert_eq!(doc.get_i32("a").unwrap(), 7);
    match doc.get("b") {
        Some(BsonValue::Text(s)) => assert_eq!(s, "hi"),
        other => panic!("unexpected value: {:?}", other),
    }
    assert!(doc.get("c").is_none());
}

#[test]
fn parse_document_rejects_a_bad_length() {
    let mut elements = Vec::new();
    put_element(&mut elements, 0x10, "a", &7i32.to_le_bytes());
    let mut bytes = wrap_doc(elements);
    bytes[0] = bytes[0] + 1;
    assert!(parse_document(&bytes, 0, MAX_DEPTH).is_err());
}

#[test]
fn document_kind_maps_the_type_field() {
    assert_eq!(DocumentKind::try_from(0).unwrap(), DocumentKind::Metadata);
    assert_eq!(DocumentKind::try_from(1).unwrap(), DocumentKind::MetricsChunk);
    assert_eq!(DocumentKind::try_from(2).unwrap(), DocumentKind::PeriodicMetadata);
    match DocumentKind::try_from(9) {
        Err(MetricParseError::UnknownDocumentKind(9)) => {}
        other => panic!("unexpected outcome: {:?}", other),
    }
}

/// A document built from plain elements.
fn doc(elements: Vec<(&str, BsonValue)>) -> Document {
    Document {
        elements: elements
            .into_iter()
            .map(|(k, v)| Element { key: String::from(k), value: v })
            .collect(),
    }
}

/// A metadata document for a host, in the shape the host filter reads.
fn metadata_doc(host: &str) -> Document {
    doc(vec![
        ("type", BsonValue::Int32(0)),
        ("_id", BsonValue::DateTime(1_000)),
        (
            "doc",
            BsonValue::Doc(doc(vec![(
                "hostInfo",
                BsonValue::Doc(doc(vec![(
                    "system",
                    BsonValue::Doc(doc(vec![("hostname", BsonValue::Text(String::from(host)))])),
                )])),
            )])),
        ),
    ])
}

#[test]
fn hostname_filter_gates_on_the_latest_metadata() {
    let mut filter = HostnameFilter::new(Some(String::from("h2")));
    let chunkish = doc(vec![("type", BsonValue::Int32(1)), ("_id", BsonValue::DateTime(5))]);

    assert_eq!(filter.step(&metadata_doc("h1")).unwrap(), false);
    assert_eq!(filter.step(&chunkish).unwrap(), false);
    assert_eq!(filter.step(&metadata_doc("h2")).unwrap(), true);
    assert_eq!(filter.step(&chunkish).unwrap(), true);
    assert_eq!(filter.step(&metadata_doc("h1")).unwrap(), false);
    assert_eq!(filter.step(&chunkish).unwrap(), false);
}

#[test]
fn hostname_filter_without_a_request_passes_every_host() {
    let mut filter = HostnameFilter::new(None);
    assert_eq!(filter.step(&metadata_doc("anyone")).unwrap(), true);
    let chunkish = doc(vec![("type", BsonValue::Int32(1))]);
    assert_eq!(filter.step(&chunkish).unwrap(), true);
}

#[test]
fn hostname_filter_reports_an_unknown_kind() {
    let mut filter = HostnameFilter::new(None);
    let bad = doc(vec![("type", BsonValue::Int32(7))]);
    match filter.step(&bad) {
        Err(MetricParseError::UnknownDocumentKind(7)) => {}
        other => panic!("unexpected outcome: {:?}", other),
    }
}

#[test]
fn metadata_reads_server_status_with_and_without_common() {
    let plain = doc(vec![(
        "serverStatus",
        BsonValue::Doc(doc(vec![
            ("host", BsonValue::Text(String::from("h1"))),
            ("process", BsonValue::Text(String::from("mongod"))),
            ("version", BsonValue::Text(String::from("8.0"))),
        ])),
    )]);
    let m = Metadata::from_reference_document(&plain).unwrap();
    assert_eq!(m.host, "h1");
    assert_eq!(m.process, "mongod");
    assert_eq!(m.version, "8.0");

    let nested = doc(vec![("common", BsonValue::Doc(plain))]);
    let m2 = Metadata::from_reference_document(&nested).unwrap();
    assert_eq!(m2.host, "h1");
}

#[test]
fn time_window_includes_and_overlaps() {
    let w = TimeWindow::new(Some(100), Some(200));
    assert!(w.includes(100));
    assert!(w.includes(200));
    assert!(!w.includes(99));
    assert!(!w.includes(201));
    assert!(w.includes_with_margin(95, 10));
    assert!(!w.includes_with_margin(89, 10));
    assert!(w.overlaps(150, 300));
    assert!(!w.overlaps(201, 300));
    let open = TimeWindow::new(None, None);
    assert!(open.includes(i64::MIN));
    assert!(open.includes(i64::MAX));
}

#[test]
fn document_time_filter_uses_a_two_hour_margin() {
    let filter = TimeWindowFilter::new(TimeWindow::new(Some(10_000_000), Some(20_000_000)));
    let hour = 3_600_000i64;
    let inside = doc(vec![("_id", BsonValue::DateTime(10_000_000 - 2 * hour))]);
    let outside = doc(vec![("_id", BsonValue::DateTime(10_000_000 - 2 * hour - 1))]);
    assert_eq!(filter.step(&inside).unwrap(), true);
    assert_eq!(filter.step(&outside).unwrap(), false);
}

#[test]
fn path_filter_uses_a_four_hour_margin() {
    let hour = 3_600_000i64;
    let t = 1_700_000_000_000i64;
    let window = TimeWindow::new(Some(t + 7 * hour), Some(t + 8 * hour));
    let early = FileInfo { path: String::from("a"), timestamp: t, uid: 0 };
    let close = FileInfo { path: String::from("b"), timestamp: t + 6 * hour, uid: 1 };
    let late = FileInfo { path: String::from("c"), timestamp: t + 13 * hour, uid: 2 };
    assert!(!path_filter_keeps(&window, &early));
    assert!(path_filter_keeps(&window, &close));
    assert!(!path_filter_keeps(&window, &late));
}

#[test]
fn files_sort_by_timestamp_then_uid() {
    let f = |p: &str, ts: i64, uid: u16| FileInfo { path: String::from(p), timestamp: ts, uid };
    let sorted = sort_file_infos(vec![
        f("c", 30, 1),
        f("a", 10, 2),
        f("b", 10, 1),
        f("d", 20, 9),
    ]);
    let order: Vec<&str> = sorted.iter().map(|x| x.path.as_str()).collect();
    assert_eq!(order, vec!["b", "a", "d", "c"]);
}

#[test]
fn interim_files_are_recognized() {
    assert!(!is_not_interim_file(Some("interim")));
    assert!(is_not_interim_file(Some("2024-01-01T00-00-00Z-0")));
    assert!(is_not_interim_file(None));
}

#[test]
fn file_extensions_parse_to_timestamp_and_uid() {
    let fi = FileInfo::from(
        String::from("metrics.2024-01-01T00-00-00Z-42"),
        "2024-01-01T00-00-00Z-42",
    )
    .unwrap();
    assert_eq!(fi.timestamp, 1_704_067_200_000);
    assert_eq!(fi.uid, 42);

    match FileInfo::from(String::from("x.foo"), "foo") {
        Err(MetricParseError::Io { message }) => {
            assert_eq!(message, "splitting file extension (foo) into a timestamp and a uid failed");
        }
        other => panic!("unexpected outcome: {:?}", other),
    }
    match FileInfo::from(String::from("x.t"), "2024-01-01T00-00-00Z-99999") {
        Err(MetricParseError::Io { message }) => {
            assert_eq!(message, "parsing file extension uid (99999) failed");
        }
        other => panic!("unexpected outcome: {:?}", other),
    }
    match FileInfo::from(String::from("x.t"), "yesterday-7") {
        Err(MetricParseError::Io { message }) => {
            assert_eq!(message, "parsing file extension timestamp (yesterday) failed");
        }
        other => panic!("unexpected outcome: {:?}", other),
    }
}

/// A compressed chunk payload around the given reference document bytes
/// and counts, with no sample matrix.
fn chunk_payload(reference: &[u8], metrics_count: u32, samples_count: u32, matrix: &[u8]) -> Vec<u8> {
    let mut inner = reference.to_vec();
    inner.extend_from_slice(&metrics_count.to_le_bytes());
    inner.extend_from_slice(&samples_count.to_le_bytes());
    inner.extend_from_slice(matrix);

    let mut encoder =
        flate2::write::ZlibEncoder::new(Vec::new(), flate2::Compression::default());
    std::io::Write::write_all(&mut encoder, &inner).unwrap();
    let compressed = encoder.finish().unwrap();

    let mut payload = (inner.len() as u32).to_le_bytes().to_vec();
    payload.extend_from_slice(&compressed);
    payload
}

/// The reference document of a single-metric chunk: server metadata for
/// the given host, the chunk timestamp rail and one integer metric.
fn reference_doc_bytes_for(host: &str) -> Vec<u8> {
    let mut server = Vec::new();
    put_element(&mut server, 0x02, "host", &string_value(host));
    put_element(&mut server, 0x02, "process", &string_value("mongod"));
    put_element(&mut server, 0x02, "version", &string_value("8.0"));
    let server_doc = wrap_doc(server);

    let mut elements = Vec::new();
    put_element(&mut elements, 0x03, "serverStatus", &server_doc);
    put_element(&mut elements, 0x09, "start", &1_704_067_200_000i64.to_le_bytes());
    put_element(&mut elements, 0x12, "a", &7i64.to_le_bytes());
    wrap_doc(elements)
}

/// The reference document of a single-metric chunk for the usual host.
fn reference_doc_bytes() -> Vec<u8> {
    reference_doc_bytes_for("h1")
}

#[test]
fn a_chunk_with_no_samples_keeps_initial_values() {
    let payload = chunk_payload(&reference_doc_bytes(), 2, 0, &[]);
    let chunk = MetricsChunk::from_reader(&payload).unwrap();

    assert_eq!(chunk.metadata.host, "h1");
    assert_eq!(chunk.start, 1_704_067_200_000);
    assert_eq!(chunk.end, 1_704_067_200_000);
    assert_eq!(chunk.metrics.len(), 1);
    let metric = &chunk.metrics[0];
    assert_eq!(metric.name, "a");
    assert_eq!(metric.groups, vec![String::from("a")]);
    assert_eq!(metric.measurements.len(), 1);
    assert_eq!(metric.measurements[0].timestamp, 1_704_067_200_000);
    assert_eq!(metric.measurements[0].value, MetricValue::Int64(7));
    assert_eq!(metric.start, 1_704_067_200_000);
    assert_eq!(metric.end, 1_704_067_200_000);
}

#[test]
fn a_chunk_with_samples_applies_deltas_along_the_rail() {
    // Two series of two samples each, row-major: the chunk rail advances
    // by a second per sample, the counter rises once then stays flat
    // through a zero run of length one.
    let mut matrix = Vec::new();
    mprobe::bytes::write_var_u64(1000, &mut matrix);
    mprobe::bytes::write_var_u64(1000, &mut matrix);
    mprobe::bytes::write_var_u64(5, &mut matrix);
    mprobe::bytes::write_var_u64(0, &mut matrix);
    mprobe::bytes::write_var_u64(0, &mut matrix);
    let payload = chunk_payload(&reference_doc_bytes(), 2, 2, &matrix);
    let chunk = MetricsChunk::from_reader(&payload).unwrap();

    assert_eq!(chunk.start, 1_704_067_201_000);
    assert_eq!(chunk.end, 1_704_067_202_000);
    let metric = &chunk.metrics[0];
    assert_eq!(metric.measurements.len(), 2);
    assert_eq!(metric.measurements[0].value, MetricValue::Int64(12));
    assert_eq!(metric.measurements[0].timestamp, 1_704_067_201_000);
    assert_eq!(metric.measurements[1].value, MetricValue::Int64(12));
    assert_eq!(metric.measurements[1].timestamp, 1_704_067_202_000);
    assert_eq!(metric.start, 1_704_067_201_000);
    assert_eq!(metric.end, 1_704_067_202_000);
}

#[test]
fn a_count_mismatch_is_its_own_error() {
    let payload = chunk_payload(&reference_doc_bytes(), 3, 0, &[]);
    match MetricsChunk::from_reader(&payload) {
        Err(MetricParseError::MetricCountMismatch) => {}
        other => panic!("unexpected outcome: {:?}", other),
    }
}

#[test]
fn a_truncated_payload_is_an_io_error() {
    match MetricsChunk::from_reader(&[1, 0]) {
        Err(MetricParseError::Io { .. }) => {}
        other => panic!("unexpected outcome: {:?}", other),
    }
}

#[test]
fn a_chunk_without_a_rail_reports_the_missing_start() {
    let mut elements = Vec::new();
    put_element(&mut elements, 0x12, "a", &7i64.to_le_bytes());
    let reference = wrap_doc(elements);
    let payload = chunk_payload(&reference, 1, 0, &[]);
    match MetricsChunk::from_reader(&payload) {
        Err(MetricParseError::MetricTimestampNotFound { name }) => assert_eq!(name, "a"),
        other => panic!("unexpected outcome: {:?}", other),
    }
}

#[test]
fn an_empty_file_yields_no_documents() {
    let mut reader = BsonReader::new(Vec::new());
    assert!(reader.next().is_none());

    let mut pipeline = MetricsChunkReader::new(BsonReader::new(Vec::new()));
    let mut filter = HostnameFilter::new(None);
    let window = TimeWindow::new(None, None);
    assert!(pipeline.next(&mut filter, &window).is_none());
}

/// Serializes a document built of plain values, for stream tests.
fn doc_bytes_of(d: &Document) -> Vec<u8> {
    let mut elements = Vec::new();
    for e in &d.elements {
        match &e.value {
            BsonValue::Int32(x) => put_element(&mut elements, 0x10, &e.key, &x.to_le_bytes()),
            BsonValue::DateTime(x) => put_element(&mut elements, 0x09, &e.key, &x.to_le_bytes()),
            BsonValue::Text(s) => put_element(&mut elements, 0x02, &e.key, &string_value(s)),
            BsonValue::Doc(sub) => {
                let sub_bytes = doc_bytes_of(sub);
                put_element(&mut elements, 0x03, &e.key, &sub_bytes)
            }
            BsonValue::Binary(subtype, bytes) => {
                let mut value = (bytes.len() as u32).to_le_bytes().to_vec();
                value.push(*subtype);
                value.extend_from_slice(bytes);
                put_element(&mut elements, 0x05, &e.key, &value)
            }
            other => panic!("no serializer for {:?}", other),
        }
    }
    wrap_doc(elements)
}

#[test]
fn an_unknown_kind_is_an_error_item_and_iteration_continues() {
    let bad = doc(vec![("type", BsonValue::Int32(9)), ("_id", BsonValue::DateTime(5))]);
    let meta = metadata_doc("h1");
    let mut stream = doc_bytes_of(&bad);
    stream.extend_from_slice(&doc_bytes_of(&meta));

    let mut pipeline = MetricsChunkReader::new(BsonReader::new(stream));
    let mut filter = HostnameFilter::new(None);
    let window = TimeWindow::new(None, None);

    match pipeline.next(&mut filter, &window) {
        Some(Err(MetricParseError::UnknownDocumentKind(9))) => {}
        other => panic!("unexpected outcome: {:?}", other),
    }
    // The metadata document is not a chunk, so the stream then ends
    // without another error: iteration continued past the bad document.
    assert!(pipeline.next(&mut filter, &window).is_none());
    assert!(filter.are_host_metrics);
}

/// A metrics-chunk document around the given compressed payload.
fn chunk_doc(ts: i64, payload: Vec<u8>) -> Document {
    doc(vec![
        ("type", BsonValue::Int32(1)),
        ("_id", BsonValue::DateTime(ts)),
        ("data", BsonValue::Binary(0, payload)),
    ])
}

#[test]
fn the_host_filter_selects_one_hosts_chunks() {
    let h1_payload = chunk_payload(&reference_doc_bytes_for("h1"), 2, 0, &[]);
    let h2_payload = chunk_payload(&reference_doc_bytes_for("h2"), 2, 0, &[]);
    let mut stream = Vec::new();
    stream.extend_from_slice(&doc_bytes_of(&metadata_doc("h1")));
    for _ in 0..10 {
        stream.extend_from_slice(&doc_bytes_of(&chunk_doc(1_000, h1_payload.clone())));
    }
    stream.extend_from_slice(&doc_bytes_of(&metadata_doc("h2")));
    for _ in 0..10 {
        stream.extend_from_slice(&doc_bytes_of(&chunk_doc(2_000, h2_payload.clone())));
    }

    let mut pipeline = MetricsChunkReader::new(BsonReader::new(stream));
    let mut filter = HostnameFilter::new(Some(String::from("h2")));
    let window = TimeWindow::new(None, None);

    let mut chunks = Vec::new();
    while let Some(item) = pipeline.next(&mut filter, &window) {
        chunks.push(item.unwrap());
    }
    assert_eq!(chunks.len(), 10);
    for chunk in &chunks {
        assert_eq!(chunk.metadata.host, "h2");
    }
}

#[test]
fn the_document_window_drops_chunks_outside_it() {
    let payload = chunk_payload(&reference_doc_bytes(), 2, 0, &[]);
    let hour = 3_600_000i64;
    let mut stream = Vec::new();
    stream.extend_from_slice(&doc_bytes_of(&metadata_doc("h1")));
    stream.extend_from_slice(&doc_bytes_of(&chunk_doc(0, payload.clone())));
    stream.extend_from_slice(&doc_bytes_of(&chunk_doc(10 * hour, payload.clone())));

    let mut pipeline = MetricsChunkReader::new(BsonReader::new(stream));
    let mut filter = HostnameFilter::new(None);
    // Only the second chunk's timestamp lies within the window; documents
    // are held against it without a margin.
    let window = TimeWindow::new(Some(9 * hour), Some(11 * hour));

    let mut count = 0;
    while let Some(item) = pipeline.next(&mut filter, &window) {
        item.unwrap();
        count += 1;
    }
    assert_eq!(count, 1);
}


#[test]
fn uids_parse_as_decimal_u16() {
    assert_eq!(parse_u16("123"), Some(123));
    assert_eq!(parse_u16("+7"), Some(7));
    assert_eq!(parse_u16("65535"), Some(65535));
    assert_eq!(parse_u16("65536"), None);
    assert_eq!(parse_u16(""), None);
    assert_eq!(parse_u16("+"), None);
    assert_eq!(parse_u16("12a"), None);
}

#[test]
fn numbers_format_in_decimal() {
    assert_eq!(u64_to_string(0), "0");
    assert_eq!(u64_to_string(10), "10");
    assert_eq!(u64_to_string(90210), "90210");
    assert_eq!(u64_to_string(u64::MAX), "18446744073709551615");
    assert_eq!(usize_to_string(7), "7");
}

#[test]
fn non_ascii_text_survives_the_parser() {
    let mut server = Vec::new();
    put_element(&mut server, 0x02, "host", &string_value("h\u{e9}bergeur-1"));
    put_element(&mut server, 0x02, "process", &string_value("mongod"));
    put_element(&mut server, 0x02, "version", &string_value("8.0"));
    let server_doc = wrap_doc(server);
    let mut elements = Vec::new();
    put_element(&mut elements, 0x03, "serverStatus", &server_doc);
    put_element(&mut elements, 0x02, "ge\u{e4}ndert", &string_value("\u{65e5}\u{672c}\u{8a9e}"));
    let bytes = wrap_doc(elements);

    let (doc, end) = parse_document(&bytes, 0, MAX_DEPTH).unwrap();
    assert_eq!(end, bytes.len());
    let m = Metadata::from_reference_document(&doc).unwrap();
    assert_eq!(m.host, "h\u{e9}bergeur-1");
    match doc.get("ge\u{e4}ndert") {
        Some(BsonValue::Text(s)) => assert_eq!(s, "\u{65e5}\u{672c}\u{8a9e}"),
        other => panic!("unexpected value: {:?}", other),
    }
}

#[test]
fn invalid_utf8_text_is_malformed() {
    let mut elements = Vec::new();
    let mut bad = 2u32.to_le_bytes().to_vec();
    bad.push(0xff);
    bad.push(0);
    put_element(&mut elements, 0x02, "a", &bad);
    let bytes = wrap_doc(elements);
    assert!(parse_document(&bytes, 0, MAX_DEPTH).is_err());
}

#[test]
fn serialization_round_trips_through_the_parser() {
    let d = metadata_doc("h\u{f4}te-1");
    let bytes = serialize_document(&d);
    assert_eq!(bytes, doc_bytes_of(&d));

    let (parsed, end) = parse_document(&bytes, 0, MAX_DEPTH).unwrap();
    assert_eq!(end, bytes.len());
    assert_eq!(serialize_document(&parsed), bytes);
    assert_eq!(parsed.hostname().unwrap(), "h\u{f4}te-1");
}

