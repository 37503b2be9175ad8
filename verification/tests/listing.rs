use oss_rust_sdk::{
    list_details_from_xml, list_objects_from_xml, meta_from_headers, read_all_events,
    to_meta_headers, Error, GetBufferedObjResponse, ListOptions, EV_EOF, OSS,
};

/// A page of a listing over a fixed backing key list: `max_keys` entries
/// from `start`, a truncation flag, and a continuation token naming the
/// next start index when the listing goes on.
fn page_xml(keys: &[&str], start: usize, max_keys: usize) -> String {
    let end = if start + max_keys < keys.len() {
        start + max_keys
    } else {
        keys.len()
    };
    let mut xml = String::from("<ListBucketResult>");
    for key in &keys[start..end] {
        xml.push_str(&format!(
            "<Contents><Key>{}</Key><LastModified>2024-01-01T00:00:00Z</LastModified><ETag>\"e-{}\"</ETag><Size>7</Size></Contents>",
            key, key
        ));
    }
    if end < keys.len() {
        xml.push_str("<IsTruncated>true</IsTruncated>");
        xml.push_str(&format!(
            "<NextContinuationToken>tok{}</NextContinuationToken>",
            end
        ));
    } else {
        xml.push_str("<IsTruncated>false</IsTruncated>");
    }
    xml.push_str("</ListBucketResult>");
    xml
}

const BACKING: &[&str] = &[
    "rust_oss_sdk_test_1",
    "rust_oss_sdk_test_2",
    "rust_oss_sdk_test_3",
    "rust_oss_sdk_test_4",
    "rust_oss_sdk_test_5",
];

#[test]
fn decode_yields_every_contents_block_in_order() {
    let xml = "<ListBucketResult>\
        <Contents><Key>a.txt</Key><LastModified>t1</LastModified><ETag>e1</ETag><Size>1</Size></Contents>\
        <Contents><Key>b.txt</Key><LastModified>t2</LastModified><ETag>e2</ETag><Size>22</Size></Contents>\
        <Contents><Key>c.txt</Key><LastModified>t3</LastModified><ETag>e3</ETag><Size>333</Size></Contents>\
        </ListBucketResult>";
    let page = list_details_from_xml(xml.as_bytes().to_vec()).unwrap();
    assert_eq!(page.objects.len(), 3);
    assert_eq!(page.objects[0].key, "a.txt");
    assert_eq!(page.objects[0].last_modified, "t1");
    assert_eq!(page.objects[0].e_tag, "e1");
    assert_eq!(page.objects[0].size, "1");
    assert_eq!(page.objects[1].key, "b.txt");
    assert_eq!(page.objects[2].key, "c.txt");
    assert_eq!(page.objects[2].size, "333");
    assert!(!page.is_truncated);
    assert_eq!(page.next_marker, "");
    assert_eq!(page.prefixes.len(), 0);
}

#[test]
fn decode_flat_key_list() {
    let xml = page_xml(BACKING, 0, 5);
    let keys = list_objects_from_xml(xml.as_bytes().to_vec()).unwrap();
    assert_eq!(keys, BACKING.to_vec());
}

#[test]
fn decode_truncation_and_token() {
    let xml = "<r><IsTruncated>true</IsTruncated>\
        <NextContinuationToken>T</NextContinuationToken></r>";
    let page = list_details_from_xml(xml.as_bytes().to_vec()).unwrap();
    assert!(page.is_truncated);
    assert_eq!(page.next_marker, "T");
    assert_eq!(page.objects.len(), 0);
}

#[test]
fn decode_common_prefixes() {
    let xml = "<r><CommonPrefixes><Prefix>photos/</Prefix></CommonPrefixes>\
        <CommonPrefixes><Prefix>videos/</Prefix></CommonPrefixes></r>";
    let page = list_details_from_xml(xml.as_bytes().to_vec()).unwrap();
    assert_eq!(page.prefixes, vec!["photos/".to_string(), "videos/".to_string()]);
}

#[test]
fn decode_ignores_unknown_tags() {
    let xml = "<ListBucketResult><Name>b</Name><MaxKeys>100</MaxKeys>\
        <Contents><Key>k</Key><Owner><ID>1</ID></Owner></Contents></ListBucketResult>";
    let page = list_details_from_xml(xml.as_bytes().to_vec()).unwrap();
    assert_eq!(page.objects.len(), 1);
    assert_eq!(page.objects[0].key, "k");
    assert_eq!(page.objects[0].e_tag, "");
}

#[test]
fn decode_rejects_bad_truncation_flag() {
    let xml = "<r><IsTruncated>maybe</IsTruncated></r>";
    let err = list_details_from_xml(xml.as_bytes().to_vec()).unwrap_err();
    assert!(matches!(err, Error::ParseBool(_)));
}

#[test]
fn decode_rejects_unclosed_container() {
    let xml = "<ListBucketResult><Contents><Key>a</Key>";
    let err = list_details_from_xml(xml.as_bytes().to_vec()).unwrap_err();
    assert!(matches!(err, Error::Qxml(_)));
    let err2 = list_objects_from_xml("<Key>a".as_bytes().to_vec()).unwrap_err();
    assert!(matches!(err2, Error::Qxml(_)));
}

#[test]
fn decode_empty_document() {
    let xml = "<ListBucketResult></ListBucketResult>";
    let page = list_details_from_xml(xml.as_bytes().to_vec()).unwrap();
    assert_eq!(page.objects.len(), 0);
    assert!(!page.is_truncated);
}

#[test]
fn pagination_follows_token_without_repeats() {
    // First page: two keys of five, truncated, with a token.
    let first = list_details_from_xml(page_xml(BACKING, 0, 2).as_bytes().to_vec()).unwrap();
    assert_eq!(first.objects.len(), 2);
    assert!(first.is_truncated);
    assert!(!first.next_marker.is_empty());

    // The caller threads the token back as the next call's marker.
    let opts = ListOptions::new(None, Some(first.next_marker.clone()), None, 5);
    let (params, resources) = OSS::get_list_2_params_str(&opts);
    assert_eq!(params, "list-type=2&continuation-token=tok2&max-keys=5");
    assert_eq!(resources, "continuation-token=tok2");

    // The backing list serves the page the token names.
    let start: usize = opts.marker.trim_start_matches("tok").parse().unwrap();
    let second = list_details_from_xml(page_xml(BACKING, start, 5).as_bytes().to_vec()).unwrap();
    assert_eq!(second.objects.len(), 3);
    assert!(!second.is_truncated);
    assert_eq!(second.next_marker, "");

    // No key of the first page returns on the second.
    for a in &first.objects {
        for b in &second.objects {
            assert_ne!(a.key, b.key);
        }
    }
    let mut all: Vec<String> = Vec::new();
    all.extend(first.objects.iter().map(|o| o.key.clone()));
    all.extend(second.objects.iter().map(|o| o.key.clone()));
    assert_eq!(all, BACKING.to_vec());
}

#[test]
fn meta_headers_round_trip() {
    let meta = vec![
        ("test-meta-key".to_string(), "test-meta-val".to_string()),
        ("length".to_string(), "23".to_string()),
    ];
    let headers = to_meta_headers(&meta);
    assert_eq!(headers[0].0, "x-oss-meta-test-meta-key");
    assert_eq!(headers[1].0, "x-oss-meta-length");
    assert_eq!(meta_from_headers(&headers), meta);
}

#[test]
fn meta_from_headers_skips_other_headers() {
    let headers = vec![
        ("Date".to_string(), "d".to_string()),
        ("x-oss-meta-a".to_string(), "1".to_string()),
        ("Content-Type".to_string(), "text/plain".to_string()),
    ];
    assert_eq!(
        meta_from_headers(&headers),
        vec![("a".to_string(), "1".to_string())]
    );
}

#[test]
fn buffered_response_extracts_requested_meta() {
    let headers = vec![
        ("x-oss-meta-test-meta-key".to_string(), "test-meta-val".to_string()),
        ("Content-Length".to_string(), "23".to_string()),
    ];
    let filter = vec!["test-meta-key".to_string(), "absent".to_string()];
    let resp = GetBufferedObjResponse::new(b"This is just a put test".to_vec(), headers, &filter);
    assert_eq!(
        resp.meta,
        vec![("test-meta-key".to_string(), "test-meta-val".to_string())]
    );
    let text = resp.into_response().unwrap();
    assert_eq!(text.content, "This is just a put test");
    assert_eq!(
        text.meta,
        vec![("test-meta-key".to_string(), "test-meta-val".to_string())]
    );
}

#[test]
fn buffered_response_rejects_invalid_utf8() {
    let resp = GetBufferedObjResponse::new(vec![0xff, 0xfe, 0x80], Vec::new(), &Vec::new());
    let err = resp.into_response().unwrap_err();
    assert!(matches!(err, Error::String(_)));
}

#[test]
fn event_stream_ends_with_end_of_document() {
    let evs = read_all_events("<a>x</a>".as_bytes().to_vec());
    assert!(evs.len() >= 3);
    assert_eq!(evs.last().unwrap().kind, EV_EOF);
    assert_eq!(evs[0].data, "a");
    assert_eq!(evs[1].data, "x");
}

#[test]
fn decode_resolves_entity_references() {
    let xml = "<r><Contents><Key>a&amp;b</Key><Size>1</Size></Contents></r>";
    let page = list_details_from_xml(xml.as_bytes().to_vec()).unwrap();
    assert_eq!(page.objects[0].key, "a&b");
    let xml2 = "<r><Contents><Key>&lt;k&gt;&apos;&quot;</Key></Contents></r>";
    let page2 = list_details_from_xml(xml2.as_bytes().to_vec()).unwrap();
    assert_eq!(page2.objects[0].key, "<k>'\"");
    let keys = list_objects_from_xml("<r><Key>p&amp;q</Key></r>".as_bytes().to_vec()).unwrap();
    assert_eq!(keys, vec!["p&q".to_string()]);
}

#[test]
fn decode_resolves_numeric_references() {
    let xml = "<r><Contents><Key>x&#38;y&#x26;z</Key></Contents></r>";
    let page = list_details_from_xml(xml.as_bytes().to_vec()).unwrap();
    assert_eq!(page.objects[0].key, "x&y&z");
}

#[test]
fn decode_keeps_text_around_references() {
    let xml = "<r><Contents><Key>a &amp; b</Key></Contents></r>";
    let page = list_details_from_xml(xml.as_bytes().to_vec()).unwrap();
    assert_eq!(page.objects[0].key, "a & b");
}

#[test]
fn decode_cdata_as_text() {
    let xml = "<r><Contents><Key><![CDATA[a<b&c]]></Key></Contents></r>";
    let page = list_details_from_xml(xml.as_bytes().to_vec()).unwrap();
    assert_eq!(page.objects[0].key, "a<b&c");
}

#[test]
fn decode_rejects_unresolvable_references() {
    let xml = "<r><Contents><Key>a&bogus;b</Key></Contents></r>";
    let err = list_details_from_xml(xml.as_bytes().to_vec()).unwrap_err();
    assert!(matches!(err, Error::Qxml(_)));
    let xml2 = "<r><Contents><Key>&#0;</Key></Contents></r>";
    let err2 = list_details_from_xml(xml2.as_bytes().to_vec()).unwrap_err();
    assert!(matches!(err2, Error::Qxml(_)));
    let xml3 = "<r><Contents><Key>&#xD800;</Key></Contents></r>";
    let err3 = list_details_from_xml(xml3.as_bytes().to_vec()).unwrap_err();
    assert!(matches!(err3, Error::Qxml(_)));
}

#[test]
fn references_outside_captured_fields_are_ignored() {
    let xml = "<r>&amp;<Contents><Key>k</Key></Contents></r>";
    let page = list_details_from_xml(xml.as_bytes().to_vec()).unwrap();
    assert_eq!(page.objects.len(), 1);
    assert_eq!(page.objects[0].key, "k");
}

#[test]
fn meta_keys_fold_case() {
    let meta = vec![("Test-Meta-KEY".to_string(), "v".to_string())];
    let headers = to_meta_headers(&meta);
    assert_eq!(
        headers,
        vec![("x-oss-meta-test-meta-key".to_string(), "v".to_string())]
    );
    assert_eq!(
        meta_from_headers(&headers),
        vec![("test-meta-key".to_string(), "v".to_string())]
    );
}

#[test]
fn meta_extraction_matches_without_case() {
    // The wire delivers the name lower-cased; the caller asks in mixed case.
    let headers = vec![("x-oss-meta-test-meta-key".to_string(), "test-meta-val".to_string())];
    let filter = vec!["Test-Meta-KEY".to_string()];
    let resp = GetBufferedObjResponse::new(Vec::new(), headers, &filter);
    assert_eq!(
        resp.meta,
        vec![("Test-Meta-KEY".to_string(), "test-meta-val".to_string())]
    );
}
