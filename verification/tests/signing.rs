use oss_rust_sdk::{
    canonicalized_headers, classify_status_error, get_params_str, i32_to_string, is_success,
    oss_sign, string_to_sign, u64_to_string, Error, ListOptions, MaxKeys, ObjectError, OpKind,
    PutOptions, OSS,
};

const DATE: &str = "Mon, 01 Jan 2024 00:00:00 GMT";

fn client() -> OSS {
    OSS::new(
        "id".to_string(),
        "secret".to_string(),
        "https://oss-cn.example.com".to_string(),
        "b".to_string(),
    )
}

#[test]
fn string_to_sign_fixed_inputs() {
    let headers: Vec<(String, String)> = Vec::new();
    let sts = string_to_sign("PUT", "", "", DATE, &headers, "b", "o.txt", "");
    assert_eq!(
        sts,
        b"PUT\n\n\nMon, 01 Jan 2024 00:00:00 GMT\n\n/b/o.txt".to_vec()
    );
}

#[test]
fn string_to_sign_with_resource_and_header() {
    let headers = vec![("X-OSS-Meta-A".to_string(), "1".to_string())];
    let sts = string_to_sign("GET", "", "", DATE, &headers, "b", "o.txt", "acl");
    assert_eq!(
        sts,
        b"GET\n\n\nMon, 01 Jan 2024 00:00:00 GMT\nx-oss-meta-a:1\n/b/o.txt?acl".to_vec()
    );
}

#[test]
fn sign_is_deterministic() {
    let headers: Vec<(String, String)> = Vec::new();
    let a = oss_sign("PUT", "id", "secret", "b", "o.txt", "", &headers, DATE);
    let b = oss_sign("PUT", "id", "secret", "b", "o.txt", "", &headers, DATE);
    assert_eq!(a, b);
}

#[test]
fn sign_known_value() {
    let headers: Vec<(String, String)> = Vec::new();
    let auth = oss_sign("PUT", "id", "secret", "b", "o.txt", "", &headers, DATE);
    assert_eq!(auth, "OSS id:hk4JByxqQ/RU7au/fC2ADrPEVgs=");
}

#[test]
fn sign_known_value_with_meta_header() {
    let headers = vec![("X-OSS-Meta-A".to_string(), "1".to_string())];
    let auth = oss_sign("PUT", "id", "secret", "b", "o.txt", "", &headers, DATE);
    assert_eq!(auth, "OSS id:3vhpkgNAPXLjMWHr/T4jHKKtqLo=");
}

#[test]
fn canonical_headers_merge_and_sort() {
    let headers = vec![
        ("X-OSS-Meta-B".to_string(), "2".to_string()),
        ("x-oss-meta-a".to_string(), "1".to_string()),
        ("x-oss-meta-b".to_string(), "1".to_string()),
        ("Content-Type".to_string(), "text/plain".to_string()),
    ];
    let block = canonicalized_headers(&headers);
    assert_eq!(block, b"x-oss-meta-a:1\nx-oss-meta-b:2,1\n".to_vec());
}

#[test]
fn canonical_headers_without_provider_headers_is_empty() {
    let headers = vec![
        ("Date".to_string(), DATE.to_string()),
        ("Content-Length".to_string(), "3".to_string()),
    ];
    assert_eq!(canonicalized_headers(&headers), Vec::<u8>::new());
}

#[test]
fn params_sorted_and_deterministic() {
    let params = vec![
        ("uploads".to_string(), None),
        ("restore".to_string(), None),
        ("acl".to_string(), Some("x".to_string())),
    ];
    let first = get_params_str(&params);
    let second = get_params_str(&params);
    assert_eq!(first, "acl=x&restore&uploads");
    assert_eq!(first, second);
}

#[test]
fn params_keep_only_allow_listed() {
    let params = vec![
        ("acl".to_string(), Some("a".to_string())),
        ("not-a-sub-resource".to_string(), Some("b".to_string())),
    ];
    assert_eq!(get_params_str(&params), "acl=a");
}

#[test]
fn params_flag_without_value() {
    let params = vec![("uploads".to_string(), None)];
    assert_eq!(get_params_str(&params), "uploads");
}

#[test]
fn host_builds_full_url() {
    let oss = client();
    let url = oss.host("b", "o.txt", "acl=x");
    assert_eq!(url, "https://b.oss-cn.example.com/o.txt?acl=x");
    let plain = OSS::new(
        "id".to_string(),
        "secret".to_string(),
        "http://oss.example.com".to_string(),
        "b".to_string(),
    );
    assert_eq!(
        plain.host("b", "o.txt", ""),
        "http://b.oss.example.com/o.txt?"
    );
}

#[test]
fn host_test() {
    let oss_instance = client();
    let s = oss_instance.host(
        oss_instance.bucket(),
        "test.txt",
        "response-content-type=text&response-cache-control=No-cache",
    );
    println!("{:?}", s);
}

#[test]
fn signiture_url_known_value() {
    let oss = client();
    let url = oss.signiture_url("o.txt", 1704067200, "GET");
    assert_eq!(
        url,
        "https://b.oss-cn.example.com/o.txt?OSSAccessKeyId=id&Expires=1704067200&Signature=JDgpymVUqjH4yuzGZdZWSmmdhVE="
    );
}

#[test]
fn plain_request_carries_date_and_authorization() {
    let oss = client();
    let params = vec![("acl".to_string(), None)];
    let (url, headers) = oss.plain_request("GET", "o.txt", &params, DATE);
    assert_eq!(url, "https://b.oss-cn.example.com/o.txt?acl");
    let empty: Vec<(String, String)> = Vec::new();
    let expected_auth = oss_sign("GET", "id", "secret", "b", "o.txt", "acl", &empty, DATE);
    assert_eq!(headers.len(), 2);
    assert_eq!(headers[0], ("Date".to_string(), DATE.to_string()));
    assert_eq!(headers[1].0, "Authorization");
    assert_eq!(headers[1].1, expected_auth);
}

#[test]
fn put_request_carries_length_and_base_headers() {
    let oss = client();
    let meta = vec![("k".to_string(), "v".to_string())];
    let opts = PutOptions::new("text/plain", Some(&meta), None, None);
    let (url, headers) = oss.put_request("o.txt", Some(&opts), 23, DATE);
    assert_eq!(url, "https://b.oss-cn.example.com/o.txt?");
    assert_eq!(headers[0], ("x-oss-meta-k".to_string(), "v".to_string()));
    assert_eq!(headers[1], ("Date".to_string(), DATE.to_string()));
    assert_eq!(headers[2], ("Content-Length".to_string(), "23".to_string()));
    assert_eq!(headers[3].0, "Authorization");
    assert!(headers[3].1.starts_with("OSS id:"));
}

#[test]
fn list_request_signs_continuation_token_only() {
    let oss = client();
    let opts = ListOptions::new(Some("p".to_string()), Some("tok".to_string()), None, 2);
    let (url, headers) = oss.list_request(&opts, DATE);
    assert_eq!(
        url,
        "https://b.oss-cn.example.com/?list-type=2&continuation-token=tok&max-keys=2&prefix=p"
    );
    let empty: Vec<(String, String)> = Vec::new();
    let expected_auth = oss_sign(
        "GET",
        "id",
        "secret",
        "b",
        "",
        "continuation-token=tok",
        &empty,
        DATE,
    );
    assert_eq!(headers[1].1, expected_auth);
}

#[test]
fn list_2_params_str_orders_options() {
    let opts = ListOptions::new(
        Some("pre".to_string()),
        Some("mk".to_string()),
        Some("/".to_string()),
        "7",
    );
    let (params, resources) = OSS::get_list_2_params_str(&opts);
    assert_eq!(
        params,
        "list-type=2&continuation-token=mk&delimiter=/&max-keys=7&prefix=pre"
    );
    assert_eq!(resources, "continuation-token=mk");
    let fresh = ListOptions::new(None, None, None, None::<i32>);
    let (params2, resources2) = OSS::get_list_2_params_str(&fresh);
    assert_eq!(params2, "list-type=2&max-keys=1000");
    assert_eq!(resources2, "");
}

#[test]
fn max_keys_renderings() {
    assert_eq!(2.into_max_keys(), "2");
    assert_eq!((-12).into_max_keys(), "-12");
    assert_eq!("7".into_max_keys(), "7");
    assert_eq!("9".to_string().into_max_keys(), "9");
    assert_eq!(Some(5).into_max_keys(), "5");
    assert_eq!(None::<i32>.into_max_keys(), "1000");
}

#[test]
fn number_renderings() {
    assert_eq!(u64_to_string(0), "0");
    assert_eq!(u64_to_string(1000), "1000");
    assert_eq!(u64_to_string(18446744073709551615), "18446744073709551615");
    assert_eq!(i32_to_string(-2147483648), "-2147483648");
    assert_eq!(i32_to_string(0), "0");
}

#[test]
fn classify_get_404_names_the_status() {
    let err = classify_status_error(OpKind::Get, 404);
    match err {
        Error::Object(ObjectError::GetError { msg }) => {
            assert!(msg.contains("404"));
            assert_eq!(msg, "can not get object, status code: 404");
        }
        other => panic!("wrong error: {:?}", other),
    }
}

#[test]
fn classify_covers_every_operation() {
    assert!(matches!(
        classify_status_error(OpKind::Put, 500),
        Error::Object(ObjectError::PutError { .. })
    ));
    assert!(matches!(
        classify_status_error(OpKind::Copy, 500),
        Error::Object(ObjectError::CopyError { .. })
    ));
    assert!(matches!(
        classify_status_error(OpKind::Delete, 500),
        Error::Object(ObjectError::DeleteError { .. })
    ));
    assert!(matches!(
        classify_status_error(OpKind::Head, 403),
        Error::Object(ObjectError::HeadError { .. })
    ));
}

#[test]
fn success_range_bounds() {
    assert!(is_success(200));
    assert!(is_success(299));
    assert!(!is_success(199));
    assert!(!is_success(300));
    assert!(!is_success(404));
}

#[test]
fn client_accessors_and_set_bucket() {
    let mut oss = client();
    assert_eq!(oss.key_id(), "id");
    assert_eq!(oss.key_secret(), "secret");
    assert_eq!(oss.endpoint(), "https://oss-cn.example.com");
    assert_eq!(oss.bucket(), "b");
    oss.set_bucket("other".to_string());
    assert_eq!(oss.bucket(), "other");
    assert_eq!(oss.key_id(), "id");
}

#[test]
fn put_options_merge_meta_and_headers() {
    let meta = vec![("test-meta-key".to_string(), "test-meta-val".to_string())];
    let extra = vec![("Cache-Control".to_string(), "no-cache".to_string())];
    let params = vec![
        ("acl".to_string(), Some("private".to_string())),
        ("ignored".to_string(), None),
    ];
    let opts = PutOptions::new("text/plain", Some(&meta), Some(&extra), Some(&params));
    assert_eq!(opts.content_type, "text/plain");
    assert_eq!(
        opts.headers,
        vec![
            (
                "x-oss-meta-test-meta-key".to_string(),
                "test-meta-val".to_string()
            ),
            ("Cache-Control".to_string(), "no-cache".to_string()),
        ]
    );
    assert_eq!(opts.params, "acl=private");
}

#[test]
fn request_with_headers_signs_caller_headers() {
    let oss = client();
    let extra = vec![("x-oss-meta-a".to_string(), "1".to_string())];
    let params: Vec<(String, Option<String>)> = Vec::new();
    let (url, headers) = oss.request_with_headers("GET", "o.txt", &params, &extra, DATE);
    assert_eq!(url, "https://b.oss-cn.example.com/o.txt?");
    assert_eq!(headers[0], ("x-oss-meta-a".to_string(), "1".to_string()));
    assert_eq!(headers[1], ("Date".to_string(), DATE.to_string()));
    let expected = oss_sign("GET", "id", "secret", "b", "o.txt", "", &extra, DATE);
    assert_eq!(headers[2].0, "Authorization");
    assert_eq!(headers[2].1, expected);
}

#[test]
fn put_options_explicit_header_overrides_meta() {
    let meta = vec![("a".to_string(), "1".to_string())];
    let extra = vec![("x-oss-meta-a".to_string(), "2".to_string())];
    let opts = PutOptions::new("text/plain", Some(&meta), Some(&extra), None);
    assert_eq!(
        opts.headers,
        vec![("x-oss-meta-a".to_string(), "2".to_string())]
    );
    // The override matches without regard to ASCII case.
    let shouty = vec![("X-OSS-Meta-A".to_string(), "3".to_string())];
    let opts2 = PutOptions::new("text/plain", Some(&meta), Some(&shouty), None);
    assert_eq!(
        opts2.headers,
        vec![("X-OSS-Meta-A".to_string(), "3".to_string())]
    );
}

#[test]
fn put_options_meta_keys_fold_case() {
    let meta = vec![("K".to_string(), "v".to_string())];
    let opts = PutOptions::new("text/plain", Some(&meta), None, None);
    assert_eq!(
        opts.headers,
        vec![("x-oss-meta-k".to_string(), "v".to_string())]
    );
}
