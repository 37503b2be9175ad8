//! The client value and the request assembler: credentials and addressing,
//! the host URL, the listing query strings, and fully signed requests
//! (URL plus headers) ready to hand to a transport.
use vstd::prelude::*;
use vstd::string::*;

use crate::auth::{
    auth_value_spec, headers_bytes, oss_sign, oss_sign_url, url_sig_query_spec, HB,
};
use vstd::utf8::encode_utf8;
use crate::object::{ListOptions, PutOptions};
use crate::params::{canon_params_str, params_view, Param};
use crate::strutil::{dec_chars, is_prefix_of, starts_with_str, u64_to_string};
use crate::utils::pairs_view;

verus! {

/// A client: credentials, service endpoint and active bucket. The value is
/// immutable but for `set_bucket`; share one per logical target.
#[derive(Debug, Clone)]
pub struct OSS {
    key_id: String,
    key_secret: String,
    endpoint: String,
    bucket: String,
}

/// `s` without the prefix `p`, when `p` stands at its start.
pub open spec fn strip_prefix_if(p: Seq<char>, s: Seq<char>) -> Seq<char> {
    if is_prefix_of(p, s) {
        s.skip(p.len() as int)
    } else {
        s
    }
}

/// The fully addressed URL of a request:
/// `scheme://bucket.host/object?query`. The scheme is taken from the
/// endpoint (anything not naming `https` is sent over `http`), and the
/// query carries every caller-supplied parameter, not only the signed ones.
pub open spec fn host_spec(
    endpoint: Seq<char>,
    bucket: Seq<char>,
    object: Seq<char>,
    resources: Seq<char>,
) -> Seq<char> {
    if is_prefix_of("https"@, endpoint) {
        "https://"@ + bucket + "."@ + strip_prefix_if("https://"@, endpoint) + "/"@ + object + "?"@
            + resources
    } else {
        "http://"@ + bucket + "."@ + strip_prefix_if("http://"@, endpoint) + "/"@ + object + "?"@
            + resources
    }
}

/// The query string of a `list-type=2` listing call: every set option in
/// its place, values as given.
pub open spec fn list2_params_spec(
    prefix: Seq<char>,
    marker: Seq<char>,
    delimiter: Seq<char>,
    max_keys: Seq<char>,
) -> Seq<char> {
    "list-type=2"@ + (if marker.len() > 0 {
        "&continuation-token="@ + marker
    } else {
        Seq::<char>::empty()
    }) + (if delimiter.len() > 0 {
        "&delimiter="@ + delimiter
    } else {
        Seq::<char>::empty()
    }) + (if max_keys.len() > 0 {
        "&max-keys="@ + max_keys
    } else {
        Seq::<char>::empty()
    }) + (if prefix.len() > 0 {
        "&prefix="@ + prefix
    } else {
        Seq::<char>::empty()
    })
}

/// The part of a listing call that feeds the signature: the continuation
/// token alone, and nothing when there is none.
pub open spec fn list2_resources_spec(marker: Seq<char>) -> Seq<char> {
    if marker.len() > 0 {
        "continuation-token="@ + marker
    } else {
        Seq::<char>::empty()
    }
}

/// Whether a character is printable ASCII.
pub open spec fn printable_char(c: char) -> bool {
    let code = c as u32;
    32 <= code && code < 127
}

/// Whether every character is printable ASCII, fit for a header value.
pub open spec fn printable_ascii(s: Seq<char>) -> bool {
    forall|i: int| 0 <= i < s.len() ==> printable_char(#[trigger] s[i])
}

/// The header set of a signed request: the base headers, then `Date`, then
/// the `Authorization` value computed over base and date.
pub open spec fn signed_headers_spec(
    base: Seq<(Seq<char>, Seq<char>)>,
    date: Seq<char>,
    auth: Seq<char>,
) -> Seq<(Seq<char>, Seq<char>)> {
    base + seq![("Date"@, date), ("Authorization"@, auth)]
}

proof fn lemma_headers_bytes_from_pairs(a: Seq<(String, String)>, b: Seq<(String, String)>)
    requires
        pairs_view(a) == pairs_view(b),
    ensures
        headers_bytes(a) == headers_bytes(b),
{
    assert(pairs_view(a).len() == a.len());
    assert(pairs_view(b).len() == b.len());
    assert(a.len() == b.len());
    assert forall|i: int| 0 <= i < a.len() implies #[trigger] headers_bytes(a)[i]
        == headers_bytes(b)[i] by {
        assert(pairs_view(a)[i] == pairs_view(b)[i]);
        assert(a[i].0@ == b[i].0@);
        assert(a[i].1@ == b[i].1@);
        assert(headers_bytes(b)[i] == (encode_utf8(b[i].0@), encode_utf8(b[i].1@)));
    }
    assert(headers_bytes(a) =~= headers_bytes(b));
}

fn clone_pairs(v: &Vec<(String, String)>) -> (r: Vec<(String, String)>)
    ensures
        pairs_view(r@) == pairs_view(v@),
{
    let mut r: Vec<(String, String)> = Vec::new();
    let mut i: usize = 0;
    proof {
        assert(pairs_view(r@) =~= pairs_view(v@).take(0));
    }
    while i < v.len()
        invariant
            i <= v@.len(),
            pairs_view(r@) == pairs_view(v@).take(i as int),
        decreases v@.len() - i,
    {
        let ghost before = pairs_view(r@);
        r.push((v[i].0.clone(), v[i].1.clone()));
        proof {
            assert(pairs_view(r@) =~= before.push((v@[i as int].0@, v@[i as int].1@)));
            assert(pairs_view(v@).take(i + 1) =~= pairs_view(v@).take(i as int).push(
                (v@[i as int].0@, v@[i as int].1@),
            ));
            assert(pairs_view(r@) =~= pairs_view(v@).take(i + 1));
        }
        i = i + 1;
    }
    proof {
        assert(pairs_view(v@).take(v@.len() as int) =~= pairs_view(v@));
    }
    r
}

impl OSS {
    /// The client's key id.
    pub closed spec fn spec_key_id(&self) -> Seq<char> {
        self.key_id@
    }

    /// The client's key secret.
    pub closed spec fn spec_key_secret(&self) -> Seq<char> {
        self.key_secret@
    }

    /// The client's service endpoint.
    pub closed spec fn spec_endpoint(&self) -> Seq<char> {
        self.endpoint@
    }

    /// The client's active bucket.
    pub closed spec fn spec_bucket(&self) -> Seq<char> {
        self.bucket@
    }

    /// Builds a client for a credential pair, an endpoint and a bucket.
    pub fn new(key_id: String, key_secret: String, endpoint: String, bucket: String) -> (r: Self)
        ensures
            r.spec_key_id() == key_id@,
            r.spec_key_secret() == key_secret@,
            r.spec_endpoint() == endpoint@,
            r.spec_bucket() == bucket@,
    {
        OSS { key_id, key_secret, endpoint, bucket }
    }

    /// The active bucket.
    pub fn bucket(&self) -> (r: &str)
        ensures
            r@ == self.spec_bucket(),
    {
        self.bucket.as_str()
    }

    /// The service endpoint.
    pub fn endpoint(&self) -> (r: &str)
        ensures
            r@ == self.spec_endpoint(),
    {
        self.endpoint.as_str()
    }

    /// The key id.
    pub fn key_id(&self) -> (r: &str)
        ensures
            r@ == self.spec_key_id(),
    {
        self.key_id.as_str()
    }

    /// The key secret.
    pub fn key_secret(&self) -> (r: &str)
        ensures
            r@ == self.spec_key_secret(),
    {
        self.key_secret.as_str()
    }

    /// Swaps the active bucket; everything else stands.
    pub fn set_bucket(&mut self, bucket: String)
        ensures
            final(self).spec_bucket() == bucket@,
            final(self).spec_key_id() == old(self).spec_key_id(),
            final(self).spec_key_secret() == old(self).spec_key_secret(),
            final(self).spec_endpoint() == old(self).spec_endpoint(),
    {
        self.bucket = bucket;
    }

    /// Relies on chrono's `Utc::now` and `DateTime::format` with the fixed
    /// pattern `%a, %d %b %Y %T GMT`: the current wall-clock time rendered
    /// as an RFC-1123-style GMT timestamp. Nothing is assumed of the
    /// clock's value; what holds of every outcome is the rendering's
    /// material — day and month names, digits, spaces and punctuation, all
    /// printable ASCII, ending in ` GMT` — so the value is always fit for
    /// a header.
    #[verifier::external_body]
    pub fn date(&self) -> (r: String)
        ensures
            r@.len() > 4,
            printable_ascii(r@),
            r@.skip(r@.len() - 4) == " GMT"@,
    {
        chrono::Utc::now().format("%a, %d %b %Y %T GMT").to_string()
    }

    /// The fully addressed URL for a bucket, an object and a query string.
    /// Keys and parameters are inserted as given: any escaping a URL needs
    /// is the caller's responsibility.
    pub fn host(&self, bucket: &str, object: &str, resources_str: &str) -> (r: String)
        ensures
            r@ == host_spec(self.spec_endpoint(), bucket@, object@, resources_str@),
    {
        let https = starts_with_str(self.endpoint.as_str(), "https");
        let prefix: &str = if https {
            "https://"
        } else {
            "http://"
        };
        let plen = prefix.unicode_len();
        let stripped: &str = if starts_with_str(self.endpoint.as_str(), prefix) {
            let n = self.endpoint.as_str().unicode_len();
            self.endpoint.as_str().substring_char(plen, n)
        } else {
            self.endpoint.as_str()
        };
        proof {
            if https {
                assert(stripped@ =~= strip_prefix_if("https://"@, self.endpoint@));
            } else {
                assert(stripped@ =~= strip_prefix_if("http://"@, self.endpoint@));
            }
        }
        let mut r = prefix.to_owned();
        r.append(bucket);
        r.append(".");
        r.append(stripped);
        r.append("/");
        r.append(object);
        r.append("?");
        r.append(resources_str);
        r
    }

    /// The canonical resource string of a query-parameter mapping: the
    /// allow-listed entries, sorted by name, joined.
    pub fn get_params_str(params: &Vec<Param>) -> (r: String)
        ensures
            r@ == canon_params_str(params_view(params@)),
    {
        crate::params::get_params_str(params)
    }

    /// The canonical resource string of a query-parameter mapping.
    pub fn get_resources_str(&self, params: &Vec<Param>) -> (r: String)
        ensures
            r@ == canon_params_str(params_view(params@)),
    {
        crate::params::get_params_str(params)
    }

    /// The two query strings of a listing call: the full one for the URL,
    /// and the continuation-token part that feeds the signature.
    pub fn get_list_2_params_str(opts: &ListOptions) -> (r: (String, String))
        ensures
            r.0@ == list2_params_spec(
                opts.prefix@,
                opts.marker@,
                opts.delimiter@,
                opts.max_keys@,
            ),
            r.1@ == list2_resources_spec(opts.marker@),
    {
        let mut result = "list-type=2".to_owned();
        let mut resources = String::new();
        if !opts.marker.as_str().is_empty() {
            result.append("&continuation-token=");
            result.append(opts.marker.as_str());
            resources.append("continuation-token=");
            resources.append(opts.marker.as_str());
        }
        if !opts.delimiter.as_str().is_empty() {
            result.append("&delimiter=");
            result.append(opts.delimiter.as_str());
        }
        if !opts.max_keys.as_str().is_empty() {
            result.append("&max-keys=");
            result.append(opts.max_keys.as_str());
        }
        if !opts.prefix.as_str().is_empty() {
            result.append("&prefix=");
            result.append(opts.prefix.as_str());
        }
        proof {
            assert(result@ =~= list2_params_spec(
                opts.prefix@,
                opts.marker@,
                opts.delimiter@,
                opts.max_keys@,
            ));
            assert(resources@ =~= list2_resources_spec(opts.marker@));
        }
        (result, resources)
    }

    /// A presigned URL: the object's address carrying the key id, the
    /// expiry and the signature as query parameters, usable without
    /// credentials until the expiry.
    pub fn signiture_url(&self, object: &str, expires: u64, verb: &str) -> (r: String)
        ensures
            r@ == host_spec(
                self.spec_endpoint(),
                self.spec_bucket(),
                object@,
                url_sig_query_spec(
                    verb@,
                    self.spec_key_id(),
                    self.spec_key_secret(),
                    expires,
                    self.spec_bucket(),
                    object@,
                    Seq::<char>::empty(),
                    Seq::<HB>::empty(),
                ),
            ),
    {
        let headers: Vec<(String, String)> = Vec::new();
        let query = oss_sign_url(
            verb,
            self.key_id.as_str(),
            self.key_secret.as_str(),
            expires,
            self.bucket.as_str(),
            object,
            "",
            &headers,
        );
        proof {
            reveal_strlit("");
            assert(""@ =~= Seq::<char>::empty());
            assert(headers_bytes(headers@) =~= Seq::<HB>::empty());
        }
        self.host(self.bucket.as_str(), object, query.as_str())
    }

    /// Assembles a signed request without a body (fetch, delete, probe):
    /// the URL over all given query parameters, and the headers `Date` and
    /// `Authorization`, the latter signed over the canonical resource.
    pub fn plain_request(&self, verb: &str, object: &str, params: &Vec<Param>, date: &str) -> (r: (
        String,
        Vec<(String, String)>,
    ))
        ensures
            r.0@ == host_spec(
                self.spec_endpoint(),
                self.spec_bucket(),
                object@,
                canon_params_str(params_view(params@)),
            ),
            pairs_view(r.1@) == signed_headers_spec(
                Seq::<(Seq<char>, Seq<char>)>::empty(),
                date@,
                auth_value_spec(
                    verb@,
                    self.spec_key_id(),
                    self.spec_key_secret(),
                    self.spec_bucket(),
                    object@,
                    canon_params_str(params_view(params@)),
                    date_only_headers(date@),
                    date@,
                ),
            ),
    {
        let params_str = crate::params::get_params_str(params);
        let url = self.host(self.bucket.as_str(), object, params_str.as_str());
        let mut headers: Vec<(String, String)> = Vec::new();
        headers.push(("Date".to_owned(), date.to_owned()));
        proof {
            assert(pairs_view(headers@) =~= seq![("Date"@, date@)]);
            assert(headers_bytes(headers@) =~= date_only_headers(date@));
        }
        let auth = oss_sign(
            verb,
            self.key_id.as_str(),
            self.key_secret.as_str(),
            self.bucket.as_str(),
            object,
            params_str.as_str(),
            &headers,
            date,
        );
        let ghost hd = pairs_view(headers@);
        headers.push(("Authorization".to_owned(), auth));
        proof {
            assert(pairs_view(headers@) =~= hd.push(("Authorization"@, auth@)));
            assert(pairs_view(headers@) =~= signed_headers_spec(
                Seq::<(Seq<char>, Seq<char>)>::empty(),
                date@,
                auth_value_spec(
                    verb@,
                    self.spec_key_id(),
                    self.spec_key_secret(),
                    self.spec_bucket(),
                    object@,
                    canon_params_str(params_view(params@)),
                    date_only_headers(date@),
                    date@,
                ),
            ));
        }
        (url, headers)
    }
}

/// The header set a bodiless request carries into signing: its `Date`
/// alone, as byte pairs.
pub open spec fn date_only_headers(date: Seq<char>) -> Seq<HB> {
    seq![(encode_utf8("Date"@), encode_utf8(date))]
}

/// The header set a bodiless request with caller headers carries into
/// signing: those headers, then `Date`, as byte pairs.
pub open spec fn extra_sign_headers(base: Seq<(String, String)>, date: Seq<char>) -> Seq<HB> {
    headers_bytes(base) + date_only_headers(date)
}

impl OSS {
    /// Assembles a signed request without a body that carries
    /// caller-supplied headers: the URL over all given query parameters,
    /// and the caller's headers followed by `Date` and `Authorization`, the
    /// last signed over all of them.
    pub fn request_with_headers(
        &self,
        verb: &str,
        object: &str,
        params: &Vec<Param>,
        extra: &Vec<(String, String)>,
        date: &str,
    ) -> (r: (String, Vec<(String, String)>))
        ensures
            r.0@ == host_spec(
                self.spec_endpoint(),
                self.spec_bucket(),
                object@,
                canon_params_str(params_view(params@)),
            ),
            pairs_view(r.1@) == signed_headers_spec(
                pairs_view(extra@),
                date@,
                auth_value_spec(
                    verb@,
                    self.spec_key_id(),
                    self.spec_key_secret(),
                    self.spec_bucket(),
                    object@,
                    canon_params_str(params_view(params@)),
                    extra_sign_headers(extra@, date@),
                    date@,
                ),
            ),
    {
        let params_str = crate::params::get_params_str(params);
        let url = self.host(self.bucket.as_str(), object, params_str.as_str());
        let mut headers = clone_pairs(extra);
        let ghost cl0 = headers@;
        headers.push(("Date".to_owned(), date.to_owned()));
        proof {
            lemma_headers_bytes_from_pairs(cl0, extra@);
            assert(headers_bytes(headers@) =~= headers_bytes(cl0) + date_only_headers(date@)) by {
                assert(headers@.len() == cl0.len() + 1);
                assert(forall|i: int| 0 <= i < cl0.len() ==> headers@[i] == cl0[i]);
                assert(headers@[cl0.len() as int].0@ == "Date"@);
                assert(headers@[cl0.len() as int].1@ == date@);
            }
            assert(headers_bytes(headers@) =~= extra_sign_headers(extra@, date@));
            assert(pairs_view(headers@) =~= pairs_view(extra@).push(("Date"@, date@)));
        }
        let auth = oss_sign(
            verb,
            self.key_id.as_str(),
            self.key_secret.as_str(),
            self.bucket.as_str(),
            object,
            params_str.as_str(),
            &headers,
            date,
        );
        let ghost hd = pairs_view(headers@);
        headers.push(("Authorization".to_owned(), auth));
        proof {
            assert(pairs_view(headers@) =~= hd.push(("Authorization"@, auth@)));
            assert(pairs_view(headers@) =~= signed_headers_spec(
                pairs_view(extra@),
                date@,
                auth_value_spec(
                    verb@,
                    self.spec_key_id(),
                    self.spec_key_secret(),
                    self.spec_bucket(),
                    object@,
                    canon_params_str(params_view(params@)),
                    extra_sign_headers(extra@, date@),
                    date@,
                ),
            ));
        }
        (url, headers)
    }
}

/// The header set a put request carries into signing: the caller's headers,
/// then `Date` and `Content-Length`, as byte pairs.
pub open spec fn put_sign_headers(
    base: Seq<(String, String)>,
    date: Seq<char>,
    len_chars: Seq<char>,
) -> Seq<HB> {
    headers_bytes(base) + seq![
        (encode_utf8("Date"@), encode_utf8(date)),
        (encode_utf8("Content-Length"@), encode_utf8(len_chars)),
    ]
}

/// The caller-supplied header list of a put call.
pub open spec fn put_base_headers(opts: Option<&PutOptions>) -> Seq<(String, String)> {
    match opts {
        Option::Some(o) => o.headers@,
        Option::None => Seq::empty(),
    }
}

/// The canonical resource string of a put call.
pub open spec fn put_params(opts: Option<&PutOptions>) -> Seq<char> {
    match opts {
        Option::Some(o) => o.params@,
        Option::None => Seq::empty(),
    }
}

impl OSS {
    /// Assembles a signed put request for a body of the given length: the
    /// URL over the options' query parameters, and the options' headers
    /// followed by `Date`, `Content-Length` and `Authorization`, the last
    /// signed over all of them.
    pub fn put_request(
        &self,
        object: &str,
        opts: Option<&PutOptions>,
        content_len: usize,
        date: &str,
    ) -> (r: (String, Vec<(String, String)>))
        ensures
            r.0@ == host_spec(
                self.spec_endpoint(),
                self.spec_bucket(),
                object@,
                put_params(opts),
            ),
            pairs_view(r.1@) == pairs_view(put_base_headers(opts)) + seq![
                ("Date"@, date@),
                ("Content-Length"@, dec_chars(content_len as nat)),
                (
                    "Authorization"@,
                    auth_value_spec(
                        "PUT"@,
                        self.spec_key_id(),
                        self.spec_key_secret(),
                        self.spec_bucket(),
                        object@,
                        put_params(opts),
                        put_sign_headers(
                            put_base_headers(opts),
                            date@,
                            dec_chars(content_len as nat),
                        ),
                        date@,
                    ),
                ),
            ],
    {
        let (params, mut headers) = match opts {
            Option::Some(o) => (o.params.clone(), clone_pairs(&o.headers)),
            Option::None => (String::new(), Vec::new()),
        };
        proof {
            reveal_strlit("");
            assert(params@ == put_params(opts));
            assert(pairs_view(headers@) == pairs_view(put_base_headers(opts)));
        }
        let url = self.host(self.bucket.as_str(), object, params.as_str());
        let ghost cl0 = headers@;
        let len_str = u64_to_string(content_len as u64);
        headers.push(("Date".to_owned(), date.to_owned()));
        headers.push(("Content-Length".to_owned(), len_str));
        proof {
            lemma_headers_bytes_from_pairs(cl0, put_base_headers(opts));
            assert(headers_bytes(headers@) =~= headers_bytes(cl0) + seq![
                (encode_utf8("Date"@), encode_utf8(date@)),
                (encode_utf8("Content-Length"@), encode_utf8(dec_chars(content_len as nat))),
            ]) by {
                assert(headers@.len() == cl0.len() + 2);
                assert(forall|i: int| 0 <= i < cl0.len() ==> headers@[i] == cl0[i]);
                assert(headers@[cl0.len() as int].0@ == "Date"@);
                assert(headers@[cl0.len() as int].1@ == date@);
                assert(headers@[cl0.len() as int + 1].0@ == "Content-Length"@);
                assert(headers@[cl0.len() as int + 1].1@ == dec_chars(content_len as nat));
            }
            assert(headers_bytes(headers@) =~= put_sign_headers(
                put_base_headers(opts),
                date@,
                dec_chars(content_len as nat),
            ));
            assert(pairs_view(headers@) =~= pairs_view(put_base_headers(opts)) + seq![
                ("Date"@, date@),
                ("Content-Length"@, dec_chars(content_len as nat)),
            ]);
        }
        let auth = oss_sign(
            "PUT",
            self.key_id.as_str(),
            self.key_secret.as_str(),
            self.bucket.as_str(),
            object,
            params.as_str(),
            &headers,
            date,
        );
        let ghost h2 = pairs_view(headers@);
        headers.push(("Authorization".to_owned(), auth));
        proof {
            assert(pairs_view(headers@) =~= h2.push(("Authorization"@, auth@)));
            assert(pairs_view(headers@) =~= pairs_view(put_base_headers(opts)) + seq![
                ("Date"@, date@),
                ("Content-Length"@, dec_chars(content_len as nat)),
                (
                    "Authorization"@,
                    auth_value_spec(
                        "PUT"@,
                        self.spec_key_id(),
                        self.spec_key_secret(),
                        self.spec_bucket(),
                        object@,
                        put_params(opts),
                        put_sign_headers(
                            put_base_headers(opts),
                            date@,
                            dec_chars(content_len as nat),
                        ),
                        date@,
                    ),
                ),
            ]);
        }
        (url, headers)
    }

    /// Assembles a signed listing request: the URL over the full listing
    /// query string, the signature over the continuation-token part alone,
    /// and the headers `Date` and `Authorization`.
    pub fn list_request(&self, opts: &ListOptions, date: &str) -> (r: (
        String,
        Vec<(String, String)>,
    ))
        ensures
            r.0@ == host_spec(
                self.spec_endpoint(),
                self.spec_bucket(),
                Seq::<char>::empty(),
                list2_params_spec(opts.prefix@, opts.marker@, opts.delimiter@, opts.max_keys@),
            ),
            pairs_view(r.1@) == signed_headers_spec(
                Seq::<(Seq<char>, Seq<char>)>::empty(),
                date@,
                auth_value_spec(
                    "GET"@,
                    self.spec_key_id(),
                    self.spec_key_secret(),
                    self.spec_bucket(),
                    Seq::<char>::empty(),
                    list2_resources_spec(opts.marker@),
                    date_only_headers(date@),
                    date@,
                ),
            ),
    {
        let (params_str, resources) = Self::get_list_2_params_str(opts);
        proof {
            reveal_strlit("");
            assert(""@ =~= Seq::<char>::empty());
        }
        let url = self.host(self.bucket.as_str(), "", params_str.as_str());
        let mut headers: Vec<(String, String)> = Vec::new();
        headers.push(("Date".to_owned(), date.to_owned()));
        proof {
            assert(pairs_view(headers@) =~= seq![("Date"@, date@)]);
            assert(headers_bytes(headers@) =~= date_only_headers(date@));
        }
        let auth = oss_sign(
            "GET",
            self.key_id.as_str(),
            self.key_secret.as_str(),
            self.bucket.as_str(),
            "",
            resources.as_str(),
            &headers,
            date,
        );
        let ghost hd = pairs_view(headers@);
        headers.push(("Authorization".to_owned(), auth));
        proof {
            assert(pairs_view(headers@) =~= hd.push(("Authorization"@, auth@)));
            assert(pairs_view(headers@) =~= signed_headers_spec(
                Seq::<(Seq<char>, Seq<char>)>::empty(),
                date@,
                auth_value_spec(
                    "GET"@,
                    self.spec_key_id(),
                    self.spec_key_secret(),
                    self.spec_bucket(),
                    Seq::<char>::empty(),
                    list2_resources_spec(opts.marker@),
                    date_only_headers(date@),
                    date@,
                ),
            ));
        }
        (url, headers)
    }
}

} // verus!
