//! The value types of the client API: listing options, put options, typed
//! responses, and the decoded listing page with its object summaries.
use vstd::prelude::*;
use vstd::string::*;

use crate::errors::Error;
use crate::params::{canon_params_str, get_params_str, params_view, Param};
use crate::strutil::{
    dec_chars, i32_to_string, lower_ascii, lower_chars, signed_dec_chars, str_eq, u64_to_string,
};
use crate::utils::{meta_prefix, pairs_view, to_meta_headers, to_meta_spec};

verus! {

/// A decoded object summary: every field holds its tag's text verbatim.
#[derive(Debug, Clone)]
pub struct DetailObjects {
    pub key: String,
    pub last_modified: String,
    pub e_tag: String,
    pub size: String,
}

/// The mathematical view of an object summary.
#[verifier::ext_equal]
pub struct ObjV {
    pub key: Seq<char>,
    pub last_modified: Seq<char>,
    pub e_tag: Seq<char>,
    pub size: Seq<char>,
}

impl View for DetailObjects {
    type V = ObjV;

    open spec fn view(&self) -> ObjV {
        ObjV {
            key: self.key@,
            last_modified: self.last_modified@,
            e_tag: self.e_tag@,
            size: self.size@,
        }
    }
}

/// One page of a detailed listing: the entries in document order, the
/// common prefixes, the truncation flag and the continuation token.
#[derive(Debug, Clone)]
pub struct ListDetailsResponse {
    pub is_truncated: bool,
    pub objects: Vec<DetailObjects>,
    pub prefixes: Vec<String>,
    pub next_marker: String,
}

/// The mathematical view of a listing page.
#[verifier::ext_equal]
pub struct ListingV {
    pub is_truncated: bool,
    pub objects: Seq<ObjV>,
    pub prefixes: Seq<Seq<char>>,
    pub next_marker: Seq<char>,
}

impl View for ListDetailsResponse {
    type V = ListingV;

    open spec fn view(&self) -> ListingV {
        ListingV {
            is_truncated: self.is_truncated,
            objects: self.objects@.map_values(|o: DetailObjects| o@),
            prefixes: self.prefixes@.map_values(|s: String| s@),
            next_marker: self.next_marker@,
        }
    }
}

/// Options of a listing call; `marker` threads a continuation token from
/// the previous page, the other fields narrow or shape the listing.
#[derive(Debug, Clone)]
pub struct ListOptions {
    pub prefix: String,
    pub marker: String,
    pub delimiter: String,
    pub max_keys: String,
}

/// A value usable as the `max-keys` option, rendered for the wire.
pub trait MaxKeys {
    /// The rendered form of this value.
    spec fn max_keys_spec(&self) -> Seq<char>;

    /// Renders the value as the wire string.
    fn into_max_keys(self) -> (r: String)
        ensures
            r@ == self.max_keys_spec(),
    ;
}

impl MaxKeys for i32 {
    open spec fn max_keys_spec(&self) -> Seq<char> {
        signed_dec_chars(*self as int)
    }

    fn into_max_keys(self) -> (r: String) {
        i32_to_string(self)
    }
}

impl MaxKeys for String {
    open spec fn max_keys_spec(&self) -> Seq<char> {
        self@
    }

    fn into_max_keys(self) -> (r: String) {
        self
    }
}

impl MaxKeys for &str {
    open spec fn max_keys_spec(&self) -> Seq<char> {
        self@
    }

    fn into_max_keys(self) -> (r: String) {
        self.to_owned()
    }
}

impl MaxKeys for Option<i32> {
    /// An absent value falls back to the service default of one thousand.
    open spec fn max_keys_spec(&self) -> Seq<char> {
        match self {
            Option::Some(v) => signed_dec_chars(*v as int),
            Option::None => dec_chars(1000),
        }
    }

    fn into_max_keys(self) -> (r: String) {
        match self {
            Option::Some(v) => i32_to_string(v),
            Option::None => u64_to_string(1000),
        }
    }
}

impl ListOptions {
    /// Builds listing options: an absent field stands empty, an absent
    /// max-keys value falls back to the service default.
    pub fn new<M: MaxKeys>(
        prefix: Option<String>,
        marker: Option<String>,
        delimiter: Option<String>,
        max_keys: M,
    ) -> (r: Self)
        ensures
            r.prefix@ == match prefix {
                Option::Some(s) => s@,
                Option::None => Seq::<char>::empty(),
            },
            r.marker@ == match marker {
                Option::Some(s) => s@,
                Option::None => Seq::<char>::empty(),
            },
            r.delimiter@ == match delimiter {
                Option::Some(s) => s@,
                Option::None => Seq::<char>::empty(),
            },
            r.max_keys@ == max_keys.max_keys_spec(),
    {
        proof {
            reveal_strlit("");
        }
        Self {
            prefix: match prefix {
                Option::Some(s) => s,
                Option::None => String::new(),
            },
            marker: match marker {
                Option::Some(s) => s,
                Option::None => String::new(),
            },
            delimiter: match delimiter {
                Option::Some(s) => s,
                Option::None => String::new(),
            },
            max_keys: max_keys.into_max_keys(),
        }
    }
}

/// Options of a put call: a content type, headers (user metadata already
/// under its prefix, then explicit extras), and the canonical resource
/// string of the call's query parameters.
#[derive(Debug, Clone)]
pub struct PutOptions {
    pub content_type: String,
    pub headers: Vec<(String, String)>,
    pub params: String,
}

/// Whether some header in `h` bears the name `n` after ASCII
/// case-folding; `n` is given already folded.
pub open spec fn has_name_ci(h: Seq<(Seq<char>, Seq<char>)>, n: Seq<char>) -> bool {
    exists|i: int| 0 <= i < h.len() && lower_chars((#[trigger] h[i]).0) == n
}

/// The metadata headers that survive merging under the explicit headers:
/// an explicit header bearing a metadata header's name (ASCII case aside)
/// overrides it, and the metadata entry is dropped.
pub open spec fn drop_overridden(
    m: Seq<(Seq<char>, Seq<char>)>,
    h: Seq<(Seq<char>, Seq<char>)>,
) -> Seq<(Seq<char>, Seq<char>)>
    decreases m.len(),
{
    if m.len() == 0 {
        Seq::empty()
    } else {
        let rest = drop_overridden(m.drop_last(), h);
        if has_name_ci(h, lower_chars(m.last().0)) {
            rest
        } else {
            rest.push(m.last())
        }
    }
}

impl PutOptions {
    /// Builds put options: metadata keys gain the metadata prefix with
    /// their case folded; explicit headers follow, and an explicit header
    /// bearing a metadata header's name (case aside) overrides it. The
    /// query parameters are reduced to their canonical resource string.
    pub fn new(
        content_type: &str,
        meta: Option<&Vec<(String, String)>>,
        headers: Option<&Vec<(String, String)>>,
        params: Option<&Vec<Param>>,
    ) -> (r: Self)
        ensures
            r.content_type@ == content_type@,
            pairs_view(r.headers@) == drop_overridden(
                match meta {
                    Option::Some(m) => to_meta_spec(pairs_view(m@)),
                    Option::None => Seq::<(Seq<char>, Seq<char>)>::empty(),
                },
                match headers {
                    Option::Some(h) => pairs_view(h@),
                    Option::None => Seq::<(Seq<char>, Seq<char>)>::empty(),
                },
            ) + (match headers {
                Option::Some(h) => pairs_view(h@),
                Option::None => Seq::<(Seq<char>, Seq<char>)>::empty(),
            }),
            r.params@ == match params {
                Option::Some(p) => canon_params_str(params_view(p@)),
                Option::None => Seq::<char>::empty(),
            },
    {
        let hm: Vec<(String, String)> = match meta {
            Option::Some(m) => to_meta_headers(m),
            Option::None => Vec::new(),
        };
        let empty_h: Vec<(String, String)> = Vec::new();
        let hr: &Vec<(String, String)> = match headers {
            Option::Some(h) => h,
            Option::None => &empty_h,
        };
        let ghost mv = pairs_view(hm@);
        let ghost hv = pairs_view(hr@);
        proof {
            if meta is None {
                assert(mv =~= Seq::<(Seq<char>, Seq<char>)>::empty());
            }
            if headers is None {
                assert(hv =~= Seq::<(Seq<char>, Seq<char>)>::empty());
            }
        }
        let mut kept: Vec<(String, String)> = Vec::new();
        let mut i: usize = 0;
        proof {
            assert(mv.take(0) =~= Seq::empty());
            assert(pairs_view(kept@) =~= drop_overridden(mv.take(0), hv));
        }
        while i < hm.len()
            invariant
                i <= mv.len(),
                mv == pairs_view(hm@),
                hv == pairs_view(hr@),
                pairs_view(kept@) == drop_overridden(mv.take(i as int), hv),
            decreases mv.len() - i,
        {
            proof {
                assert(mv[i as int] == (hm@[i as int].0@, hm@[i as int].1@));
            }
            let ghost nv = lower_chars(mv[i as int].0);
            let query = lower_ascii(hm[i].0.as_str());
            proof {
                assert(query@ == nv);
            }
            let mut j: usize = 0;
            let mut found = false;
            loop
                invariant_except_break
                    !found,
                    forall|m: int| 0 <= m < j ==> lower_chars((#[trigger] hv[m]).0) != nv,
                invariant
                    j <= hv.len(),
                    hv == pairs_view(hr@),
                    query@ == nv,
                ensures
                    found == has_name_ci(hv, nv),
                decreases hv.len() - j,
            {
                if j == hr.len() {
                    proof {
                        if has_name_ci(hv, nv) {
                            let w = choose|k: int|
                                0 <= k < hv.len() && lower_chars((#[trigger] hv[k]).0) == nv;
                            assert(false);
                        }
                    }
                    break;
                }
                proof {
                    assert(hv[j as int] == (hr@[j as int].0@, hr@[j as int].1@));
                }
                let folded = lower_ascii(hr[j].0.as_str());
                if str_eq(folded.as_str(), query.as_str()) {
                    found = true;
                    proof {
                        assert(lower_chars(hv[j as int].0) == nv);
                    }
                    break;
                }
                j = j + 1;
            }
            proof {
                assert(mv.take(i + 1).drop_last() =~= mv.take(i as int));
                assert(mv.take(i + 1).last() == mv[i as int]);
            }
            if !found {
                let ghost before = pairs_view(kept@);
                kept.push((hm[i].0.clone(), hm[i].1.clone()));
                proof {
                    assert(pairs_view(kept@) =~= before.push(mv[i as int]));
                }
            }
            proof {
                assert(pairs_view(kept@) =~= drop_overridden(mv.take(i + 1), hv));
            }
            i = i + 1;
        }
        proof {
            assert(mv.take(mv.len() as int) =~= mv);
        }
        let ghost base = pairs_view(kept@);
        let mut j: usize = 0;
        proof {
            assert(pairs_view(kept@) =~= base + hv.take(0));
        }
        while j < hr.len()
            invariant
                j <= hv.len(),
                hv == pairs_view(hr@),
                pairs_view(kept@) == base + hv.take(j as int),
            decreases hv.len() - j,
        {
            let ghost before = pairs_view(kept@);
            kept.push((hr[j].0.clone(), hr[j].1.clone()));
            proof {
                assert(pairs_view(kept@) =~= before.push((hr@[j as int].0@, hr@[j as int].1@)));
                assert(hv.take(j + 1) =~= hv.take(j as int).push(
                    (hr@[j as int].0@, hr@[j as int].1@),
                ));
                assert(pairs_view(kept@) =~= base + hv.take(j + 1));
            }
            j = j + 1;
        }
        proof {
            assert(hv.take(hv.len() as int) =~= hv);
        }
        let param_string = match params {
            Option::Some(p) => get_params_str(p),
            Option::None => String::new(),
        };
        proof {
            reveal_strlit("");
        }
        PutOptions { content_type: content_type.to_owned(), headers: kept, params: param_string }
    }
}

/// The first value under name `n` in a header list, the stored names
/// compared after ASCII case-folding; `n` is given already folded.
pub open spec fn lookup(h: Seq<(Seq<char>, Seq<char>)>, n: Seq<char>) -> Option<Seq<char>>
    decreases h.len(),
{
    if h.len() == 0 {
        Option::None
    } else if lower_chars(h[0].0) == n {
        Option::Some(h[0].1)
    } else {
        lookup(h.drop_first(), n)
    }
}

/// The metadata map that a header list yields for the requested keys: each
/// requested key in order, as given, paired with the value of its prefixed
/// header where one is present — the names matched without regard to ASCII
/// case, as header names fold on the wire.
pub open spec fn extract_meta_spec(
    h: Seq<(Seq<char>, Seq<char>)>,
    keys: Seq<Seq<char>>,
) -> Seq<(Seq<char>, Seq<char>)>
    decreases keys.len(),
{
    if keys.len() == 0 {
        Seq::empty()
    } else {
        let rest = extract_meta_spec(h, keys.drop_last());
        match lookup(h, meta_prefix() + lower_chars(keys.last())) {
            Option::Some(v) => rest.push((keys.last(), v)),
            Option::None => rest,
        }
    }
}

proof fn lemma_lookup_none(h: Seq<(Seq<char>, Seq<char>)>, n: Seq<char>)
    requires
        forall|m: int| 0 <= m < h.len() ==> lower_chars((#[trigger] h[m]).0) != n,
    ensures
        lookup(h, n) is None,
    decreases h.len(),
{
    if h.len() > 0 {
        assert(forall|m: int|
            0 <= m < h.drop_first().len() ==> (#[trigger] h.drop_first()[m]) == h[m + 1]);
        lemma_lookup_none(h.drop_first(), n);
    }
}

proof fn lemma_lookup_at(h: Seq<(Seq<char>, Seq<char>)>, n: Seq<char>, j: int)
    requires
        0 <= j < h.len(),
        lower_chars(h[j].0) == n,
        forall|m: int| 0 <= m < j ==> lower_chars((#[trigger] h[m]).0) != n,
    ensures
        lookup(h, n) == Option::Some(h[j].1),
    decreases h.len(),
{
    if j > 0 {
        assert(lower_chars(h[0].0) != n);
        assert(h.drop_first()[j - 1] == h[j]);
        assert(forall|m: int|
            0 <= m < j - 1 ==> (#[trigger] h.drop_first()[m]) == h[m + 1]);
        lemma_lookup_at(h.drop_first(), n, j - 1);
    }
}

/// Selects, for each requested metadata key, the value of its prefixed
/// header, in the order the keys were given; names are matched without
/// regard to ASCII case.
pub fn extract_meta(headers: &Vec<(String, String)>, meta_filter: &Vec<String>) -> (r: Vec<
    (String, String),
>)
    ensures
        pairs_view(r@) == extract_meta_spec(
            pairs_view(headers@),
            meta_filter@.map_values(|s: String| s@),
        ),
{
    let ghost h = pairs_view(headers@);
    let ghost keys = meta_filter@.map_values(|s: String| s@);
    let mut r: Vec<(String, String)> = Vec::new();
    let mut i: usize = 0;
    proof {
        assert(keys.take(0) =~= Seq::empty());
        assert(pairs_view(r@) =~= extract_meta_spec(h, keys.take(0)));
    }
    while i < meta_filter.len()
        invariant
            i <= keys.len(),
            h == pairs_view(headers@),
            keys == meta_filter@.map_values(|s: String| s@),
            pairs_view(r@) == extract_meta_spec(h, keys.take(i as int)),
        decreases keys.len() - i,
    {
        let mut wanted = crate::utils::OSS_META_PREFIX.to_owned();
        wanted.append(lower_ascii(meta_filter[i].as_str()).as_str());
        let ghost n = meta_prefix() + lower_chars(keys[i as int]);
        proof {
            assert(wanted@ == n);
        }
        let mut j: usize = 0;
        let mut found = false;
        let mut value = String::new();
        loop
            invariant_except_break
                !found,
                forall|m: int| 0 <= m < j ==> lower_chars((#[trigger] h[m]).0) != n,
            invariant
                j <= h.len(),
                h == pairs_view(headers@),
                wanted@ == n,
                found ==> lookup(h, n) == Option::Some(value@),
            ensures
                found ==> lookup(h, n) == Option::Some(value@),
                !found ==> lookup(h, n) is None,
            decreases h.len() - j,
        {
            if j == headers.len() {
                proof {
                    lemma_lookup_none(h, n);
                }
                break;
            }
            proof {
                assert(h[j as int] == (headers@[j as int].0@, headers@[j as int].1@));
            }
            let folded_name = lower_ascii(headers[j].0.as_str());
            if str_eq(folded_name.as_str(), wanted.as_str()) {
                value = headers[j].1.clone();
                found = true;
                proof {
                    lemma_lookup_at(h, n, j as int);
                }
                break;
            }
            j = j + 1;
        }
        if found {
            let key = meta_filter[i].clone();
            r.push((key, value));
        }
        proof {
            assert(keys.take(i + 1).drop_last() =~= keys.take(i as int));
            assert(keys.take(i + 1).last() == keys[i as int]);
            assert(pairs_view(r@) =~= extract_meta_spec(h, keys.take(i + 1)));
        }
        i = i + 1;
    }
    proof {
        assert(keys.take(keys.len() as int) =~= keys);
    }
    r
}

/// A get response with its body still as bytes.
#[derive(Debug, Clone)]
pub struct GetBufferedObjResponse {
    pub content: Vec<u8>,
    pub meta: Vec<(String, String)>,
    pub headers: Vec<(String, String)>,
}

impl GetBufferedObjResponse {
    /// Builds the response: keeps the body and headers, and reads out of
    /// the headers the requested metadata keys.
    pub fn new(content: Vec<u8>, headers: Vec<(String, String)>, meta_filter: &Vec<String>) -> (r:
        Self)
        ensures
            r.content@ == content@,
            pairs_view(r.headers@) == pairs_view(headers@),
            pairs_view(r.meta@) == extract_meta_spec(
                pairs_view(headers@),
                meta_filter@.map_values(|s: String| s@),
            ),
    {
        let meta = extract_meta(&headers, meta_filter);
        GetBufferedObjResponse { content, meta, headers }
    }

    /// Coerces the buffered body to text: the typed response when the body
    /// is valid UTF-8, a conversion error otherwise.
    pub fn into_response(self) -> (r: Result<GetObjResponse, Error>)
        ensures
            r is Ok <==> vstd::utf8::valid_utf8(self.content@),
            r matches Ok(g) ==> {
                &&& g.content@ == vstd::utf8::decode_utf8(self.content@)
                &&& pairs_view(g.meta@) == pairs_view(self.meta@)
                &&& pairs_view(g.headers@) == pairs_view(self.headers@)
            },
            r matches Err(e) ==> e matches Error::String(m) && m@
                == "response body is not valid UTF-8"@,
    {
        match utf8_to_string(self.content) {
            Option::Some(content) => Ok(
                GetObjResponse { content, meta: self.meta, headers: self.headers },
            ),
            Option::None => Err(Error::String("response body is not valid UTF-8".to_owned())),
        }
    }
}

/// Relies on `String::from_utf8`: it succeeds exactly on valid UTF-8 bytes
/// and decodes them to the characters they encode.
#[verifier::external_body]
fn utf8_to_string(v: Vec<u8>) -> (r: Option<String>)
    ensures
        r is Some <==> vstd::utf8::valid_utf8(v@),
        r matches Some(s) ==> s@ == vstd::utf8::decode_utf8(v@),
{
    String::from_utf8(v).ok()
}

/// A get response with its body coerced to text.
#[derive(Debug, Clone)]
pub struct GetObjResponse {
    pub content: String,
    pub meta: Vec<(String, String)>,
    pub headers: Vec<(String, String)>,
}

} // verus!
