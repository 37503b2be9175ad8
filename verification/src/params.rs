//! The canonical resource filter: selects, from a query-parameter mapping,
//! the sub-resource names on a fixed allow-list, orders them by byte-wise
//! name comparison, and joins them into the string the signature covers.
use vstd::prelude::*;
use vstd::string::*;
use vstd::utf8::encode_utf8;

use crate::strutil::{bytes_le, bytes_le_exec, lemma_bytes_le_total, str_eq};

verus! {

/// One query parameter: a name, with or without a value.
pub type Param = (String, Option<String>);

/// The mathematical view of one query parameter.
pub type ParamV = (Seq<char>, Option<Seq<char>>);

/// The view of a query parameter.
pub open spec fn param_view(p: Param) -> ParamV {
    (
        p.0@,
        match p.1 {
            Option::Some(v) => Option::Some(v@),
            Option::None => Option::None,
        },
    )
}

/// The view of a query-parameter list.
pub open spec fn params_view(v: Seq<Param>) -> Seq<ParamV> {
    v.map_values(|p: Param| param_view(p))
}

/// Whether a parameter name is on the fixed allow-list of sub-resource
/// names that participate in signing.
pub open spec fn is_sub_resource(name: Seq<char>) -> bool {
    ||| name == "acl"@
    ||| name == "uploads"@
    ||| name == "location"@
    ||| name == "cors"@
    ||| name == "logging"@
    ||| name == "website"@
    ||| name == "referer"@
    ||| name == "lifecycle"@
    ||| name == "delete"@
    ||| name == "append"@
    ||| name == "tagging"@
    ||| name == "objectMeta"@
    ||| name == "uploadId"@
    ||| name == "partNumber"@
    ||| name == "security-token"@
    ||| name == "position"@
    ||| name == "img"@
    ||| name == "style"@
    ||| name == "styleName"@
    ||| name == "replication"@
    ||| name == "replicationProgress"@
    ||| name == "replicationLocation"@
    ||| name == "cname"@
    ||| name == "bucketInfo"@
    ||| name == "comp"@
    ||| name == "qos"@
    ||| name == "live"@
    ||| name == "status"@
    ||| name == "vod"@
    ||| name == "startTime"@
    ||| name == "endTime"@
    ||| name == "symlink"@
    ||| name == "x-oss-process"@
    ||| name == "response-content-type"@
    ||| name == "response-content-language"@
    ||| name == "response-expires"@
    ||| name == "response-cache-control"@
    ||| name == "response-content-disposition"@
    ||| name == "response-content-encoding"@
    ||| name == "udf"@
    ||| name == "udfName"@
    ||| name == "udfImage"@
    ||| name == "udfId"@
    ||| name == "udfImageDesc"@
    ||| name == "udfApplication"@
    ||| name == "udfApplicationLog"@
    ||| name == "restore"@
    ||| name == "callback"@
    ||| name == "callback-var"@
    ||| name == "continuation-token"@
}

/// Tests a parameter name against the allow-list.
pub fn is_sub_resource_exec(name: &str) -> (r: bool)
    ensures
        r == is_sub_resource(name@),
{
    str_eq(name, "acl") || str_eq(name, "uploads") || str_eq(name, "location") || str_eq(
        name,
        "cors",
    ) || str_eq(name, "logging") || str_eq(name, "website") || str_eq(name, "referer") || str_eq(
        name,
        "lifecycle",
    ) || str_eq(name, "delete") || str_eq(name, "append") || str_eq(name, "tagging") || str_eq(
        name,
        "objectMeta",
    ) || str_eq(name, "uploadId") || str_eq(name, "partNumber") || str_eq(name, "security-token")
        || str_eq(name, "position") || str_eq(name, "img") || str_eq(name, "style") || str_eq(
        name,
        "styleName",
    ) || str_eq(name, "replication") || str_eq(name, "replicationProgress") || str_eq(
        name,
        "replicationLocation",
    ) || str_eq(name, "cname") || str_eq(name, "bucketInfo") || str_eq(name, "comp") || str_eq(
        name,
        "qos",
    ) || str_eq(name, "live") || str_eq(name, "status") || str_eq(name, "vod") || str_eq(
        name,
        "startTime",
    ) || str_eq(name, "endTime") || str_eq(name, "symlink") || str_eq(name, "x-oss-process")
        || str_eq(name, "response-content-type") || str_eq(name, "response-content-language")
        || str_eq(name, "response-expires") || str_eq(name, "response-cache-control") || str_eq(
        name,
        "response-content-disposition",
    ) || str_eq(name, "response-content-encoding") || str_eq(name, "udf") || str_eq(
        name,
        "udfName",
    ) || str_eq(name, "udfImage") || str_eq(name, "udfId") || str_eq(name, "udfImageDesc")
        || str_eq(name, "udfApplication") || str_eq(name, "udfApplicationLog") || str_eq(
        name,
        "restore",
    ) || str_eq(name, "callback") || str_eq(name, "callback-var") || str_eq(
        name,
        "continuation-token",
    )
}

/// Byte-wise order on parameter names: the UTF-8 encoding of `a`'s name is
/// lexicographically at most that of `b`'s.
pub open spec fn param_le(a: ParamV, b: ParamV) -> bool {
    bytes_le(encode_utf8(a.0), encode_utf8(b.0))
}

/// The allow-listed subset of a parameter list, in its given order.
pub open spec fn filter_sub_resources(s: Seq<ParamV>) -> Seq<ParamV>
    decreases s.len(),
{
    if s.len() == 0 {
        Seq::empty()
    } else {
        let rest = filter_sub_resources(s.drop_last());
        if is_sub_resource(s.last().0) {
            rest.push(s.last())
        } else {
            rest
        }
    }
}

/// Inserts a parameter into a list from the back, before every entry whose
/// name compares strictly greater.
pub open spec fn insert_sorted(x: ParamV, s: Seq<ParamV>) -> Seq<ParamV>
    decreases s.len(),
{
    if s.len() == 0 {
        seq![x]
    } else if param_le(s.last(), x) {
        s.push(x)
    } else {
        insert_sorted(x, s.drop_last()).push(s.last())
    }
}

/// Insertion sort of a parameter list by byte-wise name order.
pub open spec fn sort_params(s: Seq<ParamV>) -> Seq<ParamV>
    decreases s.len(),
{
    if s.len() == 0 {
        Seq::empty()
    } else {
        insert_sorted(s.last(), sort_params(s.drop_last()))
    }
}

/// The signature-relevant projection of a query-parameter mapping: its
/// allow-listed entries, sorted by name.
pub open spec fn canon_params(s: Seq<ParamV>) -> Seq<ParamV> {
    sort_params(filter_sub_resources(s))
}

/// The text one parameter contributes: `name=value`, or the bare name for a
/// flag-style parameter without a value.
pub open spec fn param_str(p: ParamV) -> Seq<char> {
    match p.1 {
        Option::Some(v) => p.0 + "="@ + v,
        Option::None => p.0,
    }
}

/// The parameter texts joined with `&`.
pub open spec fn join_params(s: Seq<ParamV>) -> Seq<char>
    decreases s.len(),
{
    if s.len() == 0 {
        Seq::empty()
    } else if s.len() == 1 {
        param_str(s[0])
    } else {
        join_params(s.drop_last()) + "&"@ + param_str(s.last())
    }
}

/// The canonical resource string of a query-parameter mapping.
pub open spec fn canon_params_str(s: Seq<ParamV>) -> Seq<char> {
    join_params(canon_params(s))
}

/// Whether a parameter list is sorted by byte-wise name order.
pub open spec fn params_sorted(s: Seq<ParamV>) -> bool {
    forall|i: int, j: int| 0 <= i < j < s.len() ==> param_le(s[i], s[j])
}

proof fn lemma_bytes_le_trans(a: Seq<u8>, b: Seq<u8>, c: Seq<u8>)
    requires
        bytes_le(a, b),
        bytes_le(b, c),
    ensures
        bytes_le(a, c),
    decreases a.len(),
{
    if a.len() == 0 {
    } else {
        if b.len() == 0 {
        } else if c.len() == 0 {
        } else {
            if a[0] == b[0] && b[0] == c[0] {
                lemma_bytes_le_trans(a.drop_first(), b.drop_first(), c.drop_first());
            }
        }
    }
}

proof fn lemma_insert_sorted_elems(x: ParamV, s: Seq<ParamV>)
    ensures
        insert_sorted(x, s).len() == s.len() + 1,
        forall|k: int|
            0 <= k < insert_sorted(x, s).len() ==> (insert_sorted(x, s)[k] == x || s.contains(
                insert_sorted(x, s)[k],
            )),
    decreases s.len(),
{
    let out = insert_sorted(x, s);
    if s.len() == 0 {
    } else if param_le(s.last(), x) {
        assert forall|k: int| 0 <= k < out.len() implies (out[k] == x || s.contains(out[k])) by {
            if k < s.len() {
                assert(out[k] == s[k]);
            }
        }
    } else {
        let rec = insert_sorted(x, s.drop_last());
        lemma_insert_sorted_elems(x, s.drop_last());
        assert forall|k: int| 0 <= k < out.len() implies (out[k] == x || s.contains(out[k])) by {
            if k < rec.len() {
                assert(out[k] == rec[k]);
                if rec[k] != x {
                    let i = choose|i: int|
                        0 <= i < s.drop_last().len() && s.drop_last()[i] == rec[k];
                    assert(s[i] == rec[k]);
                }
            } else {
                assert(out[k] == s.last());
                assert(s[s.len() - 1] == s.last());
            }
        }
    }
}

proof fn lemma_insert_sorted_sorted(x: ParamV, s: Seq<ParamV>)
    requires
        params_sorted(s),
    ensures
        params_sorted(insert_sorted(x, s)),
    decreases s.len(),
{
    let out = insert_sorted(x, s);
    if s.len() == 0 {
    } else if param_le(s.last(), x) {
        assert forall|i: int, j: int| 0 <= i < j < out.len() implies param_le(out[i], out[j]) by {
            if j < s.len() {
            } else {
                assert(out[j] == x);
                assert(out[i] == s[i]);
                if i < s.len() - 1 {
                    assert(param_le(s[i], s[s.len() - 1]));
                    lemma_bytes_le_trans(
                        encode_utf8(s[i].0),
                        encode_utf8(s.last().0),
                        encode_utf8(x.0),
                    );
                }
            }
        }
    } else {
        let rec = insert_sorted(x, s.drop_last());
        assert(params_sorted(s.drop_last()));
        lemma_insert_sorted_sorted(x, s.drop_last());
        lemma_insert_sorted_elems(x, s.drop_last());
        lemma_bytes_le_total(encode_utf8(s.last().0), encode_utf8(x.0));
        assert forall|i: int, j: int| 0 <= i < j < out.len() implies param_le(out[i], out[j]) by {
            if j < rec.len() {
                assert(out[i] == rec[i] && out[j] == rec[j]);
            } else {
                assert(out[j] == s.last());
                assert(out[i] == rec[i]);
                if rec[i] == x {
                    assert(param_le(x, s.last()));
                } else {
                    let m = choose|m: int|
                        0 <= m < s.drop_last().len() && s.drop_last()[m] == rec[i];
                    assert(s[m] == rec[i]);
                    assert(param_le(s[m], s[s.len() - 1]));
                }
            }
        }
    }
}

proof fn lemma_sort_params_elems(s: Seq<ParamV>)
    ensures
        sort_params(s).len() == s.len(),
        forall|k: int| 0 <= k < sort_params(s).len() ==> s.contains(#[trigger] sort_params(s)[k]),
    decreases s.len(),
{
    if s.len() == 0 {
    } else {
        let rec = sort_params(s.drop_last());
        lemma_sort_params_elems(s.drop_last());
        lemma_insert_sorted_elems(s.last(), rec);
        assert forall|k: int| 0 <= k < sort_params(s).len() implies s.contains(
            #[trigger] sort_params(s)[k],
        ) by {
            let e = sort_params(s)[k];
            if e == s.last() {
                assert(s[s.len() - 1] == e);
            } else {
                assert(rec.contains(e));
                let m = choose|m: int| 0 <= m < rec.len() && rec[m] == e;
                let n = choose|n: int| 0 <= n < s.drop_last().len() && s.drop_last()[n] == e;
                assert(s[n] == e);
            }
        }
    }
}

proof fn lemma_filter_sub_resources_elems(s: Seq<ParamV>)
    ensures
        forall|k: int|
            0 <= k < filter_sub_resources(s).len() ==> is_sub_resource(
                (#[trigger] filter_sub_resources(s)[k]).0,
            ) && s.contains(filter_sub_resources(s)[k]),
    decreases s.len(),
{
    if s.len() == 0 {
    } else {
        lemma_filter_sub_resources_elems(s.drop_last());
        let out = filter_sub_resources(s);
        assert forall|k: int| 0 <= k < out.len() implies is_sub_resource((#[trigger] out[k]).0)
            && s.contains(out[k]) by {
            let rest = filter_sub_resources(s.drop_last());
            if k < rest.len() {
                assert(out[k] == rest[k]);
                let m = choose|m: int| 0 <= m < s.drop_last().len() && s.drop_last()[m] == rest[k];
                assert(s[m] == out[k]);
            } else {
                assert(out[k] == s.last());
                assert(s[s.len() - 1] == s.last());
            }
        }
    }
}

proof fn lemma_sort_params_sorted(s: Seq<ParamV>)
    ensures
        params_sorted(sort_params(s)),
    decreases s.len(),
{
    if s.len() > 0 {
        lemma_sort_params_sorted(s.drop_last());
        lemma_insert_sorted_sorted(s.last(), sort_params(s.drop_last()));
    }
}

/// Law: for any query-parameter mapping, the canonical resource projection
/// is sorted by byte-wise parameter-name comparison. It is a function of the
/// mapping alone, so repeated calls on the same mapping agree.
pub proof fn lemma_canonical_sorted(s: Seq<ParamV>)
    ensures
        params_sorted(canon_params(s)),
{
    lemma_sort_params_sorted(filter_sub_resources(s));
}

/// Law: every entry of the canonical resource projection bears an
/// allow-listed name and comes from the given mapping; nothing else enters
/// the string the signature covers.
pub proof fn lemma_canonical_allow_listed(s: Seq<ParamV>)
    ensures
        forall|k: int|
            0 <= k < canon_params(s).len() ==> is_sub_resource((#[trigger] canon_params(s)[k]).0)
                && s.contains(canon_params(s)[k]),
{
    let f = filter_sub_resources(s);
    lemma_filter_sub_resources_elems(s);
    lemma_sort_params_elems(f);
    assert forall|k: int| 0 <= k < canon_params(s).len() implies is_sub_resource(
        (#[trigger] canon_params(s)[k]).0,
    ) && s.contains(canon_params(s)[k]) by {
        let e = canon_params(s)[k];
        assert(f.contains(e));
        let m = choose|m: int| 0 <= m < f.len() && f[m] == e;
    }
}

fn insert_param(v: &mut Vec<Param>, x: Param)
    ensures
        params_view(final(v)@) == insert_sorted(param_view(x), params_view(old(v)@)),
{
    let ghost s = params_view(v@);
    let mut k: usize = v.len();
    proof {
        assert(s.skip(s.len() as int) =~= Seq::empty());
        assert(s.take(s.len() as int) =~= s);
    }
    while k > 0 && !bytes_le_exec(v[k - 1].0.as_str().as_bytes(), x.0.as_str().as_bytes())
        invariant
            k <= s.len(),
            s == params_view(v@),
            insert_sorted(param_view(x), s) == insert_sorted(param_view(x), s.take(k as int))
                + s.skip(k as int),
            k < s.len() ==> !param_le(s[k as int], param_view(x)),
        decreases k,
    {
        proof {
            let pre = s.take(k as int);
            assert(pre.drop_last() =~= s.take(k - 1));
            assert(pre.last() == s[k - 1]);
            assert(insert_sorted(param_view(x), s.take(k - 1)).push(s[k - 1]) + s.skip(k as int)
                =~= insert_sorted(param_view(x), s.take(k - 1)) + s.skip(k - 1));
        }
        k = k - 1;
    }
    proof {
        let pre = s.take(k as int);
        if k > 0 {
            assert(pre.last() == s[k - 1]);
            assert(insert_sorted(param_view(x), pre) =~= pre.push(param_view(x)));
        } else {
            assert(pre =~= Seq::<ParamV>::empty());
        }
        assert(insert_sorted(param_view(x), s) =~= s.take(k as int).push(param_view(x)) + s.skip(
            k as int,
        ));
    }
    let ghost xv = param_view(x);
    v.insert(k, x);
    proof {
        assert(params_view(v@) =~= s.insert(k as int, xv));
        assert(s.insert(k as int, xv) =~= s.take(k as int).push(xv) + s.skip(k as int));
    }
}

/// Builds the canonical resource string from a query-parameter mapping:
/// only allow-listed names are kept, sorted byte-wise by name, each entry
/// rendered as `name=value` (or the bare name), joined with `&`.
pub fn get_params_str(params: &Vec<Param>) -> (r: String)
    ensures
        r@ == canon_params_str(params_view(params@)),
{
    let ghost all = params_view(params@);
    let mut sorted: Vec<Param> = Vec::new();
    let mut i: usize = 0;
    proof {
        assert(all.take(0) =~= Seq::empty());
        assert(params_view(sorted@) =~= sort_params(filter_sub_resources(all.take(0))));
    }
    while i < params.len()
        invariant
            i <= all.len(),
            all == params_view(params@),
            params_view(sorted@) == sort_params(filter_sub_resources(all.take(i as int))),
        decreases all.len() - i,
    {
        proof {
            assert(all.take(i + 1).drop_last() =~= all.take(i as int));
            assert(all.take(i + 1).last() == all[i as int]);
        }
        if is_sub_resource_exec(params[i].0.as_str()) {
            let name = params[i].0.clone();
            let val = match &params[i].1 {
                Option::Some(v) => Option::Some(v.clone()),
                Option::None => Option::None,
            };
            insert_param(&mut sorted, (name, val));
            proof {
                assert(filter_sub_resources(all.take(i + 1)) =~= filter_sub_resources(
                    all.take(i as int),
                ).push(all[i as int]));
                assert(filter_sub_resources(all.take(i + 1)).drop_last() =~= filter_sub_resources(
                    all.take(i as int),
                ));
            }
        } else {
            proof {
                assert(filter_sub_resources(all.take(i + 1)) =~= filter_sub_resources(
                    all.take(i as int),
                ));
            }
        }
        i = i + 1;
    }
    proof {
        assert(all.take(all.len() as int) =~= all);
    }
    let ghost canon = canon_params(all);
    let mut result = String::new();
    let mut j: usize = 0;
    proof {
        assert(result@ =~= join_params(canon.take(0)));
    }
    while j < sorted.len()
        invariant
            j <= canon.len(),
            canon == params_view(sorted@),
            result@ == join_params(canon.take(j as int)),
        decreases canon.len() - j,
    {
        if j > 0 {
            result.append("&");
        }
        result.append(sorted[j].0.as_str());
        if let Option::Some(v) = &sorted[j].1 {
            result.append("=");
            result.append(v.as_str());
        }
        proof {
            assert(canon.take(j + 1).drop_last() =~= canon.take(j as int));
            assert(canon.take(j + 1).last() == canon[j as int]);
            if j == 0 {
                assert(canon.take(1)[0] == canon[0]);
            }
        }
        j = j + 1;
    }
    proof {
        assert(canon.take(canon.len() as int) =~= canon);
    }
    result
}

} // verus!
