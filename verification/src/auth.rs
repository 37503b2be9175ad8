//! Request signing: header canonicalization, string-to-sign assembly, and
//! keyed-hash signature generation. The string-to-sign is a bit-exact
//! contract with the service; every byte here is pinned by the contracts.
use vstd::prelude::*;
use vstd::string::*;
use vstd::utf8::encode_utf8;

use crate::strutil::{
    bytes_eq, bytes_le, bytes_le_exec, bytes_starts_with, dec_chars, is_prefix_of, u64_to_string,
};

use hmac::KeyInit;
use hmac::Mac;

verus! {

/// One header as byte sequences: name and value.
pub type HB = (Seq<u8>, Seq<u8>);

/// The view of a header list as byte-sequence pairs.
pub open spec fn headers_bytes(v: Seq<(String, String)>) -> Seq<HB> {
    v.map_values(|p: (String, String)| (encode_utf8(p.0@), encode_utf8(p.1@)))
}

/// ASCII lower-casing of one byte.
pub open spec fn lower_byte(b: u8) -> u8 {
    if 65 <= b <= 90 {
        (b + 32) as u8
    } else {
        b
    }
}

/// ASCII lower-casing of a byte sequence.
pub open spec fn lower_bytes(s: Seq<u8>) -> Seq<u8> {
    s.map_values(|b: u8| lower_byte(b))
}

/// The provider prefix that selects a header into the signature.
pub open spec fn oss_prefix() -> Seq<u8> {
    encode_utf8("x-oss-"@)
}

/// Whether a lower-cased header name participates in signing.
pub open spec fn is_oss_name(lowered: Seq<u8>) -> bool {
    is_prefix_of(oss_prefix(), lowered)
}

/// The provider-prefixed headers of a header set, names lower-cased, in
/// their source order.
pub open spec fn select_oss(h: Seq<HB>) -> Seq<HB>
    decreases h.len(),
{
    if h.len() == 0 {
        Seq::empty()
    } else {
        let rest = select_oss(h.drop_last());
        let name = lower_bytes(h.last().0);
        if is_oss_name(name) {
            rest.push((name, h.last().1))
        } else {
            rest
        }
    }
}

/// The first position holding name `n`, or `-1`.
pub open spec fn find_name(s: Seq<HB>, n: Seq<u8>) -> int
    decreases s.len(),
{
    if s.len() == 0 {
        -1
    } else if s[0].0 == n {
        0
    } else {
        let r = find_name(s.drop_first(), n);
        if r < 0 {
            -1
        } else {
            r + 1
        }
    }
}

proof fn lemma_find_name(s: Seq<HB>, n: Seq<u8>)
    ensures
        find_name(s, n) < 0 ==> forall|m: int| 0 <= m < s.len() ==> (#[trigger] s[m]).0 != n,
        find_name(s, n) >= 0 ==> {
            &&& find_name(s, n) < s.len()
            &&& s[find_name(s, n)].0 == n
            &&& forall|m: int| 0 <= m < find_name(s, n) ==> (#[trigger] s[m]).0 != n
        },
    decreases s.len(),
{
    if s.len() > 0 && s[0].0 != n {
        lemma_find_name(s.drop_first(), n);
        assert(forall|m: int|
            1 <= m < s.len() ==> (#[trigger] s[m]) == s.drop_first()[m - 1]);
    }
}

proof fn lemma_find_name_at(s: Seq<HB>, n: Seq<u8>, j: int)
    requires
        0 <= j < s.len(),
        s[j].0 == n,
        forall|m: int| 0 <= m < j ==> (#[trigger] s[m]).0 != n,
    ensures
        find_name(s, n) == j,
    decreases s.len(),
{
    if j > 0 {
        assert(s[0].0 != n);
        assert(s.drop_first()[j - 1].0 == n);
        assert(forall|m: int|
            0 <= m < j - 1 ==> (#[trigger] s.drop_first()[m]) == s[m + 1]);
        lemma_find_name_at(s.drop_first(), n, j - 1);
    }
}

/// The comma byte that joins duplicate header values.
pub open spec fn comma() -> Seq<u8> {
    seq![44u8]
}

/// Adds one header to a merged list: a new name is appended, a repeated
/// name has its value comma-joined onto the entry already present.
pub open spec fn merge_one(acc: Seq<HB>, p: HB) -> Seq<HB> {
    let idx = find_name(acc, p.0);
    if idx >= 0 {
        acc.update(idx, (p.0, acc[idx].1 + comma() + p.1))
    } else {
        acc.push(p)
    }
}

/// Folds a header list into `acc`, merging duplicates in source order.
pub open spec fn merge_all(acc: Seq<HB>, rest: Seq<HB>) -> Seq<HB>
    decreases rest.len(),
{
    if rest.len() == 0 {
        acc
    } else {
        merge_all(merge_one(acc, rest[0]), rest.drop_first())
    }
}

proof fn lemma_merge_all_snoc(acc: Seq<HB>, r: Seq<HB>, x: HB)
    ensures
        merge_all(acc, r.push(x)) == merge_one(merge_all(acc, r), x),
    decreases r.len(),
{
    if r.len() == 0 {
        assert(r.push(x)[0] == x);
        assert(r.push(x).drop_first() =~= Seq::<HB>::empty());
        assert(merge_all(acc, r.push(x)) == merge_all(merge_one(acc, x), Seq::<HB>::empty()));
        assert(merge_all(merge_one(acc, x), Seq::<HB>::empty()) == merge_one(acc, x));
    } else {
        assert(r.push(x)[0] == r[0]);
        assert(r.push(x).drop_first() =~= r.drop_first().push(x));
        assert(merge_all(acc, r.push(x)) == merge_all(
            merge_one(acc, r[0]),
            r.drop_first().push(x),
        ));
        lemma_merge_all_snoc(merge_one(acc, r[0]), r.drop_first(), x);
    }
}

/// Inserts a header into a list from the back, before every entry whose
/// name compares strictly greater.
pub open spec fn hinsert(x: HB, s: Seq<HB>) -> Seq<HB>
    decreases s.len(),
{
    if s.len() == 0 {
        seq![x]
    } else if bytes_le(s.last().0, x.0) {
        s.push(x)
    } else {
        hinsert(x, s.drop_last()).push(s.last())
    }
}

/// Insertion sort of a header list by name.
pub open spec fn hsort(s: Seq<HB>) -> Seq<HB>
    decreases s.len(),
{
    if s.len() == 0 {
        Seq::empty()
    } else {
        hinsert(s.last(), hsort(s.drop_last()))
    }
}

/// The canonical header list of a header set: provider-prefixed entries,
/// lower-cased, duplicates merged in source order, sorted by name.
pub open spec fn canon_headers(h: Seq<HB>) -> Seq<HB> {
    hsort(merge_all(Seq::empty(), select_oss(h)))
}

/// The newline byte.
pub open spec fn nl() -> Seq<u8> {
    seq![10u8]
}

/// The canonicalized-headers block: every entry as `name:value` followed by
/// its own newline, nothing else.
pub open spec fn join_headers(s: Seq<HB>) -> Seq<u8>
    decreases s.len(),
{
    if s.len() == 0 {
        Seq::empty()
    } else {
        join_headers(s.drop_last()) + s.last().0 + seq![58u8] + s.last().1 + nl()
    }
}

/// The signature-relevant projection of a header set, as one byte block.
pub open spec fn canonical_headers_block(h: Seq<HB>) -> Seq<u8> {
    join_headers(canon_headers(h))
}

/// The canonicalized resource part of the string-to-sign:
/// `/bucket/object`, with `?resource` appended when a canonical resource
/// string is present.
pub open spec fn canon_resource(bucket: Seq<u8>, object: Seq<u8>, resource: Seq<u8>) -> Seq<u8> {
    let base = seq![47u8] + bucket + seq![47u8] + object;
    if resource.len() > 0 {
        base + seq![63u8] + resource
    } else {
        base
    }
}

/// The exact string-to-sign: verb, content hash, content type and date on
/// their own lines, then the canonicalized headers block (a bare newline
/// when no header is selected), then the canonicalized resource.
pub open spec fn sts_spec(
    verb: Seq<u8>,
    md5: Seq<u8>,
    ctype: Seq<u8>,
    date: Seq<u8>,
    headers: Seq<HB>,
    bucket: Seq<u8>,
    object: Seq<u8>,
    resource: Seq<u8>,
) -> Seq<u8> {
    let hb = canonical_headers_block(headers);
    verb + nl() + md5 + nl() + ctype + nl() + date + nl() + hb + (if hb.len() == 0 {
        nl()
    } else {
        Seq::empty()
    }) + canon_resource(bucket, object, resource)
}

fn lower_vec(name: &str) -> (r: Vec<u8>)
    ensures
        r@ == lower_bytes(name.spec_bytes()),
{
    let bs = name.as_bytes();
    let mut r: Vec<u8> = Vec::new();
    let mut i: usize = 0;
    proof {
        assert(r@ =~= lower_bytes(bs@.take(0)));
    }
    while i < bs.len()
        invariant
            i <= bs@.len(),
            bs@ == name.spec_bytes(),
            r@ == lower_bytes(bs@.take(i as int)),
        decreases bs@.len() - i,
    {
        let b = bs[i];
        if 65 <= b && b <= 90 {
            r.push(b + 32);
        } else {
            r.push(b);
        }
        proof {
            assert(lower_bytes(bs@.take(i + 1)) =~= lower_bytes(bs@.take(i as int)).push(
                lower_byte(bs@[i as int]),
            ));
        }
        i = i + 1;
    }
    proof {
        assert(bs@.take(bs@.len() as int) =~= bs@);
    }
    r
}

fn push_bytes(v: &mut Vec<u8>, s: &[u8])
    ensures
        final(v)@ == old(v)@ + s@,
{
    v.extend_from_slice(s);
}

/// The view of a byte-pair list.
pub open spec fn bpairs_view(v: Seq<(Vec<u8>, Vec<u8>)>) -> Seq<HB> {
    v.map_values(|p: (Vec<u8>, Vec<u8>)| (p.0@, p.1@))
}

fn hinsert_exec(v: &mut Vec<(Vec<u8>, Vec<u8>)>, x: (Vec<u8>, Vec<u8>))
    ensures
        bpairs_view(final(v)@) == hinsert((x.0@, x.1@), bpairs_view(old(v)@)),
{
    let ghost s = bpairs_view(v@);
    let ghost xv = (x.0@, x.1@);
    let mut k: usize = v.len();
    proof {
        assert(s.skip(s.len() as int) =~= Seq::empty());
        assert(s.take(s.len() as int) =~= s);
    }
    while k > 0 && !bytes_le_exec(v[k - 1].0.as_slice(), x.0.as_slice())
        invariant
            k <= s.len(),
            s == bpairs_view(v@),
            xv == (x.0@, x.1@),
            hinsert(xv, s) == hinsert(xv, s.take(k as int)) + s.skip(k as int),
        decreases k,
    {
        proof {
            let pre = s.take(k as int);
            assert(pre.drop_last() =~= s.take(k - 1));
            assert(pre.last() == s[k - 1]);
            assert(hinsert(xv, s.take(k - 1)).push(s[k - 1]) + s.skip(k as int) =~= hinsert(
                xv,
                s.take(k - 1),
            ) + s.skip(k - 1));
        }
        k = k - 1;
    }
    proof {
        let pre = s.take(k as int);
        if k > 0 {
            assert(pre.last() == s[k - 1]);
            assert(hinsert(xv, pre) =~= pre.push(xv));
        } else {
            assert(pre =~= Seq::<HB>::empty());
        }
        assert(hinsert(xv, s) =~= s.take(k as int).push(xv) + s.skip(k as int));
    }
    v.insert(k, x);
    proof {
        assert(bpairs_view(v@) =~= s.insert(k as int, xv));
        assert(s.insert(k as int, xv) =~= s.take(k as int).push(xv) + s.skip(k as int));
    }
}

/// Builds the canonicalized-headers block of a header set: the
/// provider-prefixed headers, names lower-cased, duplicates comma-merged in
/// source order, sorted by name, each entry rendered `name:value` with a
/// trailing newline.
pub fn canonicalized_headers(headers: &Vec<(String, String)>) -> (r: Vec<u8>)
    ensures
        r@ == canonical_headers_block(headers_bytes(headers@)),
{
    let ghost all = headers_bytes(headers@);
    // Select the signing-relevant headers, lower-casing names.
    let mut selected: Vec<(Vec<u8>, Vec<u8>)> = Vec::new();
    let mut i: usize = 0;
    proof {
        assert(all.take(0) =~= Seq::empty());
        assert(bpairs_view(selected@) =~= select_oss(all.take(0)));
    }
    while i < headers.len()
        invariant
            i <= all.len(),
            all == headers_bytes(headers@),
            bpairs_view(selected@) == select_oss(all.take(i as int)),
        decreases all.len() - i,
    {
        proof {
            assert(all.take(i + 1).drop_last() =~= all.take(i as int));
            assert(all.take(i + 1).last() == all[i as int]);
        }
        let lowered = lower_vec(headers[i].0.as_str());
        if bytes_starts_with(lowered.as_slice(), "x-oss-".as_bytes()) {
            let value = headers[i].1.as_str().as_bytes_vec();
            selected.push((lowered, value));
            proof {
                assert(bpairs_view(selected@) =~= select_oss(all.take(i as int)).push(
                    (lower_bytes(all[i as int].0), all[i as int].1),
                ));
            }
        }
        i = i + 1;
    }
    proof {
        assert(all.take(all.len() as int) =~= all);
    }
    let ghost sel = select_oss(all);
    // Merge duplicate names, comma-joining values in source order.
    let mut merged: Vec<(Vec<u8>, Vec<u8>)> = Vec::new();
    let mut j: usize = 0;
    proof {
        assert(sel.take(0) =~= Seq::empty());
    }
    while j < selected.len()
        invariant
            j <= sel.len(),
            sel == bpairs_view(selected@),
            bpairs_view(merged@) == merge_all(Seq::empty(), sel.take(j as int)),
        decreases sel.len() - j,
    {
        let ghost mv = bpairs_view(merged@);
        let ghost p = sel[j as int];
        let mut idx: usize = 0;
        let mut found = false;
        loop
            invariant
                idx <= mv.len(),
                mv == bpairs_view(merged@),
                sel == bpairs_view(selected@),
                j < sel.len(),
                p == sel[j as int],
                !found ==> forall|m: int| 0 <= m < idx ==> (#[trigger] mv[m]).0 != p.0,
                found ==> {
                    &&& idx < mv.len()
                    &&& mv[idx as int].0 == p.0
                    &&& forall|m: int| 0 <= m < idx ==> (#[trigger] mv[m]).0 != p.0
                },
            ensures
                found ==> {
                    &&& idx < mv.len()
                    &&& mv[idx as int].0 == p.0
                    &&& forall|m: int| 0 <= m < idx ==> (#[trigger] mv[m]).0 != p.0
                },
                !found ==> forall|m: int| 0 <= m < mv.len() ==> (#[trigger] mv[m]).0 != p.0,
            decreases mv.len() - idx,
        {
            if idx == merged.len() {
                break;
            }
            proof {
                assert(mv[idx as int] == (merged@[idx as int].0@, merged@[idx as int].1@));
                assert(p == (selected@[j as int].0@, selected@[j as int].1@));
            }
            if bytes_eq(merged[idx].0.as_slice(), selected[j].0.as_slice()) {
                found = true;
                break;
            }
            idx = idx + 1;
        }
        if found {
            proof {
                lemma_find_name_at(mv, p.0, idx as int);
                assert(mv[idx as int] == (merged@[idx as int].0@, merged@[idx as int].1@));
                assert(p == (selected@[j as int].0@, selected@[j as int].1@));
            }
            let mut newval = merged[idx].1.clone();
            newval.push(44u8);
            push_bytes(&mut newval, selected[j].1.as_slice());
            let name = merged[idx].0.clone();
            proof {
                assert(newval@ =~= mv[idx as int].1 + comma() + p.1);
                assert(name@ == p.0);
            }
            merged.remove(idx);
            merged.insert(idx, (name, newval));
            proof {
                assert(merge_one(mv, p) == mv.update(
                    idx as int,
                    (p.0, mv[idx as int].1 + comma() + p.1),
                ));
                assert(bpairs_view(merged@) =~= merge_one(mv, p));
            }
        } else {
            proof {
                lemma_find_name(mv, p.0);
                if find_name(mv, p.0) >= 0 {
                    assert(mv[find_name(mv, p.0)].0 == p.0);
                    assert(false);
                }
            }
            let name = selected[j].0.clone();
            let value = selected[j].1.clone();
            merged.push((name, value));
            proof {
                assert(bpairs_view(merged@) =~= merge_one(mv, p));
            }
        }
        proof {
            assert(sel.take(j + 1) =~= sel.take(j as int).push(p));
            lemma_merge_all_snoc(Seq::empty(), sel.take(j as int), p);
        }
        j = j + 1;
    }
    proof {
        assert(sel.take(sel.len() as int) =~= sel);
    }
    let ghost mrg = merge_all(Seq::empty(), sel);
    // Sort by name.
    let mut sorted: Vec<(Vec<u8>, Vec<u8>)> = Vec::new();
    let mut k: usize = 0;
    proof {
        assert(mrg.take(0) =~= Seq::empty());
        assert(bpairs_view(sorted@) =~= hsort(mrg.take(0)));
    }
    while k < merged.len()
        invariant
            k <= mrg.len(),
            mrg == bpairs_view(merged@),
            bpairs_view(sorted@) == hsort(mrg.take(k as int)),
        decreases mrg.len() - k,
    {
        proof {
            assert(mrg.take(k + 1).drop_last() =~= mrg.take(k as int));
            assert(mrg.take(k + 1).last() == mrg[k as int]);
        }
        let name = merged[k].0.clone();
        let value = merged[k].1.clone();
        hinsert_exec(&mut sorted, (name, value));
        k = k + 1;
    }
    proof {
        assert(mrg.take(mrg.len() as int) =~= mrg);
    }
    let ghost canon = canon_headers(all);
    // Join as `name:value\n` per entry.
    let mut out: Vec<u8> = Vec::new();
    let mut m: usize = 0;
    proof {
        assert(canon.take(0) =~= Seq::empty());
        assert(out@ =~= join_headers(canon.take(0)));
    }
    while m < sorted.len()
        invariant
            m <= canon.len(),
            canon == bpairs_view(sorted@),
            out@ == join_headers(canon.take(m as int)),
        decreases canon.len() - m,
    {
        proof {
            assert(canon.take(m + 1).drop_last() =~= canon.take(m as int));
            assert(canon.take(m + 1).last() == canon[m as int]);
        }
        push_bytes(&mut out, sorted[m].0.as_slice());
        out.push(58u8);
        push_bytes(&mut out, sorted[m].1.as_slice());
        out.push(10u8);
        proof {
            assert(out@ =~= join_headers(canon.take(m + 1)));
        }
        m = m + 1;
    }
    proof {
        assert(canon.take(canon.len() as int) =~= canon);
    }
    out
}

/// Assembles the exact string-to-sign from its parts.
pub fn string_to_sign(
    verb: &str,
    content_md5: &str,
    content_type: &str,
    date: &str,
    headers: &Vec<(String, String)>,
    bucket: &str,
    object: &str,
    resources: &str,
) -> (r: Vec<u8>)
    ensures
        r@ == sts_spec(
            verb.spec_bytes(),
            content_md5.spec_bytes(),
            content_type.spec_bytes(),
            date.spec_bytes(),
            headers_bytes(headers@),
            bucket.spec_bytes(),
            object.spec_bytes(),
            resources.spec_bytes(),
        ),
{
    let hb = canonicalized_headers(headers);
    let mut r: Vec<u8> = Vec::new();
    push_bytes(&mut r, verb.as_bytes());
    r.push(10u8);
    push_bytes(&mut r, content_md5.as_bytes());
    r.push(10u8);
    push_bytes(&mut r, content_type.as_bytes());
    r.push(10u8);
    push_bytes(&mut r, date.as_bytes());
    r.push(10u8);
    let empty_block = hb.is_empty();
    push_bytes(&mut r, hb.as_slice());
    if empty_block {
        r.push(10u8);
    }
    let ghost head = verb.spec_bytes() + nl() + content_md5.spec_bytes() + nl()
        + content_type.spec_bytes() + nl() + date.spec_bytes() + nl() + hb@ + (if hb@.len() == 0 {
        nl()
    } else {
        Seq::<u8>::empty()
    });
    proof {
        assert(r@ =~= head);
    }
    r.push(47u8);
    push_bytes(&mut r, bucket.as_bytes());
    r.push(47u8);
    push_bytes(&mut r, object.as_bytes());
    let ghost base = seq![47u8] + bucket.spec_bytes() + seq![47u8] + object.spec_bytes();
    proof {
        assert(r@ =~= head + base);
    }
    let ghost res = canon_resource(bucket.spec_bytes(), object.spec_bytes(), resources.spec_bytes());
    if !resources.is_empty() {
        proof {
            assert(encode_utf8(resources@) == vstd::utf8::encode_scalar(resources@[0] as u32)
                + encode_utf8(resources@.drop_first()));
            assert(resources.spec_bytes().len() > 0);
        }
        r.push(63u8);
        push_bytes(&mut r, resources.as_bytes());
        proof {
            assert(res == base + seq![63u8] + resources.spec_bytes());
            assert(r@ =~= head + res);
        }
    } else {
        proof {
            assert(resources@ =~= Seq::<char>::empty());
            assert(resources.spec_bytes().len() == 0);
            assert(res == base);
        }
    }
    proof {
        assert(head + res =~= sts_spec(
            verb.spec_bytes(),
            content_md5.spec_bytes(),
            content_type.spec_bytes(),
            date.spec_bytes(),
            headers_bytes(headers@),
            bucket.spec_bytes(),
            object.spec_bytes(),
            resources.spec_bytes(),
        ));
    }
    r
}

/// What the keyed hash returns for a key and a message.
pub uninterp spec fn hmac_sha1_of(key: Seq<u8>, msg: Seq<u8>) -> Seq<u8>;

/// Relies on `hmac::Hmac` over `sha1::Sha1` (HMAC with the SHA-1 digest):
/// the tag is a function of key and message alone. `new_from_slice` accepts
/// keys of any length for an HMAC instance, so it cannot fail here.
#[verifier::external_body]
fn hmac_sha1(key: &[u8], msg: &[u8]) -> (r: Vec<u8>)
    ensures
        r@ == hmac_sha1_of(key@, msg@),
{
    let mut mac = <hmac::Hmac<sha1::Sha1> as KeyInit>::new_from_slice(key)
        .expect("HMAC accepts keys of any length");
    mac.update(msg);
    mac.finalize().into_bytes().to_vec()
}

/// What standard base64 encoding returns for a byte sequence.
pub uninterp spec fn base64_of(bytes: Seq<u8>) -> Seq<char>;

/// Relies on base64's `STANDARD` engine: the standard alphabet with
/// padding; the encoding is a function of the input bytes alone.
#[verifier::external_body]
fn base64_encode(bytes: &[u8]) -> (r: String)
    ensures
        r@ == base64_of(bytes@),
{
    base64::Engine::encode(&base64::engine::general_purpose::STANDARD, bytes)
}

/// The signature over a string-to-sign: the keyed hash under the secret,
/// base64-encoded.
pub open spec fn signature_spec(secret: Seq<u8>, msg: Seq<u8>) -> Seq<char> {
    base64_of(hmac_sha1_of(secret, msg))
}

/// Computes the signature over an assembled string-to-sign.
pub fn sign_bytes(key_secret: &str, msg: &Vec<u8>) -> (r: String)
    ensures
        r@ == signature_spec(key_secret.spec_bytes(), msg@),
{
    let tag = hmac_sha1(key_secret.as_bytes(), msg.as_slice());
    base64_encode(tag.as_slice())
}

/// The `Authorization` value owed for a request: `OSS key_id:signature`
/// over the exact string-to-sign of the request's parts.
pub open spec fn auth_value_spec(
    verb: Seq<char>,
    key_id: Seq<char>,
    key_secret: Seq<char>,
    bucket: Seq<char>,
    object: Seq<char>,
    resource: Seq<char>,
    headers: Seq<HB>,
    date: Seq<char>,
) -> Seq<char> {
    "OSS "@ + key_id + ":"@ + signature_spec(
        encode_utf8(key_secret),
        sts_spec(
            encode_utf8(verb),
            Seq::empty(),
            Seq::empty(),
            encode_utf8(date),
            headers,
            encode_utf8(bucket),
            encode_utf8(object),
            encode_utf8(resource),
        ),
    )
}

/// Header-based signing: builds the string-to-sign from the verb, the date,
/// the given headers and the canonical resource, signs it with the secret,
/// and renders the `Authorization` value `OSS key_id:signature`.
pub fn oss_sign(
    verb: &str,
    key_id: &str,
    key_secret: &str,
    bucket: &str,
    object: &str,
    oss_resources: &str,
    headers: &Vec<(String, String)>,
    date: &str,
) -> (r: String)
    ensures
        r@ == auth_value_spec(
            verb@,
            key_id@,
            key_secret@,
            bucket@,
            object@,
            oss_resources@,
            headers_bytes(headers@),
            date@,
        ),
{
    let sts = string_to_sign(verb, "", "", date, headers, bucket, object, oss_resources);
    proof {
        reveal_strlit("");
        assert(""@ =~= Seq::<char>::empty());
        assert(encode_utf8(""@) =~= Seq::<u8>::empty());
    }
    let sig = sign_bytes(key_secret, &sts);
    let mut r = "OSS ".to_owned();
    r.append(key_id);
    r.append(":");
    r.append(sig.as_str());
    r
}

/// The presigned-URL query owed for a request: key id, expiry seconds and
/// the signature over the string-to-sign whose date line carries the expiry.
pub open spec fn url_sig_query_spec(
    verb: Seq<char>,
    key_id: Seq<char>,
    key_secret: Seq<char>,
    expires: u64,
    bucket: Seq<char>,
    object: Seq<char>,
    resource: Seq<char>,
    headers: Seq<HB>,
) -> Seq<char> {
    "OSSAccessKeyId="@ + key_id + "&Expires="@ + dec_chars(expires as nat) + "&Signature="@
        + signature_spec(
        encode_utf8(key_secret),
        sts_spec(
            encode_utf8(verb),
            Seq::empty(),
            Seq::empty(),
            encode_utf8(dec_chars(expires as nat)),
            headers,
            encode_utf8(bucket),
            encode_utf8(object),
            encode_utf8(resource),
        ),
    )
}

/// Presigned-URL signing: the expiry, an epoch second count, stands in the
/// date line of the string-to-sign; the key id, expiry and signature are
/// returned as URL query parameters. The signature is taken over the given
/// bytes as they stand; any escaping needed in a URL is the caller's.
pub fn oss_sign_url(
    verb: &str,
    key_id: &str,
    key_secret: &str,
    expires: u64,
    bucket: &str,
    object: &str,
    oss_resources: &str,
    headers: &Vec<(String, String)>,
) -> (r: String)
    ensures
        r@ == url_sig_query_spec(
            verb@,
            key_id@,
            key_secret@,
            expires,
            bucket@,
            object@,
            oss_resources@,
            headers_bytes(headers@),
        ),
{
    let expires_str = u64_to_string(expires);
    let sts = string_to_sign(
        verb,
        "",
        "",
        expires_str.as_str(),
        headers,
        bucket,
        object,
        oss_resources,
    );
    proof {
        reveal_strlit("");
        assert(""@ =~= Seq::<char>::empty());
        assert(encode_utf8(""@) =~= Seq::<u8>::empty());
    }
    let sig = sign_bytes(key_secret, &sts);
    let mut r = "OSSAccessKeyId=".to_owned();
    r.append(key_id);
    r.append("&Expires=");
    r.append(expires_str.as_str());
    r.append("&Signature=");
    r.append(sig.as_str());
    r
}

/// Law: signing is deterministic. The `Authorization` value is a function
/// of the explicit inputs alone — verb, credentials, addressing, canonical
/// resource, headers and date — so any two results that meet `oss_sign`'s
/// contract on the same inputs are character-for-character equal.
pub proof fn lemma_sign_deterministic(
    r1: Seq<char>,
    r2: Seq<char>,
    verb: Seq<char>,
    key_id: Seq<char>,
    key_secret: Seq<char>,
    bucket: Seq<char>,
    object: Seq<char>,
    resource: Seq<char>,
    headers: Seq<HB>,
    date: Seq<char>,
)
    requires
        r1 == auth_value_spec(verb, key_id, key_secret, bucket, object, resource, headers, date),
        r2 == auth_value_spec(verb, key_id, key_secret, bucket, object, resource, headers, date),
    ensures
        r1 == r2,
{
}

} // verus!
