//! User-metadata headers: a fixed header-name prefix marks user-defined
//! object metadata, prepended to caller keys on write and stripped from
//! response headers on read. Encoding and decoding are exact inverses.
use vstd::prelude::*;
use vstd::string::*;

use crate::strutil::{is_prefix_of, lower_ascii, lower_chars};

verus! {

/// The fixed header-name prefix that marks user metadata.
pub const OSS_META_PREFIX: &'static str = "x-oss-meta-";

/// The prefix as a character sequence.
pub open spec fn meta_prefix() -> Seq<char> {
    "x-oss-meta-"@
}

/// The view of a pair of strings.
pub open spec fn pair_view(p: (String, String)) -> (Seq<char>, Seq<char>) {
    (p.0@, p.1@)
}

/// The view of a header or metadata list.
pub open spec fn pairs_view(v: Seq<(String, String)>) -> Seq<(Seq<char>, Seq<char>)> {
    v.map_values(|p: (String, String)| pair_view(p))
}

/// A metadata map with its keys folded to lower case, as a header name
/// folds them.
pub open spec fn lower_keys(m: Seq<(Seq<char>, Seq<char>)>) -> Seq<(Seq<char>, Seq<char>)> {
    m.map_values(|p: (Seq<char>, Seq<char>)| (lower_chars(p.0), p.1))
}

/// The header list that carries a metadata map: each key gains the
/// metadata prefix and folds its ASCII letters to lower case, as a header
/// name does on the wire; each value stands unchanged, in the order given.
pub open spec fn to_meta_spec(m: Seq<(Seq<char>, Seq<char>)>) -> Seq<(Seq<char>, Seq<char>)>
    decreases m.len(),
{
    if m.len() == 0 {
        Seq::empty()
    } else {
        to_meta_spec(m.drop_last()).push((meta_prefix() + lower_chars(m.last().0), m.last().1))
    }
}

/// The metadata map carried by a header list: the pairs whose name starts
/// with the metadata prefix, with the prefix stripped, in the order given.
pub open spec fn from_meta_spec(h: Seq<(Seq<char>, Seq<char>)>) -> Seq<(Seq<char>, Seq<char>)>
    decreases h.len(),
{
    if h.len() == 0 {
        Seq::empty()
    } else {
        let rest = from_meta_spec(h.drop_last());
        let p = h.last();
        if is_prefix_of(meta_prefix(), p.0) {
            rest.push((p.0.skip(meta_prefix().len() as int), p.1))
        } else {
            rest
        }
    }
}

/// Turns a user metadata map into the headers that carry it on a request:
/// each name is the metadata prefix plus the case-folded key.
pub fn to_meta_headers(meta: &Vec<(String, String)>) -> (r: Vec<(String, String)>)
    ensures
        pairs_view(r@) == to_meta_spec(pairs_view(meta@)),
{
    let ghost m = pairs_view(meta@);
    let mut r: Vec<(String, String)> = Vec::new();
    let mut i: usize = 0;
    proof {
        assert(m.take(0) =~= Seq::empty());
        assert(pairs_view(r@) =~= to_meta_spec(m.take(0)));
    }
    while i < meta.len()
        invariant
            i <= meta@.len(),
            m == pairs_view(meta@),
            pairs_view(r@) == to_meta_spec(m.take(i as int)),
        decreases meta@.len() - i,
    {
        let mut key = OSS_META_PREFIX.to_owned();
        key.append(lower_ascii(meta[i].0.as_str()).as_str());
        let val = meta[i].1.clone();
        r.push((key, val));
        proof {
            assert(m.take(i + 1).drop_last() =~= m.take(i as int));
            assert(pairs_view(r@) =~= to_meta_spec(m.take(i + 1)));
        }
        i = i + 1;
    }
    proof {
        assert(m.take(meta@.len() as int) =~= m);
    }
    r
}

/// Reads the user metadata map out of a header list, keeping only the
/// entries under the metadata prefix and stripping it from their names.
pub fn meta_from_headers(headers: &Vec<(String, String)>) -> (r: Vec<(String, String)>)
    ensures
        pairs_view(r@) == from_meta_spec(pairs_view(headers@)),
{
    let ghost h = pairs_view(headers@);
    let mut r: Vec<(String, String)> = Vec::new();
    let mut i: usize = 0;
    proof {
        assert(h.take(0) =~= Seq::empty());
        assert(pairs_view(r@) =~= from_meta_spec(h.take(0)));
    }
    while i < headers.len()
        invariant
            i <= headers@.len(),
            h == pairs_view(headers@),
            pairs_view(r@) == from_meta_spec(h.take(i as int)),
        decreases headers@.len() - i,
    {
        let name = &headers[i].0;
        if crate::strutil::starts_with_str(name.as_str(), OSS_META_PREFIX) {
            proof {
                reveal_strlit("x-oss-meta-");
            }
            let n = name.unicode_len();
            let stripped = name.as_str().substring_char(11, n).to_owned();
            let val = headers[i].1.clone();
            r.push((stripped, val));
            proof {
                assert(stripped@ =~= name@.skip(meta_prefix().len() as int));
            }
        }
        proof {
            assert(h.take(i + 1).drop_last() =~= h.take(i as int));
            assert(pairs_view(r@) =~= from_meta_spec(h.take(i + 1)));
        }
        i = i + 1;
    }
    proof {
        assert(h.take(headers@.len() as int) =~= h);
    }
    r
}

/// Round trip: decoding the headers that encode a metadata map yields the
/// map itself with its keys case-folded — the folding the header names
/// already performed — entry for entry, whatever the map holds.
pub proof fn lemma_meta_round_trip(m: Seq<(Seq<char>, Seq<char>)>)
    ensures
        from_meta_spec(to_meta_spec(m)) == lower_keys(m),
    decreases m.len(),
{
    if m.len() == 0 {
        assert(from_meta_spec(to_meta_spec(m)) =~= lower_keys(m));
    } else {
        lemma_meta_round_trip(m.drop_last());
        let enc = to_meta_spec(m);
        let p = (meta_prefix() + lower_chars(m.last().0), m.last().1);
        assert(enc.drop_last() =~= to_meta_spec(m.drop_last()));
        assert(enc.last() == p);
        assert(is_prefix_of(meta_prefix(), p.0)) by {
            assert(p.0.take(meta_prefix().len() as int) =~= meta_prefix());
        }
        assert(p.0.skip(meta_prefix().len() as int) =~= lower_chars(m.last().0));
        assert(lower_keys(m).drop_last() =~= lower_keys(m.drop_last()));
        assert(lower_keys(m).last() == (lower_chars(m.last().0), m.last().1));
        assert(from_meta_spec(to_meta_spec(m)) =~= lower_keys(m));
    }
}

} // verus!
