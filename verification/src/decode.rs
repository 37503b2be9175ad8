//! The streaming listing decoder: a forward-only state machine over start,
//! end, text and reference events that turns a listing document into a
//! typed page, or a flat key list. General references inside captured text
//! are resolved here: the five predefined XML entities and numeric
//! character references; an unresolvable reference, a malformed document
//! or an unparsable truncation flag aborts the decode with an error.
//! Unrecognized tags are passed over.
use vstd::prelude::*;
use vstd::string::*;

use crate::errors::Error;
use crate::object::{DetailObjects, ListDetailsResponse, ListingV, ObjV};
use crate::strutil::{char_from_u32, char_to_string, is_scalar_code, scalar_char, str_eq};
use crate::xmlev::{
    evs_view, read_all_events, xml_events, Ev, EV_END, EV_EOF, EV_ERROR, EV_OTHER, EV_REF,
    EV_START, EV_TEXT,
};

verus! {

/// The view of one event.
pub type EvV = (u8, Seq<char>);

/// Which container the decoder stands in.
#[derive(Debug, Clone, Copy, PartialEq, Eq, Structural)]
pub enum Mode {
    Idle,
    InContents,
    InPrefixes,
}

/// The field whose text the decoder is capturing.
#[derive(Debug, Clone, Copy, PartialEq, Eq, Structural)]
pub enum Target {
    Key,
    LastModified,
    ETag,
    Size,
    IsTruncated,
    NextMarker,
    Prefix,
}

/// Why a decode was aborted.
#[derive(Debug, Clone, Copy, PartialEq, Eq, Structural)]
pub enum DecErr {
    Malformed,
    BadBool,
}

/// The decoder's state: the container it stands in, the field being
/// captured with its text so far, the entry being accumulated, the page
/// built so far, and whether the decode has ended or failed.
#[verifier::ext_equal]
pub struct DecSt {
    pub mode: Mode,
    pub target: Option<Target>,
    pub text: Seq<char>,
    pub cur: ObjV,
    pub out: ListingV,
    pub done: bool,
    pub err: Option<DecErr>,
}

/// An object summary with every field empty.
pub open spec fn empty_obj() -> ObjV {
    ObjV {
        key: Seq::empty(),
        last_modified: Seq::empty(),
        e_tag: Seq::empty(),
        size: Seq::empty(),
    }
}

/// A listing page with nothing decoded yet.
pub open spec fn empty_listing() -> ListingV {
    ListingV {
        is_truncated: false,
        objects: Seq::empty(),
        prefixes: Seq::empty(),
        next_marker: Seq::empty(),
    }
}

/// The decoder's starting state.
pub open spec fn init_st() -> DecSt {
    DecSt {
        mode: Mode::Idle,
        target: None,
        text: Seq::empty(),
        cur: empty_obj(),
        out: empty_listing(),
        done: false,
        err: None,
    }
}

/// The value of one digit under a radix, or a negative number for a
/// character that is no such digit. Hex digits may bear either case.
pub open spec fn digit_val(c: char, radix: int) -> int {
    let code = c as u32;
    let v: int = if 48 <= code && code <= 57 {
        code - 48
    } else if 97 <= code && code <= 102 {
        code - 97 + 10
    } else if 65 <= code && code <= 70 {
        code - 65 + 10
    } else {
        -1
    };
    if 0 <= v < radix {
        v
    } else {
        -1
    }
}

/// Whether every character is a digit under the radix.
pub open spec fn all_digits(s: Seq<char>, radix: int) -> bool {
    forall|i: int| 0 <= i < s.len() ==> digit_val(#[trigger] s[i], radix) >= 0
}

/// The number a digit sequence denotes under a radix.
pub open spec fn digits_value(s: Seq<char>, radix: int) -> int
    decreases s.len(),
{
    if s.len() == 0 {
        0
    } else {
        digits_value(s.drop_last(), radix) * radix + digit_val(s.last(), radix)
    }
}

proof fn lemma_digits_value_nonneg(s: Seq<char>, radix: int)
    requires
        radix >= 1,
        all_digits(s, radix),
    ensures
        digits_value(s, radix) >= 0,
    decreases s.len(),
{
    if s.len() > 0 {
        assert(all_digits(s.drop_last(), radix)) by {
            assert(forall|i: int|
                0 <= i < s.drop_last().len() ==> (#[trigger] s.drop_last()[i]) == s[i]);
        }
        lemma_digits_value_nonneg(s.drop_last(), radix);
        let a = digits_value(s.drop_last(), radix);
        assert(s[s.len() - 1] == s.last());
        assert(a * radix >= 0) by (nonlinear_arith)
            requires
                a >= 0,
                radix >= 1,
        ;
    }
}

proof fn lemma_digits_value_prefix(s: Seq<char>, radix: int, i: int)
    requires
        radix >= 1,
        all_digits(s, radix),
        0 <= i <= s.len(),
    ensures
        digits_value(s.take(i), radix) <= digits_value(s, radix),
    decreases s.len() - i,
{
    if i < s.len() {
        lemma_digits_value_prefix(s, radix, i + 1);
        let a = digits_value(s.take(i), radix);
        assert(all_digits(s.take(i), radix)) by {
            assert(forall|m: int| 0 <= m < i ==> (#[trigger] s.take(i)[m]) == s[m]);
        }
        lemma_digits_value_nonneg(s.take(i), radix);
        assert(s.take(i + 1).drop_last() =~= s.take(i));
        assert(s.take(i + 1).last() == s[i]);
        assert(digit_val(s[i], radix) >= 0);
        assert(a * radix >= a) by (nonlinear_arith)
            requires
                a >= 0,
                radix >= 1,
        ;
    } else {
        assert(s.take(i) =~= s);
    }
}

fn digit_val_exec(c: char, radix: u32) -> (r: Option<u32>)
    requires
        radix == 10 || radix == 16,
    ensures
        (r is Some) == (digit_val(c, radix as int) >= 0),
        r matches Some(v) ==> v as int == digit_val(c, radix as int) && v < radix,
{
    let code = c as u32;
    let v: u32 = if 48 <= code && code <= 57 {
        code - 48
    } else if 97 <= code && code <= 102 {
        code - 97 + 10
    } else if 65 <= code && code <= 70 {
        code - 65 + 10
    } else {
        return None;
    };
    if v < radix {
        Some(v)
    } else {
        None
    }
}

fn parse_digits(s: &str, radix: u32) -> (r: Option<u32>)
    requires
        radix == 10 || radix == 16,
    ensures
        (r is Some) == (s@.len() > 0 && all_digits(s@, radix as int) && digits_value(
            s@,
            radix as int,
        ) <= 0x10FFFF),
        r matches Some(v) ==> v as int == digits_value(s@, radix as int),
{
    let n = s.unicode_len();
    if n == 0 {
        return None;
    }
    let mut value: u32 = 0;
    let mut i: usize = 0;
    proof {
        assert(s@.take(0) =~= Seq::<char>::empty());
    }
    while i < n
        invariant
            i <= n,
            n == s@.len(),
            radix == 10 || radix == 16,
            all_digits(s@.take(i as int), radix as int),
            value as int == digits_value(s@.take(i as int), radix as int),
            value <= 0x10FFFF,
        decreases n - i,
    {
        let c = s.get_char(i);
        proof {
            assert(s@.take(i + 1).drop_last() =~= s@.take(i as int));
            assert(s@.take(i + 1).last() == s@[i as int]);
        }
        match digit_val_exec(c, radix) {
            Some(d) => {
                let nv = value * radix + d;
                proof {
                    assert(forall|m: int|
                        0 <= m < i + 1 ==> (#[trigger] s@.take(i + 1)[m]) == s@[m]);
                    assert(all_digits(s@.take(i + 1), radix as int));
                }
                if nv > 0x10FFFF {
                    proof {
                        if all_digits(s@, radix as int) {
                            lemma_digits_value_prefix(s@, radix as int, i + 1);
                        }
                    }
                    return None;
                }
                value = nv;
            },
            None => {
                proof {
                    assert(digit_val(s@[i as int], radix as int) < 0);
                }
                return None;
            },
        }
        i = i + 1;
    }
    proof {
        assert(s@.take(n as int) =~= s@);
    }
    Some(value)
}

/// What a general reference resolves to: the five predefined XML entities,
/// or the character a numeric reference names, when that names a legal
/// nonzero scalar; any other reference fails the decode.
pub open spec fn ref_resolution(name: Seq<char>) -> Option<Seq<char>> {
    if name == "lt"@ {
        Some("<"@)
    } else if name == "gt"@ {
        Some(">"@)
    } else if name == "amp"@ {
        Some("&"@)
    } else if name == "apos"@ {
        Some("'"@)
    } else if name == "quot"@ {
        Some("\""@)
    } else if name.len() > 1 && name[0] == '#' {
        let hex = name[1] == 'x';
        let digits = if hex {
            name.skip(2)
        } else {
            name.skip(1)
        };
        let radix: int = if hex {
            16
        } else {
            10
        };
        let v = digits_value(digits, radix);
        if digits.len() > 0 && all_digits(digits, radix) && 0 < v <= 0x10FFFF && is_scalar_code(
            v as u32,
        ) {
            Some(seq![scalar_char(v as u32)])
        } else {
            None
        }
    } else {
        None
    }
}

fn resolve_reference(name: &str) -> (r: Option<String>)
    ensures
        (r is Some) == (ref_resolution(name@) is Some),
        r matches Some(t) ==> ref_resolution(name@) == Some(t@),
{
    proof {
        reveal_strlit("lt");
        reveal_strlit("gt");
        reveal_strlit("amp");
        reveal_strlit("apos");
        reveal_strlit("quot");
    }
    if str_eq(name, "lt") {
        return Some("<".to_owned());
    }
    if str_eq(name, "gt") {
        return Some(">".to_owned());
    }
    if str_eq(name, "amp") {
        return Some("&".to_owned());
    }
    if str_eq(name, "apos") {
        return Some("'".to_owned());
    }
    if str_eq(name, "quot") {
        return Some("\"".to_owned());
    }
    let n = name.unicode_len();
    if n > 1 && name.get_char(0) == '#' {
        let hex = name.get_char(1) == 'x';
        let (digits, radix) = if hex {
            (name.substring_char(2, n), 16u32)
        } else {
            (name.substring_char(1, n), 10u32)
        };
        proof {
            if hex {
                assert(digits@ =~= name@.skip(2));
            } else {
                assert(digits@ =~= name@.skip(1));
            }
        }
        match parse_digits(digits, radix) {
            Some(v) => {
                if v == 0 {
                    return None;
                }
                match char_from_u32(v) {
                    Some(c) => {
                        proof {
                            vstd::utf8::char_u32_cast(c, v);
                            assert(c == scalar_char(v));
                        }
                        Some(char_to_string(c))
                    },
                    None => None,
                }
            },
            None => None,
        }
    } else {
        None
    }
}

/// Commits captured text to its field: entry fields take the text
/// verbatim, the truncation flag must read `true` or `false`, the
/// continuation token is taken opaquely, a prefix joins the prefix list.
pub open spec fn commit(st: DecSt, t: Target) -> DecSt {
    let st1 = DecSt { target: None, text: Seq::empty(), ..st };
    match t {
        Target::Key => DecSt { cur: ObjV { key: st.text, ..st.cur }, ..st1 },
        Target::LastModified => DecSt { cur: ObjV { last_modified: st.text, ..st.cur }, ..st1 },
        Target::ETag => DecSt { cur: ObjV { e_tag: st.text, ..st.cur }, ..st1 },
        Target::Size => DecSt { cur: ObjV { size: st.text, ..st.cur }, ..st1 },
        Target::IsTruncated => {
            if st.text == "true"@ {
                DecSt { out: ListingV { is_truncated: true, ..st.out }, ..st1 }
            } else if st.text == "false"@ {
                DecSt { out: ListingV { is_truncated: false, ..st.out }, ..st1 }
            } else {
                DecSt { err: Some(DecErr::BadBool), ..st1 }
            }
        },
        Target::NextMarker => DecSt { out: ListingV { next_marker: st.text, ..st.out }, ..st1 },
        Target::Prefix => DecSt {
            out: ListingV { prefixes: st.out.prefixes.push(st.text), ..st.out },
            ..st1
        },
    }
}

/// One transition of the decoder on one event.
pub open spec fn step(st: DecSt, e: EvV) -> DecSt {
    if st.done || st.err is Some {
        st
    } else if e.0 == EV_ERROR {
        DecSt { err: Some(DecErr::Malformed), ..st }
    } else if e.0 == EV_EOF {
        if st.mode == Mode::Idle && st.target is None {
            DecSt { done: true, ..st }
        } else {
            DecSt { err: Some(DecErr::Malformed), ..st }
        }
    } else if e.0 == EV_START {
        let st1 = DecSt { target: None, text: Seq::empty(), ..st };
        match st.mode {
            Mode::Idle => {
                if e.1 == "Contents"@ {
                    DecSt { mode: Mode::InContents, cur: empty_obj(), ..st1 }
                } else if e.1 == "CommonPrefixes"@ {
                    DecSt { mode: Mode::InPrefixes, ..st1 }
                } else if e.1 == "IsTruncated"@ {
                    DecSt { target: Some(Target::IsTruncated), ..st1 }
                } else if e.1 == "NextContinuationToken"@ {
                    DecSt { target: Some(Target::NextMarker), ..st1 }
                } else {
                    st1
                }
            },
            Mode::InContents => {
                if e.1 == "Key"@ {
                    DecSt { target: Some(Target::Key), ..st1 }
                } else if e.1 == "LastModified"@ {
                    DecSt { target: Some(Target::LastModified), ..st1 }
                } else if e.1 == "ETag"@ {
                    DecSt { target: Some(Target::ETag), ..st1 }
                } else if e.1 == "Size"@ {
                    DecSt { target: Some(Target::Size), ..st1 }
                } else {
                    st1
                }
            },
            Mode::InPrefixes => {
                if e.1 == "Prefix"@ {
                    DecSt { target: Some(Target::Prefix), ..st1 }
                } else {
                    st1
                }
            },
        }
    } else if e.0 == EV_TEXT {
        if st.target is Some {
            DecSt { text: st.text + e.1, ..st }
        } else {
            st
        }
    } else if e.0 == EV_REF {
        if st.target is Some {
            match ref_resolution(e.1) {
                Some(t) => DecSt { text: st.text + t, ..st },
                None => DecSt { err: Some(DecErr::Malformed), ..st },
            }
        } else {
            st
        }
    } else if e.0 == EV_END {
        match st.target {
            Some(t) => commit(st, t),
            None => {
                if st.mode == Mode::InContents && e.1 == "Contents"@ {
                    DecSt {
                        mode: Mode::Idle,
                        cur: empty_obj(),
                        out: ListingV { objects: st.out.objects.push(st.cur), ..st.out },
                        ..st
                    }
                } else if st.mode == Mode::InPrefixes && e.1 == "CommonPrefixes"@ {
                    DecSt { mode: Mode::Idle, ..st }
                } else {
                    st
                }
            },
        }
    } else {
        st
    }
}

/// The decoder run over an event sequence from a given state.
pub open spec fn run_from(st: DecSt, evs: Seq<EvV>) -> DecSt
    decreases evs.len(),
{
    if evs.len() == 0 {
        st
    } else {
        run_from(step(st, evs[0]), evs.drop_first())
    }
}

proof fn lemma_run_from_snoc(st: DecSt, s: Seq<EvV>, x: EvV)
    ensures
        run_from(st, s.push(x)) == step(run_from(st, s), x),
    decreases s.len(),
{
    if s.len() == 0 {
        assert(s.push(x)[0] == x);
        assert(s.push(x).drop_first() =~= Seq::<EvV>::empty());
        assert(run_from(st, s.push(x)) == run_from(step(st, x), Seq::<EvV>::empty()));
    } else {
        assert(s.push(x)[0] == s[0]);
        assert(s.push(x).drop_first() =~= s.drop_first().push(x));
        assert(run_from(st, s.push(x)) == run_from(step(st, s[0]), s.drop_first().push(x)));
        lemma_run_from_snoc(step(st, s[0]), s.drop_first(), x);
    }
}

/// What a whole event stream decodes to: the page, when the stream ran to
/// its end-of-document in no open container; the reason, when it aborted.
/// A stream that stops short of any end-of-document is malformed.
pub open spec fn listing_result(evs: Seq<EvV>) -> Result<ListingV, DecErr> {
    let st = run_from(init_st(), evs);
    if st.err is Some {
        Err(st.err.unwrap())
    } else if st.done {
        Ok(st.out)
    } else {
        Err(DecErr::Malformed)
    }
}

/// Whether `e` is the library error owed for an aborted decode.
pub open spec fn decode_err_matches(e: Error, de: DecErr) -> bool {
    match de {
        DecErr::Malformed => e matches Error::Qxml(m) && m@ == "malformed listing document"@,
        DecErr::BadBool => e matches Error::ParseBool(m) && m@
            == "invalid boolean in listing document"@,
    }
}

struct Dec {
    mode: Mode,
    target: Option<Target>,
    text: String,
    cur: DetailObjects,
    out: ListDetailsResponse,
    done: bool,
    err: Option<DecErr>,
}

impl View for Dec {
    type V = DecSt;

    closed spec fn view(&self) -> DecSt {
        DecSt {
            mode: self.mode,
            target: self.target,
            text: self.text@,
            cur: self.cur@,
            out: self.out@,
            done: self.done,
            err: self.err,
        }
    }
}

fn empty_obj_exec() -> (r: DetailObjects)
    ensures
        r@ == empty_obj(),
{
    let r = DetailObjects {
        key: String::new(),
        last_modified: String::new(),
        e_tag: String::new(),
        size: String::new(),
    };
    proof {
        assert(r@ =~= empty_obj());
    }
    r
}

fn commit_exec(d: &mut Dec, t: Target)
    requires
        old(d)@.target == Some(t),
    ensures
        final(d)@ == commit(old(d)@, t),
{
    let ghost st = old(d)@;
    match t {
        Target::Key => {
            d.cur.key = d.text.clone();
        },
        Target::LastModified => {
            d.cur.last_modified = d.text.clone();
        },
        Target::ETag => {
            d.cur.e_tag = d.text.clone();
        },
        Target::Size => {
            d.cur.size = d.text.clone();
        },
        Target::IsTruncated => {
            if str_eq(d.text.as_str(), "true") {
                d.out.is_truncated = true;
            } else if str_eq(d.text.as_str(), "false") {
                d.out.is_truncated = false;
            } else {
                d.err = Some(DecErr::BadBool);
            }
        },
        Target::NextMarker => {
            d.next_marker_commit();
        },
        Target::Prefix => {
            let p = d.text.clone();
            d.out.prefixes.push(p);
            proof {
                assert(d@.out.prefixes =~= st.out.prefixes.push(st.text));
            }
        },
    }
    d.target = None;
    d.text = String::new();
    proof {
        assert(d@ =~= commit(st, t));
    }
}

impl Dec {
    fn next_marker_commit(&mut self)
        ensures
            final(self)@ == (DecSt { out: ListingV { next_marker: old(self)@.text,
                ..old(self)@.out }, ..old(self)@ }),
    {
        self.out.next_marker = self.text.clone();
        proof {
            assert(self@ =~= (DecSt { out: ListingV { next_marker: old(self)@.text,
                ..old(self)@.out }, ..old(self)@ }));
        }
    }
}

fn step_exec(d: &mut Dec, e: &Ev)
    ensures
        final(d)@ == step(old(d)@, e@),
{
    let ghost st = old(d)@;
    if d.done || d.err.is_some() {
        return ;
    }
    if e.kind == EV_ERROR {
        d.err = Some(DecErr::Malformed);
        proof {
            assert(d@ =~= step(st, e@));
        }
        return ;
    }
    if e.kind == EV_EOF {
        let idle = match d.mode {
            Mode::Idle => true,
            _ => false,
        };
        if idle && d.target.is_none() {
            d.done = true;
        } else {
            d.err = Some(DecErr::Malformed);
        }
        proof {
            assert(d@ =~= step(st, e@));
        }
        return ;
    }
    if e.kind == EV_START {
        d.target = None;
        d.text = String::new();
        let ghost st1 = DecSt { target: None, text: Seq::empty(), ..st };
        proof {
            assert(d@ =~= st1);
        }
        match d.mode {
            Mode::Idle => {
                if str_eq(e.data.as_str(), "Contents") {
                    d.mode = Mode::InContents;
                    d.cur = empty_obj_exec();
                } else if str_eq(e.data.as_str(), "CommonPrefixes") {
                    d.mode = Mode::InPrefixes;
                } else if str_eq(e.data.as_str(), "IsTruncated") {
                    d.target = Some(Target::IsTruncated);
                } else if str_eq(e.data.as_str(), "NextContinuationToken") {
                    d.target = Some(Target::NextMarker);
                }
            },
            Mode::InContents => {
                if str_eq(e.data.as_str(), "Key") {
                    d.target = Some(Target::Key);
                } else if str_eq(e.data.as_str(), "LastModified") {
                    d.target = Some(Target::LastModified);
                } else if str_eq(e.data.as_str(), "ETag") {
                    d.target = Some(Target::ETag);
                } else if str_eq(e.data.as_str(), "Size") {
                    d.target = Some(Target::Size);
                }
            },
            Mode::InPrefixes => {
                if str_eq(e.data.as_str(), "Prefix") {
                    d.target = Some(Target::Prefix);
                }
            },
        }
        proof {
            assert(d@ =~= step(st, e@));
        }
        return ;
    }
    if e.kind == EV_TEXT {
        if d.target.is_some() {
            d.text.append(e.data.as_str());
            proof {
                assert(d@ =~= (DecSt { text: st.text + e@.1, ..st }));
            }
        }
        proof {
            assert(d@ =~= step(st, e@));
        }
        return ;
    }
    if e.kind == EV_REF {
        if d.target.is_some() {
            match resolve_reference(e.data.as_str()) {
                Some(t) => {
                    d.text.append(t.as_str());
                },
                None => {
                    d.err = Some(DecErr::Malformed);
                },
            }
        }
        proof {
            assert(d@ =~= step(st, e@));
        }
        return ;
    }
    if e.kind == EV_END {
        let t = d.target;
        match t {
            Some(tt) => {
                commit_exec(d, tt);
            },
            None => {
                let in_contents = match d.mode {
                    Mode::InContents => true,
                    _ => false,
                };
                let in_prefixes = match d.mode {
                    Mode::InPrefixes => true,
                    _ => false,
                };
                if in_contents && str_eq(e.data.as_str(), "Contents") {
                    let obj = DetailObjects {
                        key: d.cur.key.clone(),
                        last_modified: d.cur.last_modified.clone(),
                        e_tag: d.cur.e_tag.clone(),
                        size: d.cur.size.clone(),
                    };
                    d.out.objects.push(obj);
                    d.cur = empty_obj_exec();
                    d.mode = Mode::Idle;
                    proof {
                        assert(d@.out.objects =~= st.out.objects.push(st.cur));
                    }
                } else if in_prefixes && str_eq(e.data.as_str(), "CommonPrefixes") {
                    d.mode = Mode::Idle;
                }
            },
        }
        proof {
            assert(d@ =~= step(st, e@));
        }
        return ;
    }
    proof {
        assert(e@.0 == EV_OTHER || !(e@.0 == EV_START || e@.0 == EV_END || e@.0 == EV_TEXT || e@.0
            == EV_REF || e@.0 == EV_EOF || e@.0 == EV_ERROR));
        assert(d@ =~= step(st, e@));
    }
}

/// Decodes a listing event stream into a typed page: exactly the result
/// that the decoding state machine assigns to the stream, or the error it
/// aborted with.
pub fn decode_listing(evs: &Vec<Ev>) -> (r: Result<ListDetailsResponse, Error>)
    ensures
        (r is Ok) == (listing_result(evs_view(evs@)) is Ok),
        r matches Ok(page) ==> page@ == listing_result(evs_view(evs@)).unwrap(),
        r matches Err(e) ==> listing_result(evs_view(evs@)) matches Err(de)
            && decode_err_matches(e, de),
{
    let ghost vs = evs_view(evs@);
    let mut d = Dec {
        mode: Mode::Idle,
        target: None,
        text: String::new(),
        cur: empty_obj_exec(),
        out: ListDetailsResponse {
            is_truncated: false,
            objects: Vec::new(),
            prefixes: Vec::new(),
            next_marker: String::new(),
        },
        done: false,
        err: None,
    };
    proof {
        assert(d@ =~= init_st());
        assert(vs.take(0) =~= Seq::<EvV>::empty());
    }
    let mut i: usize = 0;
    while i < evs.len()
        invariant
            i <= vs.len(),
            vs == evs_view(evs@),
            d@ == run_from(init_st(), vs.take(i as int)),
        decreases vs.len() - i,
    {
        step_exec(&mut d, &evs[i]);
        proof {
            assert(vs.take(i + 1) =~= vs.take(i as int).push(vs[i as int]));
            lemma_run_from_snoc(init_st(), vs.take(i as int), vs[i as int]);
        }
        i = i + 1;
    }
    proof {
        assert(vs.take(vs.len() as int) =~= vs);
    }
    match d.err {
        Some(DecErr::BadBool) => Err(
            Error::ParseBool("invalid boolean in listing document".to_owned()),
        ),
        Some(DecErr::Malformed) => Err(Error::Qxml("malformed listing document".to_owned())),
        None => {
            if d.done {
                Ok(d.out)
            } else {
                Err(Error::Qxml("malformed listing document".to_owned()))
            }
        },
    }
}

/// The events of one `Contents` block carrying the four fields of `o`:
/// each field tag opens, holds its text, and closes, inside the block.
pub open spec fn contents_block(o: ObjV) -> Seq<EvV> {
    seq![
        (EV_START, "Contents"@),
        (EV_START, "Key"@),
        (EV_TEXT, o.key),
        (EV_END, "Key"@),
        (EV_START, "LastModified"@),
        (EV_TEXT, o.last_modified),
        (EV_END, "LastModified"@),
        (EV_START, "ETag"@),
        (EV_TEXT, o.e_tag),
        (EV_END, "ETag"@),
        (EV_START, "Size"@),
        (EV_TEXT, o.size),
        (EV_END, "Size"@),
        (EV_END, "Contents"@),
    ]
}

/// The event stream of a plain listing document: one `Contents` block per
/// entry, in order, then the end of the document.
pub open spec fn listing_doc(objs: Seq<ObjV>) -> Seq<EvV>
    decreases objs.len(),
{
    if objs.len() == 0 {
        seq![(EV_EOF, Seq::<char>::empty())]
    } else {
        contents_block(objs[0]) + listing_doc(objs.drop_first())
    }
}

proof fn lemma_run_from_concat(st: DecSt, a: Seq<EvV>, b: Seq<EvV>)
    ensures
        run_from(st, a + b) == run_from(run_from(st, a), b),
    decreases a.len(),
{
    if a.len() == 0 {
        assert(a + b =~= b);
    } else {
        assert((a + b)[0] == a[0]);
        assert((a + b).drop_first() =~= a.drop_first() + b);
        assert(run_from(st, a + b) == run_from(step(st, a[0]), a.drop_first() + b));
        lemma_run_from_concat(step(st, a[0]), a.drop_first(), b);
    }
}

proof fn lemma_run_from_unfold(st: DecSt, evs: Seq<EvV>)
    requires
        evs.len() > 0,
    ensures
        run_from(st, evs) == run_from(step(st, evs[0]), evs.drop_first()),
{
}

#[verifier::rlimit(100)]
proof fn lemma_block_run(st: DecSt, o: ObjV)
    requires
        st.mode == Mode::Idle,
        st.target is None,
        !st.done,
        st.err is None,
    ensures
        run_from(st, contents_block(o)) == (DecSt {
            mode: Mode::Idle,
            target: None,
            text: Seq::empty(),
            cur: empty_obj(),
            out: ListingV { objects: st.out.objects.push(o), ..st.out },
            done: false,
            err: None,
        }),
{
    reveal_strlit("Contents");
    reveal_strlit("CommonPrefixes");
    reveal_strlit("IsTruncated");
    reveal_strlit("NextContinuationToken");
    reveal_strlit("Key");
    reveal_strlit("LastModified");
    reveal_strlit("ETag");
    reveal_strlit("Size");
    reveal_strlit("Prefix");
    let fin = DecSt {
        mode: Mode::Idle,
        target: None,
        text: Seq::empty(),
        cur: empty_obj(),
        out: ListingV { objects: st.out.objects.push(o), ..st.out },
        done: false,
        err: None,
    };
    assert("Size"@ != "ETag"@) by {
        reveal_strlit("Size");
        reveal_strlit("ETag");
        assert("Size"@[0] == 'S');
        assert("ETag"@[0] == 'E');
    }
    let b = contents_block(o);
    assert(b[0] == (EV_START, "Contents"@));
    assert(b[1] == (EV_START, "Key"@));
    assert(b[2] == (EV_TEXT, o.key));
    assert(b[3] == (EV_END, "Key"@));
    assert(b[4] == (EV_START, "LastModified"@));
    assert(b[5] == (EV_TEXT, o.last_modified));
    assert(b[6] == (EV_END, "LastModified"@));
    assert(b[7] == (EV_START, "ETag"@));
    assert(b[8] == (EV_TEXT, o.e_tag));
    assert(b[9] == (EV_END, "ETag"@));
    assert(b[10] == (EV_START, "Size"@));
    assert(b[11] == (EV_TEXT, o.size));
    assert(b[12] == (EV_END, "Size"@));
    assert(b[13] == (EV_END, "Contents"@));
    let cur1 = ObjV {
        key: Seq::empty() + o.key,
        last_modified: Seq::empty(),
        e_tag: Seq::empty(),
        size: Seq::empty(),
    };
    let cur2 = ObjV { last_modified: Seq::empty() + o.last_modified, ..cur1 };
    let cur3 = ObjV { e_tag: Seq::empty() + o.e_tag, ..cur2 };
    let cur4 = ObjV { size: Seq::empty() + o.size, ..cur3 };
    let s1 = step(st, b[0]);
    assert(s1 == DecSt {
        mode: Mode::InContents,
        target: None,
        text: Seq::empty(),
        cur: empty_obj(),
        out: st.out,
        done: false,
        err: None,
    });
    let s2 = step(s1, b[1]);
    assert(s2 == DecSt { target: Some(Target::Key), ..s1 });
    let s3 = step(s2, b[2]);
    assert(s3 == DecSt { text: Seq::empty() + o.key, ..s2 });
    let s4 = step(s3, b[3]);
    assert(s4 == DecSt { target: None, text: Seq::empty(), cur: cur1, ..s3 });
    let s5 = step(s4, b[4]);
    assert(s5 == DecSt { target: Some(Target::LastModified), ..s4 });
    let s6 = step(s5, b[5]);
    assert(s6 == DecSt { text: Seq::empty() + o.last_modified, ..s5 });
    let s7 = step(s6, b[6]);
    assert(s7 == DecSt { target: None, text: Seq::empty(), cur: cur2, ..s6 });
    let s8 = step(s7, b[7]);
    assert(s8 == DecSt { target: Some(Target::ETag), ..s7 });
    let s9 = step(s8, b[8]);
    assert(s9 == DecSt { text: Seq::empty() + o.e_tag, ..s8 });
    let s10 = step(s9, b[9]);
    assert(s10 == DecSt { target: None, text: Seq::empty(), cur: cur3, ..s9 });
    let s11 = step(s10, b[10]);
    assert(s11 == DecSt { target: Some(Target::Size), ..s10 });
    let s12 = step(s11, b[11]);
    assert(s12 == DecSt { text: Seq::empty() + o.size, ..s11 });
    let s13 = step(s12, b[12]);
    assert(s13 == DecSt { target: None, text: Seq::empty(), cur: cur4, ..s12 });
    let s14 = step(s13, b[13]);
    assert(s14 == DecSt {
        mode: Mode::Idle,
        cur: empty_obj(),
        out: ListingV { objects: st.out.objects.push(cur4), ..st.out },
        ..s13
    });
    let b1 = b.drop_first();
    let b2 = b1.drop_first();
    let b3 = b2.drop_first();
    let b4 = b3.drop_first();
    let b5 = b4.drop_first();
    let b6 = b5.drop_first();
    let b7 = b6.drop_first();
    let b8 = b7.drop_first();
    let b9 = b8.drop_first();
    let b10 = b9.drop_first();
    let b11 = b10.drop_first();
    let b12 = b11.drop_first();
    let b13 = b12.drop_first();
    let b14 = b13.drop_first();
    lemma_run_from_unfold(st, b);
    assert(b1[0] == b[1]);
    lemma_run_from_unfold(s1, b1);
    assert(b2[0] == b[2]);
    lemma_run_from_unfold(s2, b2);
    assert(b3[0] == b[3]);
    lemma_run_from_unfold(s3, b3);
    assert(b4[0] == b[4]);
    lemma_run_from_unfold(s4, b4);
    assert(b5[0] == b[5]);
    lemma_run_from_unfold(s5, b5);
    assert(b6[0] == b[6]);
    lemma_run_from_unfold(s6, b6);
    assert(b7[0] == b[7]);
    lemma_run_from_unfold(s7, b7);
    assert(b8[0] == b[8]);
    lemma_run_from_unfold(s8, b8);
    assert(b9[0] == b[9]);
    lemma_run_from_unfold(s9, b9);
    assert(b10[0] == b[10]);
    lemma_run_from_unfold(s10, b10);
    assert(b11[0] == b[11]);
    lemma_run_from_unfold(s11, b11);
    assert(b12[0] == b[12]);
    lemma_run_from_unfold(s12, b12);
    assert(b13[0] == b[13]);
    lemma_run_from_unfold(s13, b13);
    assert(b14.len() == 0);
    assert(run_from(st, b) == s14);
    assert(o =~= cur4);
    assert(st.out.objects.push(cur4) == st.out.objects.push(o));
    assert(s14 =~~= fin);
}

proof fn lemma_doc_run(st: DecSt, objs: Seq<ObjV>)
    requires
        st.mode == Mode::Idle,
        st.target is None,
        !st.done,
        st.err is None,
    ensures
        run_from(st, listing_doc(objs)).err is None,
        run_from(st, listing_doc(objs)).done,
        run_from(st, listing_doc(objs)).out == (ListingV {
            objects: st.out.objects + objs,
            ..st.out
        }),
    decreases objs.len(),
{
    if objs.len() == 0 {
        reveal_with_fuel(run_from, 3);
        assert(listing_doc(objs)[0] == (EV_EOF, Seq::<char>::empty()));
        assert(listing_doc(objs).drop_first() =~= Seq::<EvV>::empty());
        assert(run_from(st, listing_doc(objs)) == step(st, (EV_EOF, Seq::<char>::empty())));
        assert(run_from(st, listing_doc(objs)).out =~~= (ListingV {
            objects: st.out.objects + objs,
            ..st.out
        }));
    } else {
        lemma_run_from_concat(st, contents_block(objs[0]), listing_doc(objs.drop_first()));
        lemma_block_run(st, objs[0]);
        let st1 = run_from(st, contents_block(objs[0]));
        lemma_doc_run(st1, objs.drop_first());
        assert(st.out.objects.push(objs[0]) + objs.drop_first() =~= st.out.objects + objs);
        assert(run_from(st, listing_doc(objs)).out =~~= (ListingV {
            objects: st.out.objects + objs,
            ..st.out
        }));
    }
}

/// Law: a listing document holding exactly the `Contents` blocks of
/// `objs` decodes to a page with exactly those entries, as many as there
/// are blocks, in document order, each field equal to its tag's text; no
/// prefix, no truncation and no continuation token are reported.
pub proof fn lemma_decode_contents_blocks(objs: Seq<ObjV>)
    ensures
        listing_result(listing_doc(objs)) == Ok::<ListingV, DecErr>(
            ListingV {
                is_truncated: false,
                objects: objs,
                prefixes: Seq::empty(),
                next_marker: Seq::empty(),
            },
        ),
{
    lemma_doc_run(init_st(), objs);
    assert(Seq::<ObjV>::empty() + objs =~= objs);
    assert(listing_result(listing_doc(objs)).unwrap() =~~= (ListingV {
        is_truncated: false,
        objects: objs,
        prefixes: Seq::empty(),
        next_marker: Seq::empty(),
    }));
}

/// The flat-key decoder's state: whether a key's text is being captured,
/// the text so far, and the keys seen, in document order.
#[verifier::ext_equal]
pub struct KeySt {
    pub capturing: bool,
    pub text: Seq<char>,
    pub keys: Seq<Seq<char>>,
    pub done: bool,
    pub err: bool,
}

/// The flat-key decoder's starting state.
pub open spec fn kinit() -> KeySt {
    KeySt { capturing: false, text: Seq::empty(), keys: Seq::empty(), done: false, err: false }
}

/// One transition of the flat-key decoder: the text after each `Key` start
/// tag, wherever it stands, becomes one entry at that tag's end.
pub open spec fn kstep(st: KeySt, e: EvV) -> KeySt {
    if st.done || st.err {
        st
    } else if e.0 == EV_ERROR {
        KeySt { err: true, ..st }
    } else if e.0 == EV_EOF {
        if st.capturing {
            KeySt { err: true, ..st }
        } else {
            KeySt { done: true, ..st }
        }
    } else if e.0 == EV_START {
        KeySt { capturing: e.1 == "Key"@, text: Seq::empty(), ..st }
    } else if e.0 == EV_TEXT {
        if st.capturing {
            KeySt { text: st.text + e.1, ..st }
        } else {
            st
        }
    } else if e.0 == EV_REF {
        if st.capturing {
            match ref_resolution(e.1) {
                Some(t) => KeySt { text: st.text + t, ..st },
                None => KeySt { err: true, ..st },
            }
        } else {
            st
        }
    } else if e.0 == EV_END {
        if st.capturing {
            KeySt { capturing: false, text: Seq::empty(), keys: st.keys.push(st.text), ..st }
        } else {
            st
        }
    } else {
        st
    }
}

/// The flat-key decoder run over an event sequence from a given state.
pub open spec fn krun_from(st: KeySt, evs: Seq<EvV>) -> KeySt
    decreases evs.len(),
{
    if evs.len() == 0 {
        st
    } else {
        krun_from(kstep(st, evs[0]), evs.drop_first())
    }
}

proof fn lemma_krun_from_snoc(st: KeySt, s: Seq<EvV>, x: EvV)
    ensures
        krun_from(st, s.push(x)) == kstep(krun_from(st, s), x),
    decreases s.len(),
{
    if s.len() == 0 {
        assert(s.push(x)[0] == x);
        assert(s.push(x).drop_first() =~= Seq::<EvV>::empty());
        assert(krun_from(st, s.push(x)) == krun_from(kstep(st, x), Seq::<EvV>::empty()));
    } else {
        assert(s.push(x)[0] == s[0]);
        assert(s.push(x).drop_first() =~= s.drop_first().push(x));
        assert(krun_from(st, s.push(x)) == krun_from(kstep(st, s[0]), s.drop_first().push(x)));
        lemma_krun_from_snoc(kstep(st, s[0]), s.drop_first(), x);
    }
}

/// What a whole event stream yields as a flat key list, or that it was
/// malformed: an abort, or an end of input during a capture or before any
/// end-of-document.
pub open spec fn keys_result(evs: Seq<EvV>) -> Result<Seq<Seq<char>>, DecErr> {
    let st = krun_from(kinit(), evs);
    if st.err {
        Err(DecErr::Malformed)
    } else if st.done {
        Ok(st.keys)
    } else {
        Err(DecErr::Malformed)
    }
}

/// Decodes a listing event stream into the flat sequence of its keys, in
/// document order.
pub fn decode_keys(evs: &Vec<Ev>) -> (r: Result<Vec<String>, Error>)
    ensures
        (r is Ok) == (keys_result(evs_view(evs@)) is Ok),
        r matches Ok(keys) ==> keys@.map_values(|s: String| s@) == keys_result(
            evs_view(evs@),
        ).unwrap(),
        r matches Err(e) ==> e matches Error::Qxml(m) && m@ == "malformed listing document"@,
{
    let ghost vs = evs_view(evs@);
    let mut capturing = false;
    let mut text = String::new();
    let mut keys: Vec<String> = Vec::new();
    let mut done = false;
    let mut err = false;
    proof {
        assert((KeySt {
            capturing,
            text: text@,
            keys: keys@.map_values(|s: String| s@),
            done,
            err,
        }) =~= kinit());
        assert(vs.take(0) =~= Seq::<EvV>::empty());
    }
    let mut i: usize = 0;
    while i < evs.len()
        invariant
            i <= vs.len(),
            vs == evs_view(evs@),
            (KeySt {
                capturing,
                text: text@,
                keys: keys@.map_values(|s: String| s@),
                done,
                err,
            }) == krun_from(kinit(), vs.take(i as int)),
        decreases vs.len() - i,
    {
        let ghost st = krun_from(kinit(), vs.take(i as int));
        let e = &evs[i];
        if done || err {
        } else if e.kind == EV_ERROR {
            err = true;
        } else if e.kind == EV_EOF {
            if capturing {
                err = true;
            } else {
                done = true;
            }
        } else if e.kind == EV_START {
            capturing = str_eq(e.data.as_str(), "Key");
            text = String::new();
        } else if e.kind == EV_TEXT {
            if capturing {
                text.append(e.data.as_str());
            }
        } else if e.kind == EV_REF {
            if capturing {
                match resolve_reference(e.data.as_str()) {
                    Some(t) => {
                        text.append(t.as_str());
                    },
                    None => {
                        err = true;
                    },
                }
            }
        } else if e.kind == EV_END {
            if capturing {
                capturing = false;
                keys.push(text);
                text = String::new();
                proof {
                    assert(keys@.map_values(|s: String| s@) =~= st.keys.push(st.text));
                }
            }
        }
        proof {
            assert((KeySt {
                capturing,
                text: text@,
                keys: keys@.map_values(|s: String| s@),
                done,
                err,
            }) =~= kstep(st, vs[i as int]));
            assert(vs.take(i + 1) =~= vs.take(i as int).push(vs[i as int]));
            lemma_krun_from_snoc(kinit(), vs.take(i as int), vs[i as int]);
        }
        i = i + 1;
    }
    proof {
        assert(vs.take(vs.len() as int) =~= vs);
    }
    if err || !done {
        Err(Error::Qxml("malformed listing document".to_owned()))
    } else {
        Ok(keys)
    }
}

/// Decodes a whole listing document into the flat sequence of its keys.
pub fn list_objects_from_xml(xml: Vec<u8>) -> (r: Result<Vec<String>, Error>)
    ensures
        (r is Ok) == (keys_result(xml_events(xml@)) is Ok),
        r matches Ok(keys) ==> keys@.map_values(|s: String| s@) == keys_result(
            xml_events(xml@),
        ).unwrap(),
        r matches Err(e) ==> e matches Error::Qxml(m) && m@ == "malformed listing document"@,
{
    let evs = read_all_events(xml);
    decode_keys(&evs)
}

/// Decodes a whole listing document into a typed page: the result the
/// decoding state machine assigns to the document's event stream.
pub fn list_details_from_xml(xml: Vec<u8>) -> (r: Result<ListDetailsResponse, Error>)
    ensures
        (r is Ok) == (listing_result(xml_events(xml@)) is Ok),
        r matches Ok(page) ==> page@ == listing_result(xml_events(xml@)).unwrap(),
        r matches Err(e) ==> listing_result(xml_events(xml@)) matches Err(de)
            && decode_err_matches(e, de),
{
    let evs = read_all_events(xml);
    decode_listing(&evs)
}

} // verus!
