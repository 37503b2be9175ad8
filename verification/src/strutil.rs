//! Small verified helpers on strings and byte sequences: decimal rendering
//! of integers, lexicographic byte comparison, prefix tests.
use vstd::prelude::*;
use vstd::string::*;

verus! {

/// The decimal digit character for a value below ten.
pub open spec fn dec_digit(d: nat) -> char
    recommends
        d < 10,
{
    if d == 0 {
        '0'
    } else if d == 1 {
        '1'
    } else if d == 2 {
        '2'
    } else if d == 3 {
        '3'
    } else if d == 4 {
        '4'
    } else if d == 5 {
        '5'
    } else if d == 6 {
        '6'
    } else if d == 7 {
        '7'
    } else if d == 8 {
        '8'
    } else {
        '9'
    }
}

/// The usual decimal rendering of a natural number, most significant digit
/// first, with no leading zeros (a single `'0'` for zero).
pub open spec fn dec_chars(n: nat) -> Seq<char>
    decreases n,
{
    if n < 10 {
        seq![dec_digit(n)]
    } else {
        dec_chars(n / 10) + seq![dec_digit(n % 10)]
    }
}

fn digit_str(d: u64) -> (r: &'static str)
    requires
        d < 10,
    ensures
        r@ == seq![dec_digit(d as nat)],
{
    proof {
        reveal_strlit("0");
        reveal_strlit("1");
        reveal_strlit("2");
        reveal_strlit("3");
        reveal_strlit("4");
        reveal_strlit("5");
        reveal_strlit("6");
        reveal_strlit("7");
        reveal_strlit("8");
        reveal_strlit("9");
    }
    if d == 0 {
        proof {
            assert("0"@ =~= seq![dec_digit(0)]);
        }
        "0"
    } else if d == 1 {
        proof {
            assert("1"@ =~= seq![dec_digit(1)]);
        }
        "1"
    } else if d == 2 {
        proof {
            assert("2"@ =~= seq![dec_digit(2)]);
        }
        "2"
    } else if d == 3 {
        proof {
            assert("3"@ =~= seq![dec_digit(3)]);
        }
        "3"
    } else if d == 4 {
        proof {
            assert("4"@ =~= seq![dec_digit(4)]);
        }
        "4"
    } else if d == 5 {
        proof {
            assert("5"@ =~= seq![dec_digit(5)]);
        }
        "5"
    } else if d == 6 {
        proof {
            assert("6"@ =~= seq![dec_digit(6)]);
        }
        "6"
    } else if d == 7 {
        proof {
            assert("7"@ =~= seq![dec_digit(7)]);
        }
        "7"
    } else if d == 8 {
        proof {
            assert("8"@ =~= seq![dec_digit(8)]);
        }
        "8"
    } else {
        proof {
            assert("9"@ =~= seq![dec_digit(9)]);
        }
        "9"
    }
}

/// Renders an unsigned integer in decimal.
pub fn u64_to_string(n: u64) -> (r: String)
    ensures
        r@ == dec_chars(n as nat),
    decreases n,
{
    if n < 10 {
        digit_str(n).to_owned()
    } else {
        let mut s = u64_to_string(n / 10);
        s.append(digit_str(n % 10));
        s
    }
}

/// The decimal rendering of a (possibly negative) integer.
pub open spec fn signed_dec_chars(i: int) -> Seq<char> {
    if i < 0 {
        seq!['-'] + dec_chars((-i) as nat)
    } else {
        dec_chars(i as nat)
    }
}

/// Renders a signed integer in decimal, with a leading `'-'` when negative.
pub fn i32_to_string(n: i32) -> (r: String)
    ensures
        r@ == signed_dec_chars(n as int),
{
    if n >= 0 {
        u64_to_string(n as u64)
    } else {
        proof {
            reveal_strlit("-");
            assert("-"@ =~= seq!['-']);
        }
        let mut s = "-".to_owned();
        let abs = (-(n as i64)) as u64;
        s.append(u64_to_string(abs).as_str());
        s
    }
}

/// Lexicographic order on byte sequences: `a` is less than or equal to `b`.
pub open spec fn bytes_le(a: Seq<u8>, b: Seq<u8>) -> bool
    decreases a.len(),
{
    if a.len() == 0 {
        true
    } else if b.len() == 0 {
        false
    } else if a[0] < b[0] {
        true
    } else if a[0] > b[0] {
        false
    } else {
        bytes_le(a.drop_first(), b.drop_first())
    }
}

/// `bytes_le` is total: two sequences always compare one way or the other.
pub proof fn lemma_bytes_le_total(a: Seq<u8>, b: Seq<u8>)
    ensures
        bytes_le(a, b) || bytes_le(b, a),
    decreases a.len(),
{
    if a.len() != 0 && b.len() != 0 && a[0] == b[0] {
        lemma_bytes_le_total(a.drop_first(), b.drop_first());
    }
}

/// Compares two byte slices in lexicographic order.
pub fn bytes_le_exec(a: &[u8], b: &[u8]) -> (r: bool)
    ensures
        r == bytes_le(a@, b@),
{
    let mut i: usize = 0;
    proof {
        assert(a@.skip(0) =~= a@);
        assert(b@.skip(0) =~= b@);
    }
    loop
        invariant
            i <= a@.len(),
            i <= b@.len(),
            bytes_le(a@, b@) == bytes_le(a@.skip(i as int), b@.skip(i as int)),
            bytes_le(b@, a@) == bytes_le(b@.skip(i as int), a@.skip(i as int)),
        decreases a@.len() - i,
    {
        if i == a.len() {
            return true;
        }
        if i == b.len() {
            return false;
        }
        let x = a[i];
        let y = b[i];
        if x < y {
            return true;
        }
        if x > y {
            return false;
        }
        proof {
            assert(a@.skip(i as int).drop_first() =~= a@.skip(i as int + 1));
            assert(b@.skip(i as int).drop_first() =~= b@.skip(i as int + 1));
        }
        i = i + 1;
    }
}

/// Whether `p` stands at the start of `s`.
pub open spec fn is_prefix_of<T>(p: Seq<T>, s: Seq<T>) -> bool {
    p.len() <= s.len() && s.take(p.len() as int) == p
}

/// Tests two byte slices for equality.
pub fn bytes_eq(a: &[u8], b: &[u8]) -> (r: bool)
    ensures
        r == (a@ == b@),
{
    if a.len() != b.len() {
        return false;
    }
    let mut i: usize = 0;
    loop
        invariant
            i <= a@.len(),
            a@.len() == b@.len(),
            forall|j: int| 0 <= j < i ==> a@[j] == b@[j],
        decreases a@.len() - i,
    {
        if i == a.len() {
            proof {
                assert(a@ =~= b@);
            }
            return true;
        }
        if a[i] != b[i] {
            return false;
        }
        i = i + 1;
    }
}

/// Tests whether the byte slice `a` starts with `p`.
pub fn bytes_starts_with(a: &[u8], p: &[u8]) -> (r: bool)
    ensures
        r == is_prefix_of(p@, a@),
{
    if p.len() > a.len() {
        return false;
    }
    let mut i: usize = 0;
    loop
        invariant
            i <= p@.len(),
            p@.len() <= a@.len(),
            forall|j: int| 0 <= j < i ==> a@[j] == p@[j],
        decreases p@.len() - i,
    {
        if i == p.len() {
            proof {
                assert(a@.take(p@.len() as int) =~= p@);
            }
            return true;
        }
        if a[i] != p[i] {
            proof {
                assert(a@.take(p@.len() as int)[i as int] == a@[i as int]);
            }
            return false;
        }
        i = i + 1;
    }
}

/// Tests whether the string `s` starts with `p`, character by character.
pub fn starts_with_str(s: &str, p: &str) -> (r: bool)
    ensures
        r == is_prefix_of(p@, s@),
{
    let sn = s.unicode_len();
    let pn = p.unicode_len();
    if pn > sn {
        proof {
            assert(!is_prefix_of(p@, s@));
        }
        return false;
    }
    let mut i: usize = 0;
    loop
        invariant
            i <= pn,
            pn == p@.len(),
            sn == s@.len(),
            pn <= sn,
            forall|j: int| 0 <= j < i ==> s@[j] == p@[j],
        decreases pn - i,
    {
        if i == pn {
            proof {
                assert(s@.take(p@.len() as int) =~= p@);
            }
            return true;
        }
        if s.get_char(i) != p.get_char(i) {
            proof {
                assert(s@.take(p@.len() as int)[i as int] == s@[i as int]);
            }
            return false;
        }
        i = i + 1;
    }
}

/// Tests two strings for equality of their character sequences.
pub fn str_eq(a: &str, b: &str) -> (r: bool)
    ensures
        r == (a@ == b@),
{
    let an = a.unicode_len();
    let bn = b.unicode_len();
    if an != bn {
        return false;
    }
    let mut i: usize = 0;
    loop
        invariant
            i <= an,
            an == a@.len(),
            bn == b@.len(),
            an == bn,
            forall|j: int| 0 <= j < i ==> a@[j] == b@[j],
        decreases an - i,
    {
        if i == an {
            proof {
                assert(a@ =~= b@);
            }
            return true;
        }
        if a.get_char(i) != b.get_char(i) {
            return false;
        }
        i = i + 1;
    }
}

/// Whether an HTTP status code reports success.
pub open spec fn spec_is_success(status: u16) -> bool {
    200 <= status < 300
}

/// Tests whether an HTTP status code lies in the success range.
pub fn is_success(status: u16) -> (r: bool)
    ensures
        r == spec_is_success(status),
{
    200 <= status && status < 300
}

/// Whether a code names a Unicode scalar value: not a surrogate, not
/// beyond the last code point.
pub open spec fn is_scalar_code(n: u32) -> bool {
    n < 0xD800 || (0xE000 <= n && n <= 0x10FFFF)
}

/// The character bearing a scalar code.
pub open spec fn scalar_char(n: u32) -> char {
    n as char
}

/// Relies on `char::from_u32`: yields the character with the given code,
/// and nothing exactly for a surrogate code or one beyond the last code
/// point.
#[verifier::external_body]
pub(crate) fn char_from_u32(n: u32) -> (r: Option<char>)
    ensures
        (r is Some) == is_scalar_code(n),
        r matches Some(c) ==> c as u32 == n,
{
    char::from_u32(n)
}

/// Relies on `char`'s string rendering: one character becomes the string
/// holding exactly that character.
#[verifier::external_body]
pub(crate) fn char_to_string(c: char) -> (r: String)
    ensures
        r@ == seq![c],
{
    c.to_string()
}

/// ASCII lower-casing of one character; everything else stands.
pub open spec fn lower_char(c: char) -> char {
    let code = c as u32;
    if 65 <= code && code <= 90 {
        ((code + 32) as u32) as char
    } else {
        c
    }
}

/// ASCII lower-casing of a character sequence.
pub open spec fn lower_chars(s: Seq<char>) -> Seq<char> {
    s.map_values(|c: char| lower_char(c))
}

fn lower_char_exec(c: char) -> (r: char)
    ensures
        r == lower_char(c),
{
    let code = c as u32;
    if 65 <= code && code <= 90 {
        match char_from_u32(code + 32) {
            Option::Some(lc) => {
                proof {
                    vstd::utf8::char_u32_cast(lc, (code + 32) as u32);
                }
                lc
            },
            Option::None => {
                proof {
                    assert(false);
                }
                c
            },
        }
    } else {
        c
    }
}

/// Lower-cases the ASCII letters of a string; other characters stand.
pub fn lower_ascii(s: &str) -> (r: String)
    ensures
        r@ == lower_chars(s@),
{
    let n = s.unicode_len();
    let mut r = String::new();
    let mut i: usize = 0;
    proof {
        assert(r@ =~= lower_chars(s@).take(0));
    }
    while i < n
        invariant
            i <= n,
            n == s@.len(),
            r@ == lower_chars(s@).take(i as int),
        decreases n - i,
    {
        let lc = lower_char_exec(s.get_char(i));
        let piece = char_to_string(lc);
        r.append(piece.as_str());
        proof {
            assert(r@ =~= lower_chars(s@).take(i + 1));
        }
        i = i + 1;
    }
    proof {
        assert(lower_chars(s@).take(n as int) =~= lower_chars(s@));
    }
    r
}

} // verus!
