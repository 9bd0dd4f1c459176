//! Byte-level text helpers shared by the file codec and the reporting
//! types: the correspondence between ASCII byte sequences and their
//! decoded characters, lexicographic ordering of character sequences,
//! decimal formatting, and ASCII trimming.

use vstd::prelude::*;
use vstd::utf8::{
    decode_utf8, encode_utf8, encode_utf8_decode_utf8, encode_utf8_valid_utf8, is_ascii_chars,
    is_ascii_chars_encode_utf8, valid_utf8,
};

verus! {

/// The characters that a pure-ASCII byte sequence decodes to.
pub open spec fn ascii_chars_of(bs: Seq<u8>) -> Seq<char> {
    Seq::new(bs.len(), |i: int| bs[i] as char)
}

pub open spec fn all_ascii(bs: Seq<u8>) -> bool {
    forall|i: int| 0 <= i < bs.len() ==> bs[i] < 0x80
}

/// A pure-ASCII byte sequence is valid UTF-8 and decodes byte-for-byte.
pub proof fn lemma_ascii_bytes_utf8(bs: Seq<u8>)
    requires
        all_ascii(bs),
    ensures
        valid_utf8(bs),
        decode_utf8(bs) == ascii_chars_of(bs),
        encode_utf8(ascii_chars_of(bs)) == bs,
        is_ascii_chars(ascii_chars_of(bs)),
{
    let chars = ascii_chars_of(bs);
    assert forall|i: int| 0 <= i < chars.len() implies '\0' <= #[trigger] chars[i] <= '\u{7f}' by {
        assert(bs[i] < 0x80);
    }
    assert(is_ascii_chars(chars));
    is_ascii_chars_encode_utf8(chars);
    assert(encode_utf8(chars) =~= bs);
    encode_utf8_valid_utf8(chars);
    encode_utf8_decode_utf8(chars);
}

/// Strict lexicographic order on character sequences, by code point.
/// This is the order `str::cmp` sorts by, since UTF-8 byte order agrees
/// with code-point order.
pub open spec fn lex_lt(a: Seq<char>, b: Seq<char>) -> bool
    decreases a.len(),
{
    if b.len() == 0 {
        false
    } else if a.len() == 0 {
        true
    } else if (a[0] as u32) < (b[0] as u32) {
        true
    } else if (a[0] as u32) > (b[0] as u32) {
        false
    } else {
        lex_lt(a.drop_first(), b.drop_first())
    }
}

pub open spec fn lex_le(a: Seq<char>, b: Seq<char>) -> bool {
    !lex_lt(b, a)
}

/// Two sequences that neither order below the other are equal.
pub proof fn lemma_lex_antisym(a: Seq<char>, b: Seq<char>)
    requires
        !lex_lt(a, b),
        !lex_lt(b, a),
    ensures
        a == b,
    decreases a.len(),
{
    if a.len() == 0 || b.len() == 0 {
        assert(a =~= b);
    } else {
        vstd::utf8::char_u32_cast(a[0], a[0] as u32);
        vstd::utf8::char_u32_cast(b[0], b[0] as u32);
        lemma_lex_antisym(a.drop_first(), b.drop_first());
        assert(a =~= seq![a[0]] + a.drop_first());
        assert(b =~= seq![b[0]] + b.drop_first());
    }
}

/// Strict lexicographic order is asymmetric.
pub proof fn lemma_lex_lt_asym(a: Seq<char>, b: Seq<char>)
    requires
        lex_lt(a, b),
    ensures
        !lex_lt(b, a),
    decreases a.len(),
{
    if a.len() > 0 && b.len() > 0 && (a[0] as u32) == (b[0] as u32) {
        lemma_lex_lt_asym(a.drop_first(), b.drop_first());
    }
}

pub proof fn lemma_lex_lt_trans(a: Seq<char>, b: Seq<char>, c: Seq<char>)
    requires
        lex_lt(a, b),
        lex_lt(b, c),
    ensures
        lex_lt(a, c),
    decreases a.len(),
{
    if a.len() == 0 || b.len() == 0 || c.len() == 0 {
    } else {
        if (a[0] as u32) == (b[0] as u32) && (b[0] as u32) == (c[0] as u32) {
            lemma_lex_lt_trans(a.drop_first(), b.drop_first(), c.drop_first());
        }
    }
}

pub proof fn lemma_lex_le_trans(a: Seq<char>, b: Seq<char>, c: Seq<char>)
    requires
        lex_le(a, b),
        lex_le(b, c),
    ensures
        lex_le(a, c),
{
    if lex_lt(c, a) {
        if lex_lt(a, b) {
            lemma_lex_lt_trans(c, a, b);
        } else {
            lemma_lex_antisym(a, b);
        }
    }
}

/// After an equal prefix of length `i`, order is decided by the suffixes.
pub proof fn lemma_lex_lt_skip(a: Seq<char>, b: Seq<char>, i: int)
    requires
        0 <= i <= a.len(),
        i <= b.len(),
        a.subrange(0, i) == b.subrange(0, i),
    ensures
        lex_lt(a, b) == lex_lt(a.skip(i), b.skip(i)),
    decreases i,
{
    if i > 0 {
        assert(a.subrange(0, i)[0] == a[0]);
        assert(b.subrange(0, i)[0] == b[0]);
        assert(a[0] == b[0]);
        assert(lex_lt(a, b) == lex_lt(a.drop_first(), b.drop_first()));
        assert(a.drop_first().subrange(0, i - 1) =~= b.drop_first().subrange(0, i - 1)) by {
            assert forall|j: int| 0 <= j < i - 1 implies #[trigger] a.drop_first().subrange(
                0,
                i - 1,
            )[j] == b.drop_first().subrange(0, i - 1)[j] by {
                assert(a.drop_first().subrange(0, i - 1)[j] == a[j + 1]);
                assert(b.drop_first().subrange(0, i - 1)[j] == b[j + 1]);
                assert(a.subrange(0, i)[j + 1] == b.subrange(0, i)[j + 1]);
                assert(a.subrange(0, i)[j + 1] == a[j + 1]);
                assert(b.subrange(0, i)[j + 1] == b[j + 1]);
            }
        }
        lemma_lex_lt_skip(a.drop_first(), b.drop_first(), i - 1);
        assert(a.drop_first().skip(i - 1) =~= a.skip(i));
        assert(b.drop_first().skip(i - 1) =~= b.skip(i));
    } else {
        assert(a.skip(0) =~= a);
        assert(b.skip(0) =~= b);
    }
}

/// Decides `lex_le` on two strings, reading them character by character.
pub fn str_le(a: &str, b: &str) -> (r: bool)
    ensures
        r == lex_le(a@, b@),
{
    let la = a.unicode_len();
    let lb = b.unicode_len();
    let mut i: usize = 0;
    loop
        invariant
            i <= la,
            i <= lb,
            la == a@.len(),
            lb == b@.len(),
            a@.subrange(0, i as int) == b@.subrange(0, i as int),
        decreases la - i,
    {
        proof {
            lemma_lex_lt_skip(a@, b@, i as int);
            lemma_lex_lt_skip(b@, a@, i as int);
        }
        if i >= la {
            proof {
                assert(!lex_lt(b@.skip(i as int), a@.skip(i as int)) ==> b@.skip(i as int).len()
                    == 0 || !(b@.skip(i as int).len() == 0));
            }
            return true;
        }
        if i >= lb {
            return false;
        }
        let ca = a.get_char(i);
        let cb = b.get_char(i);
        let ua = ca as u32;
        let ub = cb as u32;
        if ua < ub {
            return true;
        }
        if ua > ub {
            return false;
        }
        proof {
            vstd::utf8::char_u32_cast(ca, ua);
            vstd::utf8::char_u32_cast(cb, ub);
            assert(a@.subrange(0, i + 1 as int) =~= b@.subrange(0, i + 1 as int)) by {
                assert forall|j: int| 0 <= j < i + 1 implies #[trigger] a@.subrange(
                    0,
                    i + 1 as int,
                )[j] == b@.subrange(0, i + 1 as int)[j] by {
                    if j < i {
                        assert(a@.subrange(0, i as int)[j] == b@.subrange(0, i as int)[j]);
                    }
                }
            }
        }
        i = i + 1;
    }
}

/// The decimal digits of `n`, most significant first.
pub open spec fn dec_digits(n: nat) -> Seq<u8>
    decreases n,
{
    if n < 10 {
        seq![(0x30 + n) as u8]
    } else {
        dec_digits((n / 10) as nat) + seq![(0x30 + n % 10) as u8]
    }
}

pub proof fn lemma_dec_digits_ascii(n: nat)
    ensures
        forall|i: int| 0 <= i < dec_digits(n).len() ==> 0x30 <= #[trigger] dec_digits(n)[i] < 0x3a,
    decreases n,
{
    if n >= 10 {
        lemma_dec_digits_ascii((n / 10) as nat);
        let s = dec_digits(n);
        let p = dec_digits((n / 10) as nat);
        assert forall|i: int| 0 <= i < s.len() implies 0x30 <= #[trigger] s[i] < 0x3a by {
            if i < p.len() {
                assert(s[i] == p[i]);
            } else {
                assert(s[i] == (0x30 + n % 10) as u8);
            }
        }
    }
}

/// Appends the decimal digits of `n` to `out`.
pub fn push_dec(out: &mut Vec<u8>, n: u64)
    ensures
        final(out)@ == old(out)@ + dec_digits(n as nat),
    decreases n,
{
    if n < 10 {
        out.push(0x30 + n as u8);
        assert(out@ =~= old(out)@ + dec_digits(n as nat));
    } else {
        push_dec(out, n / 10);
        out.push(0x30 + (n % 10) as u8);
        assert(out@ =~= old(out)@ + dec_digits(n as nat));
    }
}

/// ASCII whitespace, the characters `str::trim` strips from ordinary text.
pub open spec fn is_ws(c: char) -> bool {
    c == ' ' || c == '\t' || c == '\n' || c == '\r'
}

pub open spec fn trim_front(s: Seq<char>) -> Seq<char>
    decreases s.len(),
{
    if s.len() > 0 && is_ws(s[0]) {
        trim_front(s.drop_first())
    } else {
        s
    }
}

pub open spec fn trim_back(s: Seq<char>) -> Seq<char>
    decreases s.len(),
{
    if s.len() > 0 && is_ws(s[s.len() - 1]) {
        trim_back(s.drop_last())
    } else {
        s
    }
}

/// The text with leading and trailing ASCII whitespace removed.
pub open spec fn trim_spec(s: Seq<char>) -> Seq<char> {
    trim_back(trim_front(s))
}

pub proof fn lemma_trim_front_skip(s: Seq<char>, i: int)
    requires
        0 <= i <= s.len(),
        forall|j: int| 0 <= j < i ==> is_ws(s[j]),
        i == s.len() || !is_ws(s[i]),
    ensures
        trim_front(s) == s.skip(i),
    decreases i,
{
    if i == 0 {
        assert(s.skip(0) =~= s);
    } else {
        assert(is_ws(s[0]));
        lemma_trim_front_skip(s.drop_first(), i - 1);
        assert(s.drop_first().skip(i - 1) =~= s.skip(i));
    }
}

pub proof fn lemma_trim_back_take(s: Seq<char>, i: int)
    requires
        0 <= i <= s.len(),
        forall|j: int| i <= j < s.len() ==> is_ws(s[j]),
        i == 0 || !is_ws(s[i - 1]),
    ensures
        trim_back(s) == s.take(i),
    decreases s.len() - i,
{
    if i == s.len() {
        assert(s.take(i) =~= s);
    } else {
        assert(is_ws(s[s.len() - 1]));
        lemma_trim_back_take(s.drop_last(), i);
        assert(s.drop_last().take(i) =~= s.take(i));
    }
}

/// Removes leading and trailing ASCII whitespace.
pub fn trim_string(s: &str) -> (r: String)
    ensures
        r@ == trim_spec(s@),
{
    let n = s.unicode_len();
    let mut start: usize = 0;
    loop
        invariant
            start <= n,
            n == s@.len(),
            forall|j: int| 0 <= j < start ==> is_ws(s@[j]),
        ensures
            start <= n,
            n == s@.len(),
            forall|j: int| 0 <= j < start ==> is_ws(s@[j]),
            start == n || !is_ws(s@[start as int]),
        decreases n - start,
    {
        if start >= n {
            break;
        }
        let c = s.get_char(start);
        if !(c == ' ' || c == '\t' || c == '\n' || c == '\r') {
            break;
        }
        start = start + 1;
    }
    proof {
        lemma_trim_front_skip(s@, start as int);
    }
    let mut end: usize = n;
    loop
        invariant
            start <= end <= n,
            n == s@.len(),
            forall|j: int| end <= j < n ==> is_ws(s@[j]),
            trim_front(s@) == s@.skip(start as int),
        ensures
            start <= end <= n,
            n == s@.len(),
            forall|j: int| end <= j < n ==> is_ws(s@[j]),
            trim_front(s@) == s@.skip(start as int),
            end == start || !is_ws(s@[end - 1]),
        decreases end,
    {
        if end <= start {
            break;
        }
        let c = s.get_char(end - 1);
        if !(c == ' ' || c == '\t' || c == '\n' || c == '\r') {
            break;
        }
        end = end - 1;
    }
    let piece = s.substring_char(start, end);
    proof {
        let f = s@.skip(start as int);
        if end > start {
            lemma_trim_back_take(f, end - start as int);
        } else {
            assert(f =~= s@.subrange(start as int, s@.len() as int));
            lemma_trim_back_take(f, 0);
        }
        assert(f.take(end - start as int) =~= s@.subrange(start as int, end as int));
    }
    piece.to_owned()
}

/// True when the text holds nothing but ASCII whitespace, the test the
/// tool uses for "no value configured".
pub open spec fn is_blank(s: Seq<char>) -> bool {
    forall|j: int| 0 <= j < s.len() ==> is_ws(s[j])
}

pub fn str_is_blank(s: &str) -> (r: bool)
    ensures
        r == is_blank(s@),
{
    let n = s.unicode_len();
    let mut i: usize = 0;
    loop
        invariant
            i <= n,
            n == s@.len(),
            forall|j: int| 0 <= j < i ==> is_ws(s@[j]),
        decreases n - i,
    {
        if i >= n {
            return true;
        }
        let c = s.get_char(i);
        if !(c == ' ' || c == '\t' || c == '\n' || c == '\r') {
            return false;
        }
        i = i + 1;
    }
}

/// Text with no whitespace anywhere trims to itself.
pub proof fn lemma_trim_non_ws(s: Seq<char>)
    requires
        forall|j: int| 0 <= j < s.len() ==> !is_ws(#[trigger] s[j]),
    ensures
        trim_spec(s) == s,
{
    lemma_trim_front_skip(s, 0);
    assert(s.skip(0) =~= s);
    if s.len() == 0 {
        lemma_trim_back_take(s, 0);
        assert(s.take(0) =~= s);
    } else {
        lemma_trim_back_take(s, s.len() as int);
        assert(s.take(s.len() as int) =~= s);
    }
}

/// Relies on std's `core::str::from_utf8` together with `str::to_owned`:
/// conversion succeeds exactly on valid UTF-8 and preserves the bytes.
#[verifier::external_body]
pub fn bytes_to_string(v: &[u8]) -> (r: Option<String>)
    ensures
        valid_utf8(v@) <==> r is Some,
        r matches Some(s) ==> s@ == decode_utf8(v@),
{
    match core::str::from_utf8(v) {
        Ok(s) => Some(s.to_owned()),
        Err(_) => None,
    }
}

} // verus!
