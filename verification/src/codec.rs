//! The byte-level codec for the two state files. The files are JSON
//! documents owned by this crate: the emitter writes them and the parser
//! reads them back, tolerating foreign or malformed entries by dropping
//! them, as the load rules ask.
//!
//! Every executable function has a specification twin over byte
//! sequences; the round-trip results build on those twins.

use vstd::prelude::*;
use vstd::utf8::{decode_utf8, encode_utf8, valid_utf8};
use crate::text::bytes_to_string;

verus! {

// Byte values used throughout: 0x22 `"`, 0x5c `\`, 0x7b `{`, 0x7d `}`,
// 0x5b `[`, 0x5d `]`, 0x3a `:`, 0x2c `,`.

pub open spec fn is_ws_byte(b: u8) -> bool {
    b == 0x20 || b == 0x09 || b == 0x0a || b == 0x0d
}

/// A byte that ends an unquoted token.
pub open spec fn is_delim_byte(b: u8) -> bool {
    is_ws_byte(b) || b == 0x2c || b == 0x7d || b == 0x5d || b == 0x3a
}

/// The first position at or after `i` that holds no whitespace.
pub open spec fn skip_ws_spec(s: Seq<u8>, i: int) -> int
    decreases s.len() - i,
{
    if 0 <= i < s.len() && is_ws_byte(s[i]) {
        skip_ws_spec(s, i + 1)
    } else {
        i
    }
}

fn skip_ws(s: &[u8], i: usize) -> (r: usize)
    requires
        i <= s@.len(),
    ensures
        r == skip_ws_spec(s@, i as int),
        i <= r <= s@.len(),
    decreases s@.len() - i,
{
    if i < s.len() {
        let b = s[i];
        if b == 0x20 || b == 0x09 || b == 0x0a || b == 0x0d {
            return skip_ws(s, i + 1);
        }
    }
    i
}

/// How one byte of decoded string content is written out.
pub open spec fn esc_byte(b: u8) -> Seq<u8> {
    if b == 0x22 {
        seq![0x5c, 0x22]
    } else if b == 0x5c {
        seq![0x5c, 0x5c]
    } else if b == 0x0a {
        seq![0x5c, 0x6e]
    } else if b == 0x0d {
        seq![0x5c, 0x72]
    } else if b == 0x09 {
        seq![0x5c, 0x74]
    } else {
        seq![b]
    }
}

pub open spec fn escape_bytes(s: Seq<u8>) -> Seq<u8>
    decreases s.len(),
{
    if s.len() == 0 {
        Seq::empty()
    } else {
        esc_byte(s[0]) + escape_bytes(s.drop_first())
    }
}

pub proof fn lemma_escape_snoc(s: Seq<u8>, b: u8)
    ensures
        escape_bytes(s.push(b)) == escape_bytes(s) + esc_byte(b),
    decreases s.len(),
{
    let t = s.push(b);
    if s.len() == 0 {
        assert(t[0] == b);
        assert(t.drop_first() =~= Seq::<u8>::empty());
        assert(escape_bytes(t) == esc_byte(b) + escape_bytes(Seq::<u8>::empty()));
        assert(escape_bytes(Seq::<u8>::empty()) =~= Seq::<u8>::empty());
        assert(esc_byte(b) + Seq::<u8>::empty() =~= esc_byte(b));
        assert(escape_bytes(s) =~= Seq::<u8>::empty());
        assert(escape_bytes(s) + esc_byte(b) =~= esc_byte(b));
    } else {
        assert(t[0] == s[0]);
        assert(t.drop_first() =~= s.drop_first().push(b));
        lemma_escape_snoc(s.drop_first(), b);
        assert(escape_bytes(t) == esc_byte(s[0]) + (escape_bytes(s.drop_first()) + esc_byte(b)));
        assert(esc_byte(s[0]) + (escape_bytes(s.drop_first()) + esc_byte(b)) =~= (esc_byte(s[0])
            + escape_bytes(s.drop_first())) + esc_byte(b));
    }
}

/// A quoted string: quote, escaped content bytes, quote.
pub open spec fn emit_str_spec(content: Seq<char>) -> Seq<u8> {
    seq![0x22u8] + escape_bytes(encode_utf8(content)) + seq![0x22u8]
}

/// Appends the escaped content bytes of `s`.
fn push_escaped(out: &mut Vec<u8>, s: &str)
    ensures
        final(out)@ == old(out)@ + escape_bytes(encode_utf8(s@)),
{
    let bs = s.as_bytes();
    let ghost gb = bs@;
    let n = bs.len();
    let mut i: usize = 0;
    proof {
        assert(gb.take(0) =~= Seq::<u8>::empty());
        assert(old(out)@ + escape_bytes(gb.take(0)) =~= old(out)@);
    }
    while i < n
        invariant
            i <= n,
            n == gb.len(),
            bs@ == gb,
            gb == encode_utf8(s@),
            out@ == old(out)@ + escape_bytes(gb.take(i as int)),
        decreases n - i,
    {
        let b = bs[i];
        if b == 0x22 {
            out.push(0x5c);
            out.push(0x22);
        } else if b == 0x5c {
            out.push(0x5c);
            out.push(0x5c);
        } else if b == 0x0a {
            out.push(0x5c);
            out.push(0x6e);
        } else if b == 0x0d {
            out.push(0x5c);
            out.push(0x72);
        } else if b == 0x09 {
            out.push(0x5c);
            out.push(0x74);
        } else {
            out.push(b);
        }
        proof {
            lemma_escape_snoc(gb.take(i as int), gb[i as int]);
            assert(gb.take(i + 1) =~= gb.take(i as int).push(gb[i as int]));
            assert(out@ =~= old(out)@ + escape_bytes(gb.take(i + 1)));
        }
        i = i + 1;
    }
    proof {
        assert(gb.take(n as int) =~= gb);
    }
}

/// Appends a quoted, escaped string.
pub fn push_str_tok(out: &mut Vec<u8>, s: &str)
    ensures
        final(out)@ == old(out)@ + emit_str_spec(s@),
{
    out.push(0x22);
    push_escaped(out, s);
    out.push(0x22);
    proof {
        assert(final(out)@ =~= old(out)@ + emit_str_spec(s@));
    }
}

/// Parses string content from just after the opening quote, undoing the
/// emitter's escapes; an unknown escape is kept as its two raw bytes.
/// Returns the decoded content bytes and the position after the closing
/// quote.
pub open spec fn parse_str_body(s: Seq<u8>, i: int, acc: Seq<u8>) -> Option<(Seq<u8>, int)>
    decreases s.len() - i,
{
    if i < 0 || i >= s.len() {
        None
    } else if s[i] == 0x22 {
        Some((acc, i + 1))
    } else if s[i] == 0x5c {
        if i + 1 >= s.len() {
            None
        } else {
            let e = s[i + 1];
            if e == 0x22 || e == 0x5c || e == 0x2f {
                parse_str_body(s, i + 2, acc.push(e))
            } else if e == 0x6e {
                parse_str_body(s, i + 2, acc.push(0x0a))
            } else if e == 0x72 {
                parse_str_body(s, i + 2, acc.push(0x0d))
            } else if e == 0x74 {
                parse_str_body(s, i + 2, acc.push(0x09))
            } else if e == 0x62 {
                parse_str_body(s, i + 2, acc.push(0x08))
            } else if e == 0x66 {
                parse_str_body(s, i + 2, acc.push(0x0c))
            } else {
                parse_str_body(s, i + 2, acc.push(0x5c).push(e))
            }
        }
    } else {
        parse_str_body(s, i + 1, acc.push(s[i]))
    }
}

pub proof fn lemma_parse_str_body_bounds(s: Seq<u8>, i: int, acc: Seq<u8>)
    requires
        0 <= i <= s.len(),
    ensures
        parse_str_body(s, i, acc) matches Some(r) ==> i < r.1 <= s.len(),
    decreases s.len() - i,
{
    if i < s.len() && s[i] != 0x22 {
        if s[i] == 0x5c {
            if i + 1 < s.len() {
                let e = s[i + 1];
                if e == 0x22 || e == 0x5c || e == 0x2f {
                    lemma_parse_str_body_bounds(s, i + 2, acc.push(e));
                } else if e == 0x6e {
                    lemma_parse_str_body_bounds(s, i + 2, acc.push(0x0a));
                } else if e == 0x72 {
                    lemma_parse_str_body_bounds(s, i + 2, acc.push(0x0d));
                } else if e == 0x74 {
                    lemma_parse_str_body_bounds(s, i + 2, acc.push(0x09));
                } else if e == 0x62 {
                    lemma_parse_str_body_bounds(s, i + 2, acc.push(0x08));
                } else if e == 0x66 {
                    lemma_parse_str_body_bounds(s, i + 2, acc.push(0x0c));
                } else {
                    lemma_parse_str_body_bounds(s, i + 2, acc.push(0x5c).push(e));
                }
            }
        } else {
            lemma_parse_str_body_bounds(s, i + 1, acc.push(s[i]));
        }
    }
}

/// The executable twin of `parse_str_body`.
fn scan_str_body(s: &[u8], i: usize, acc: Vec<u8>) -> (r: Option<(Vec<u8>, usize)>)
    requires
        i <= s@.len(),
    ensures
        match r {
            Some((v, j)) => parse_str_body(s@, i as int, acc@) == Some((v@, j as int)) && j
                <= s@.len(),
            None => parse_str_body(s@, i as int, acc@) is None,
        },
    decreases s@.len() - i,
{
    let mut acc = acc;
    if i >= s.len() {
        return None;
    }
    let b = s[i];
    if b == 0x22 {
        return Some((acc, i + 1));
    }
    if b == 0x5c {
        if i + 1 >= s.len() {
            return None;
        }
        let e = s[i + 1];
        if e == 0x22 || e == 0x5c || e == 0x2f {
            acc.push(e);
        } else if e == 0x6e {
            acc.push(0x0a);
        } else if e == 0x72 {
            acc.push(0x0d);
        } else if e == 0x74 {
            acc.push(0x09);
        } else if e == 0x62 {
            acc.push(0x08);
        } else if e == 0x66 {
            acc.push(0x0c);
        } else {
            acc.push(0x5c);
            acc.push(e);
        }
        return scan_str_body(s, i + 2, acc);
    }
    acc.push(b);
    scan_str_body(s, i + 1, acc)
}

/// A whole quoted string from position `i`: the decoded characters and
/// the position after the closing quote. Fails when the quote is
/// missing, unclosed, or the content is not valid UTF-8.
pub open spec fn parse_string_spec(s: Seq<u8>, i: int) -> Option<(Seq<char>, int)> {
    if 0 <= i < s.len() && s[i] == 0x22 {
        match parse_str_body(s, i + 1, Seq::empty()) {
            Some((bs, j)) => if valid_utf8(bs) {
                Some((decode_utf8(bs), j))
            } else {
                None
            },
            None => None,
        }
    } else {
        None
    }
}

fn parse_string(s: &[u8], i: usize) -> (r: Option<(String, usize)>)
    requires
        i <= s@.len(),
    ensures
        match r {
            Some((t, j)) => parse_string_spec(s@, i as int) == Some((t@, j as int)) && i < j
                <= s@.len(),
            None => parse_string_spec(s@, i as int) is None,
        },
{
    if i >= s.len() || s[i] != 0x22 {
        return None;
    }
    let body = scan_str_body(s, i + 1, Vec::new());
    proof {
        lemma_parse_str_body_bounds(s@, i + 1 as int, Seq::empty());
    }
    match body {
        Some((bs, j)) => {
            match bytes_to_string(bs.as_slice()) {
                Some(t) => Some((t, j)),
                None => None,
            }
        },
        None => None,
    }
}

/// A byte an unquoted number token may hold.
pub open spec fn is_num_byte(b: u8) -> bool {
    (0x30 <= b <= 0x39) || b == 0x2b || b == 0x2d || b == 0x2e || b == 0x45 || b == 0x65
}

/// The unquoted token starting at `i`: its bytes and the position after.
pub open spec fn scan_token_spec(s: Seq<u8>, i: int, acc: Seq<u8>) -> (Seq<u8>, int)
    decreases s.len() - i,
{
    if 0 <= i < s.len() && !is_delim_byte(s[i]) {
        scan_token_spec(s, i + 1, acc.push(s[i]))
    } else {
        (acc, i)
    }
}

fn scan_token(s: &[u8], i: usize, acc: Vec<u8>) -> (r: (Vec<u8>, usize))
    requires
        i <= s@.len(),
    ensures
        (r.0@, r.1 as int) == scan_token_spec(s@, i as int, acc@),
        i <= r.1 <= s@.len(),
    decreases s@.len() - i,
{
    let mut acc = acc;
    if i < s.len() {
        let b = s[i];
        if !(b == 0x20 || b == 0x09 || b == 0x0a || b == 0x0d || b == 0x2c || b == 0x7d || b
            == 0x5d || b == 0x3a) {
            acc.push(b);
            return scan_token(s, i + 1, acc);
        }
    }
    (acc, i)
}

/// A scalar value as the files carry it: null, a boolean, a number kept
/// as its digits, or a string.
pub ghost enum ScalarSp {
    SNull,
    STrue,
    SFalse,
    SNum(Seq<u8>),
    SStr(Seq<char>),
}

pub enum Scalar {
    VNull,
    VTrue,
    VFalse,
    VNum(Vec<u8>),
    VStr(String),
}

pub open spec fn scalar_view(v: Scalar) -> ScalarSp {
    match v {
        Scalar::VNull => ScalarSp::SNull,
        Scalar::VTrue => ScalarSp::STrue,
        Scalar::VFalse => ScalarSp::SFalse,
        Scalar::VNum(b) => ScalarSp::SNum(b@),
        Scalar::VStr(t) => ScalarSp::SStr(t@),
    }
}

pub open spec fn true_bytes() -> Seq<u8> {
    seq![0x74u8, 0x72u8, 0x75u8, 0x65u8]
}

pub open spec fn false_bytes() -> Seq<u8> {
    seq![0x66u8, 0x61u8, 0x6cu8, 0x73u8, 0x65u8]
}

pub open spec fn null_bytes() -> Seq<u8> {
    seq![0x6eu8, 0x75u8, 0x6cu8, 0x6cu8]
}

/// What an unquoted token denotes; anything but the three keywords and a
/// digits-and-signs token is refused, as a strict reader would.
pub open spec fn classify_token(t: Seq<u8>) -> Option<ScalarSp> {
    if t == true_bytes() {
        Some(ScalarSp::STrue)
    } else if t == false_bytes() {
        Some(ScalarSp::SFalse)
    } else if t == null_bytes() {
        Some(ScalarSp::SNull)
    } else if t.len() > 0 && (forall|k: int| 0 <= k < t.len() ==> is_num_byte(#[trigger] t[k])) {
        Some(ScalarSp::SNum(t))
    } else {
        None
    }
}

/// Tests two byte vectors for equality.
fn bytes_eq(a: &[u8], b: &[u8]) -> (r: bool)
    ensures
        r == (a@ == b@),
{
    if a.len() != b.len() {
        return false;
    }
    let mut i: usize = 0;
    loop
        invariant
            i <= a@.len(),
            a@.len() == b@.len(),
            forall|j: int| 0 <= j < i ==> a@[j] == b@[j],
        decreases a@.len() - i,
    {
        if i >= a.len() {
            assert(a@ =~= b@);
            return true;
        }
        if a[i] != b[i] {
            return false;
        }
        i = i + 1;
    }
}

/// A scalar value at position `i` (no leading whitespace): a string or a
/// classified token.
pub open spec fn parse_scalar_spec(s: Seq<u8>, i: int) -> Option<(ScalarSp, int)> {
    if i < 0 || i >= s.len() {
        None
    } else if s[i] == 0x22 {
        match parse_string_spec(s, i) {
            Some((t, j)) => Some((ScalarSp::SStr(t), j)),
            None => None,
        }
    } else if s[i] == 0x7b || s[i] == 0x5b {
        None
    } else {
        let (t, j) = scan_token_spec(s, i, Seq::empty());
        match classify_token(t) {
            Some(v) => if j > i {
                Some((v, j))
            } else {
                None
            },
            None => None,
        }
    }
}

fn parse_scalar(s: &[u8], i: usize) -> (r: Option<(Scalar, usize)>)
    requires
        i <= s@.len(),
    ensures
        match r {
            Some((v, j)) => parse_scalar_spec(s@, i as int) == Some((scalar_view(v), j as int)) && i
                < j <= s@.len() && (v matches Scalar::VNum(b) ==> crate::text::all_ascii(b@)),
            None => parse_scalar_spec(s@, i as int) is None,
        },
{
    if i >= s.len() {
        return None;
    }
    let b = s[i];
    if b == 0x22 {
        return match parse_string(s, i) {
            Some((t, j)) => Some((Scalar::VStr(t), j)),
            None => None,
        };
    }
    if b == 0x7b || b == 0x5b {
        return None;
    }
    let acc0: Vec<u8> = Vec::new();
    proof {
        assert(acc0@ =~= Seq::<u8>::empty());
    }
    let (t, j) = scan_token(s, i, acc0);
    if j <= i {
        proof {
            assert(classify_token(t@) matches Some(_) ==> parse_scalar_spec(s@, i as int) is None);
        }
        match classify_exec(t) {
            Some(_) => {
                return None;
            },
            None => {
                return None;
            },
        }
    }
    match classify_exec(t) {
        Some(v) => Some((v, j)),
        None => None,
    }
}

/// Sorts an unquoted token into the scalar it denotes.
fn classify_exec(t: Vec<u8>) -> (r: Option<Scalar>)
    ensures
        match r {
            Some(v) => classify_token(t@) == Some(scalar_view(v)) && (v matches Scalar::VNum(b)
                ==> crate::text::all_ascii(b@)),
            None => classify_token(t@) is None,
        },
{
    proof {
        assert(true_bytes().len() == 4 && true_bytes()[0] == 0x74 && true_bytes()[1] == 0x72
            && true_bytes()[2] == 0x75 && true_bytes()[3] == 0x65);
        assert(false_bytes().len() == 5 && false_bytes()[0] == 0x66 && false_bytes()[1] == 0x61
            && false_bytes()[2] == 0x6c && false_bytes()[3] == 0x73 && false_bytes()[4] == 0x65);
        assert(null_bytes().len() == 4 && null_bytes()[0] == 0x6e && null_bytes()[1] == 0x75
            && null_bytes()[2] == 0x6c && null_bytes()[3] == 0x6c);
    }
    if t.len() == 4 && t[0] == 0x74 && t[1] == 0x72 && t[2] == 0x75 && t[3] == 0x65 {
        proof {
            assert(t@ =~= true_bytes());
        }
        return Some(Scalar::VTrue);
    }
    if t.len() == 5 && t[0] == 0x66 && t[1] == 0x61 && t[2] == 0x6c && t[3] == 0x73 && t[4]
        == 0x65 {
        proof {
            assert(t@ =~= false_bytes());
        }
        return Some(Scalar::VFalse);
    }
    if t.len() == 4 && t[0] == 0x6e && t[1] == 0x75 && t[2] == 0x6c && t[3] == 0x6c {
        proof {
            assert(t@ =~= null_bytes());
        }
        return Some(Scalar::VNull);
    }
    proof {
        assert(t@ != true_bytes() && t@ != false_bytes() && t@ != null_bytes());
    }
    if t.len() == 0 {
        return None;
    }
    let n = t.len();
    let mut k: usize = 0;
    while k < n
        invariant
            k <= n,
            n == t@.len(),
            n > 0,
            t@ != true_bytes() && t@ != false_bytes() && t@ != null_bytes(),
            forall|x: int| 0 <= x < k ==> is_num_byte(#[trigger] t@[x]),
        decreases n - k,
    {
        let c = t[k];
        if !((0x30 <= c && c <= 0x39) || c == 0x2b || c == 0x2d || c == 0x2e || c == 0x45 || c
            == 0x65) {
            return None;
        }
        k = k + 1;
    }
    Some(Scalar::VNum(t))
}

/// Steps over one nested object or array, counting brackets and passing
/// over quoted strings; starts just after the opening bracket with
/// `depth` one. Returns the position after the matching closer.
pub open spec fn skip_composite_spec(
    s: Seq<u8>,
    i: int,
    depth: int,
    in_str: bool,
    esc: bool,
) -> Option<int>
    decreases s.len() - i,
{
    if i < 0 || i >= s.len() {
        None
    } else if in_str {
        if esc {
            skip_composite_spec(s, i + 1, depth, true, false)
        } else if s[i] == 0x5c {
            skip_composite_spec(s, i + 1, depth, true, true)
        } else if s[i] == 0x22 {
            skip_composite_spec(s, i + 1, depth, false, false)
        } else {
            skip_composite_spec(s, i + 1, depth, true, false)
        }
    } else if s[i] == 0x7b || s[i] == 0x5b {
        skip_composite_spec(s, i + 1, depth + 1, false, false)
    } else if s[i] == 0x7d || s[i] == 0x5d {
        if depth <= 1 {
            Some(i + 1)
        } else {
            skip_composite_spec(s, i + 1, depth - 1, false, false)
        }
    } else if s[i] == 0x22 {
        skip_composite_spec(s, i + 1, depth, true, false)
    } else {
        skip_composite_spec(s, i + 1, depth, false, false)
    }
}

pub proof fn lemma_skip_composite_bounds(s: Seq<u8>, i: int, depth: int, in_str: bool, esc: bool)
    requires
        0 <= i <= s.len(),
    ensures
        skip_composite_spec(s, i, depth, in_str, esc) matches Some(j) ==> i < j <= s.len(),
    decreases s.len() - i,
{
    if i < s.len() {
        if in_str {
            if esc {
                lemma_skip_composite_bounds(s, i + 1, depth, true, false);
            } else if s[i] == 0x5c {
                lemma_skip_composite_bounds(s, i + 1, depth, true, true);
            } else if s[i] == 0x22 {
                lemma_skip_composite_bounds(s, i + 1, depth, false, false);
            } else {
                lemma_skip_composite_bounds(s, i + 1, depth, true, false);
            }
        } else if s[i] == 0x7b || s[i] == 0x5b {
            lemma_skip_composite_bounds(s, i + 1, depth + 1, false, false);
        } else if s[i] == 0x7d || s[i] == 0x5d {
            if depth > 1 {
                lemma_skip_composite_bounds(s, i + 1, depth - 1, false, false);
            }
        } else if s[i] == 0x22 {
            lemma_skip_composite_bounds(s, i + 1, depth, true, false);
        } else {
            lemma_skip_composite_bounds(s, i + 1, depth, false, false);
        }
    }
}

fn skip_composite(s: &[u8], i: usize, depth: usize, in_str: bool, esc: bool) -> (r: Option<usize>)
    requires
        i <= s@.len(),
        depth <= i,
    ensures
        match r {
            Some(j) => skip_composite_spec(s@, i as int, depth as int, in_str, esc) == Some(
                j as int,
            ) && i < j <= s@.len(),
            None => skip_composite_spec(s@, i as int, depth as int, in_str, esc) is None,
        },
    decreases s@.len() - i,
{
    proof {
        lemma_skip_composite_bounds(s@, i as int, depth as int, in_str, esc);
    }
    if i >= s.len() {
        return None;
    }
    let b = s[i];
    if in_str {
        if esc {
            skip_composite(s, i + 1, depth, true, false)
        } else if b == 0x5c {
            skip_composite(s, i + 1, depth, true, true)
        } else if b == 0x22 {
            skip_composite(s, i + 1, depth, false, false)
        } else {
            skip_composite(s, i + 1, depth, true, false)
        }
    } else if b == 0x7b || b == 0x5b {
        skip_composite(s, i + 1, depth + 1, false, false)
    } else if b == 0x7d || b == 0x5d {
        if depth <= 1 {
            Some(i + 1)
        } else {
            skip_composite(s, i + 1, depth - 1, false, false)
        }
    } else if b == 0x22 {
        skip_composite(s, i + 1, depth, true, false)
    } else {
        skip_composite(s, i + 1, depth, false, false)
    }
}

/// The abstract content of one balance record.
pub ghost struct RecSp {
    pub balance: Seq<char>,
    pub updated_at: Seq<char>,
    pub sync: Option<bool>,
    pub msg: Seq<char>,
}

pub open spec fn empty_rec() -> RecSp {
    RecSp {
        balance: Seq::empty(),
        updated_at: Seq::empty(),
        sync: None,
        msg: Seq::empty(),
    }
}

pub open spec fn rec_view(r: crate::models::BalanceCacheRecord) -> RecSp {
    RecSp {
        balance: r.balance@,
        updated_at: r.updated_at@,
        sync: r.apikey_sync_success,
        msg: r.apikey_sync_message@,
    }
}

/// The text a scalar stands for when a text is wanted: the string's own
/// characters, a number's digits, a keyword's name; null has none.
pub open spec fn scalar_text(v: ScalarSp) -> Seq<char> {
    match v {
        ScalarSp::SStr(t) => t,
        ScalarSp::SNum(b) => crate::text::ascii_chars_of(b),
        ScalarSp::STrue => seq!['t', 'r', 'u', 'e'],
        ScalarSp::SFalse => seq!['f', 'a', 'l', 's', 'e'],
        ScalarSp::SNull => Seq::empty(),
    }
}

/// The boolean a scalar stands for, if it is one.
pub open spec fn scalar_bool(v: ScalarSp) -> Option<bool> {
    match v {
        ScalarSp::STrue => Some(true),
        ScalarSp::SFalse => Some(false),
        _ => None,
    }
}

fn scalar_text_exec(v: &Scalar) -> (r: String)
    requires
        v matches Scalar::VNum(b) ==> crate::text::all_ascii(b@),
    ensures
        r@ == scalar_text(scalar_view(*v)),
{
    match v {
        Scalar::VStr(t) => t.clone(),
        Scalar::VNum(b) => {
            proof {
                crate::text::lemma_ascii_bytes_utf8(b@);
            }
            match bytes_to_string(b.as_slice()) {
                Some(t) => t,
                None => {
                    proof {
                        assert(false);
                    }
                    String::new()
                },
            }
        },
        Scalar::VTrue => {
            let t = String::from_str("true");
            proof {
                reveal_strlit("true");
                assert(t@ =~= seq!['t', 'r', 'u', 'e']);
            }
            t
        },
        Scalar::VFalse => {
            let t = String::from_str("false");
            proof {
                reveal_strlit("false");
                assert(t@ =~= seq!['f', 'a', 'l', 's', 'e']);
            }
            t
        },
        Scalar::VNull => String::new(),
    }
}

/// How one member of a record object lands in the record: the three text
/// fields are trimmed, the sync flag takes booleans only, anything else
/// is passed over.
pub open spec fn assign_field(acc: RecSp, k: Seq<char>, v: ScalarSp) -> RecSp {
    if k == "balance"@ {
        RecSp { balance: crate::text::trim_spec(scalar_text(v)), ..acc }
    } else if k == "updated_at"@ {
        RecSp { updated_at: crate::text::trim_spec(scalar_text(v)), ..acc }
    } else if k == "apikey_sync_success"@ {
        RecSp { sync: scalar_bool(v), ..acc }
    } else if k == "apikey_sync_message"@ {
        RecSp { msg: crate::text::trim_spec(scalar_text(v)), ..acc }
    } else {
        acc
    }
}

/// Parses record-object members from inside the braces, folding each
/// known field into the record; a composite member value counts as null.
pub open spec fn parse_record_members(s: Seq<u8>, i: int, acc: RecSp) -> Option<(RecSp, int)>
    decreases s.len() - i,
{
    if i < 0 {
        None
    } else {
        let a = skip_ws_spec(s, i);
        if a >= s.len() {
            None
        } else if s[a] == 0x7d {
            Some((acc, a + 1))
        } else {
            match parse_string_spec(s, a) {
                None => None,
                Some((k, j)) => {
                    let c = skip_ws_spec(s, j);
                    if c >= s.len() || s[c] != 0x3a {
                        None
                    } else {
                        let vpos = skip_ws_spec(s, c + 1);
                        if vpos >= s.len() {
                            None
                        } else {
                            let parsed: Option<(ScalarSp, int)> = if s[vpos] == 0x7b || s[vpos]
                                == 0x5b {
                                match skip_composite_spec(s, vpos + 1, 1, false, false) {
                                    Some(e) => Some((ScalarSp::SNull, e)),
                                    None => None,
                                }
                            } else {
                                parse_scalar_spec(s, vpos)
                            };
                            match parsed {
                                None => None,
                                Some((v, n)) => {
                                    let acc2 = assign_field(acc, k, v);
                                    let t = skip_ws_spec(s, n);
                                    if t >= s.len() {
                                        None
                                    } else if s[t] == 0x2c {
                                        if t + 1 > i && t + 1 <= s.len() {
                                            parse_record_members(s, t + 1, acc2)
                                        } else {
                                            None
                                        }
                                    } else if s[t] == 0x7d {
                                        Some((acc2, t + 1))
                                    } else {
                                        None
                                    }
                                },
                            }
                        }
                    }
                },
            }
        }
    }
}

/// The executable twin of `parse_record_members`.
fn scan_record_members(s: &[u8], i: usize, acc: crate::models::BalanceCacheRecord) -> (r: Option<
    (crate::models::BalanceCacheRecord, usize),
>)
    requires
        i <= s@.len(),
    ensures
        match r {
            Some((rec, j)) => parse_record_members(s@, i as int, rec_view(acc)) == Some(
                (rec_view(rec), j as int),
            ) && j <= s@.len(),
            None => parse_record_members(s@, i as int, rec_view(acc)) is None,
        },
    decreases s@.len() - i,
{
    let mut acc = acc;
    let a = skip_ws(s, i);
    if a >= s.len() {
        return None;
    }
    if s[a] == 0x7d {
        return Some((acc, a + 1));
    }
    let (k, j) = match parse_string(s, a) {
        Some(p) => p,
        None => {
            return None;
        },
    };
    let c = skip_ws(s, j);
    if c >= s.len() || s[c] != 0x3a {
        return None;
    }
    let vpos = skip_ws(s, c + 1);
    if vpos >= s.len() {
        return None;
    }
    let parsed: Option<(Scalar, usize)> = if s[vpos] == 0x7b || s[vpos] == 0x5b {
        match skip_composite(s, vpos + 1, 1, false, false) {
            Some(e) => Some((Scalar::VNull, e)),
            None => None,
        }
    } else {
        parse_scalar(s, vpos)
    };
    let (v, n) = match parsed {
        Some(p) => p,
        None => {
            return None;
        },
    };
    let ghost acc_in = rec_view(acc);
    if crate::strmap::str_eq(k.as_str(), "balance") {
        acc.balance = apply_text(&v);
    } else if crate::strmap::str_eq(k.as_str(), "updated_at") {
        acc.updated_at = apply_text(&v);
    } else if crate::strmap::str_eq(k.as_str(), "apikey_sync_success") {
        acc.apikey_sync_success = match v {
            Scalar::VTrue => Some(true),
            Scalar::VFalse => Some(false),
            _ => None,
        };
    } else if crate::strmap::str_eq(k.as_str(), "apikey_sync_message") {
        acc.apikey_sync_message = apply_text(&v);
    }
    proof {
        assert(rec_view(acc) == assign_field(acc_in, k@, scalar_view(v)));
    }
    let t = skip_ws(s, n);
    if t >= s.len() {
        return None;
    }
    if s[t] == 0x2c {
        if t + 1 > i {
            return scan_record_members(s, t + 1, acc);
        }
        return None;
    }
    if s[t] == 0x7d {
        return Some((acc, t + 1));
    }
    None
}

/// The trimmed text of a field scalar.
fn apply_text(v: &Scalar) -> (r: String)
    requires
        v matches Scalar::VNum(b) ==> crate::text::all_ascii(b@),
    ensures
        r@ == crate::text::trim_spec(scalar_text(scalar_view(*v))),
{
    let t = scalar_text_exec(v);
    crate::text::trim_string(t.as_str())
}

/// A parsed account-map entry value: a record object, or a scalar kept
/// as its raw text (composites count as empty text).
pub enum AccVal {
    ARec(crate::models::BalanceCacheRecord),
    AText(String),
}

pub ghost enum AvSp {
    AvRec(RecSp),
    AvText(Seq<char>),
}

pub open spec fn av_view(v: AccVal) -> AvSp {
    match v {
        AccVal::ARec(r) => AvSp::AvRec(rec_view(r)),
        AccVal::AText(t) => AvSp::AvText(t@),
    }
}

pub open spec fn av_entries_view(s: Seq<(String, AccVal)>) -> Seq<(Seq<char>, AvSp)> {
    Seq::new(s.len(), |i: int| (s[i].0@, av_view(s[i].1)))
}

pub open spec fn vdistinct<T>(s: Seq<(Seq<char>, T)>) -> bool {
    forall|i: int, j: int| 0 <= i < j < s.len() ==> (#[trigger] s[i]).0 != (#[trigger] s[j]).0
}

/// Binds a key in an abstract entry list: rewrites the first entry that
/// holds it, or appends the binding.
pub open spec fn alist_put<T>(s: Seq<(Seq<char>, T)>, k: Seq<char>, v: T) -> Seq<(Seq<char>, T)>
    decreases s.len(),
{
    if s.len() == 0 {
        seq![(k, v)]
    } else if s[0].0 == k {
        s.update(0, (k, v))
    } else {
        seq![s[0]] + alist_put(s.drop_first(), k, v)
    }
}

pub proof fn lemma_alist_put_update<T>(s: Seq<(Seq<char>, T)>, i: int, k: Seq<char>, v: T)
    requires
        vdistinct(s),
        0 <= i < s.len(),
        s[i].0 == k,
    ensures
        alist_put(s, k, v) == s.update(i, (k, v)),
    decreases s.len(),
{
    if i == 0 {
    } else {
        assert(s[0].0 != k);
        assert(s.drop_first()[i - 1] == s[i]);
        lemma_alist_put_update(s.drop_first(), i - 1, k, v);
        assert(seq![s[0]] + s.drop_first().update(i - 1, (k, v)) =~= s.update(i, (k, v)));
    }
}

pub proof fn lemma_alist_put_push<T>(s: Seq<(Seq<char>, T)>, k: Seq<char>, v: T)
    requires
        forall|i: int| 0 <= i < s.len() ==> (#[trigger] s[i]).0 != k,
    ensures
        alist_put(s, k, v) == s.push((k, v)),
    decreases s.len(),
{
    if s.len() == 0 {
        assert(alist_put(s, k, v) =~= s.push((k, v)));
    } else {
        lemma_alist_put_push(s.drop_first(), k, v);
        assert(seq![s[0]] + s.drop_first().push((k, v)) =~= s.push((k, v)));
    }
}

/// An accounts table under construction, with the view bridge from the
/// string map's insert to the abstract `alist_put`.
fn acc_insert(m: &mut crate::strmap::StrMap<AccVal>, k: String, v: AccVal)
    requires
        old(m).wf(),
    ensures
        final(m).wf(),
        av_entries_view(final(m)@) == alist_put(av_entries_view(old(m)@), k@, av_view(v)),
{
    let ghost before = m@;
    let ghost gv = av_view(v);
    proof {
        assert forall|i: int, j: int|
            0 <= i < j < av_entries_view(before).len() implies (#[trigger] av_entries_view(
            before,
        )[i]).0 != (#[trigger] av_entries_view(before)[j]).0 by {
            assert(before[i].0@ != before[j].0@);
        }
    }
    m.insert(k, v);
    proof {
        let after = m@;
        let vb = av_entries_view(before);
        if exists|i: int|
            0 <= i < before.len() && (#[trigger] before[i].0)@ == k@ && after == before.update(
            i,
            (k, v),
        ) {
            let i = choose|i: int|
                0 <= i < before.len() && (#[trigger] before[i].0)@ == k@ && after == before.update(
                    i,
                    (k, v),
                );
            lemma_alist_put_update(vb, i, k@, gv);
            assert(av_entries_view(after) =~= vb.update(i, (k@, gv)));
        } else {
            assert(crate::strmap::lookup(before, k@) is None && after == before.push((k, v)));
            assert forall|i: int| 0 <= i < vb.len() implies (#[trigger] vb[i]).0 != k@ by {
                if before[i].0@ == k@ {
                    crate::strmap::lemma_lookup_at(before, i);
                }
            }
            lemma_alist_put_push(vb, k@, gv);
            assert(av_entries_view(after) =~= vb.push((k@, gv)));
        }
    }
}

/// Parses account-map members from inside the braces: each member value
/// is a record object, a scalar kept as text, or a composite kept as
/// empty text; later bindings of a key replace earlier ones.
pub open spec fn parse_accounts_members(
    s: Seq<u8>,
    i: int,
    acc: Seq<(Seq<char>, AvSp)>,
) -> Option<(Seq<(Seq<char>, AvSp)>, int)>
    decreases s.len() - i,
{
    if i < 0 {
        None
    } else {
        let a = skip_ws_spec(s, i);
        if a >= s.len() {
            None
        } else if s[a] == 0x7d {
            Some((acc, a + 1))
        } else {
            match parse_string_spec(s, a) {
                None => None,
                Some((k, j)) => {
                    let c = skip_ws_spec(s, j);
                    if c >= s.len() || s[c] != 0x3a {
                        None
                    } else {
                        let vpos = skip_ws_spec(s, c + 1);
                        if vpos >= s.len() {
                            None
                        } else {
                            let parsed: Option<(AvSp, int)> = if s[vpos] == 0x7b {
                                match parse_record_members(s, vpos + 1, empty_rec()) {
                                    Some((r, n)) => Some((AvSp::AvRec(r), n)),
                                    None => None,
                                }
                            } else if s[vpos] == 0x5b {
                                match skip_composite_spec(s, vpos + 1, 1, false, false) {
                                    Some(e) => Some((AvSp::AvText(Seq::empty()), e)),
                                    None => None,
                                }
                            } else {
                                match parse_scalar_spec(s, vpos) {
                                    Some((v, n)) => Some((AvSp::AvText(scalar_text(v)), n)),
                                    None => None,
                                }
                            };
                            match parsed {
                                None => None,
                                Some((av, n)) => {
                                    let acc2 = alist_put(acc, k, av);
                                    let t = skip_ws_spec(s, n);
                                    if t >= s.len() {
                                        None
                                    } else if s[t] == 0x2c {
                                        if t + 1 > i && t + 1 <= s.len() {
                                            parse_accounts_members(s, t + 1, acc2)
                                        } else {
                                            None
                                        }
                                    } else if s[t] == 0x7d {
                                        Some((acc2, t + 1))
                                    } else {
                                        None
                                    }
                                },
                            }
                        }
                    }
                },
            }
        }
    }
}

/// The executable twin of `parse_accounts_members`.
fn scan_accounts_members(s: &[u8], i: usize, acc: crate::strmap::StrMap<AccVal>) -> (r: Option<
    (crate::strmap::StrMap<AccVal>, usize),
>)
    requires
        i <= s@.len(),
        acc.wf(),
    ensures
        match r {
            Some((m, j)) => parse_accounts_members(s@, i as int, av_entries_view(acc@)) == Some(
                (av_entries_view(m@), j as int),
            ) && j <= s@.len() && m.wf(),
            None => parse_accounts_members(s@, i as int, av_entries_view(acc@)) is None,
        },
    decreases s@.len() - i,
{
    let mut acc = acc;
    let a = skip_ws(s, i);
    if a >= s.len() {
        return None;
    }
    if s[a] == 0x7d {
        return Some((acc, a + 1));
    }
    let (k, j) = match parse_string(s, a) {
        Some(p) => p,
        None => {
            return None;
        },
    };
    let c = skip_ws(s, j);
    if c >= s.len() || s[c] != 0x3a {
        return None;
    }
    let vpos = skip_ws(s, c + 1);
    if vpos >= s.len() {
        return None;
    }
    let parsed: Option<(AccVal, usize)> = if s[vpos] == 0x7b {
        match scan_record_members(s, vpos + 1, crate::models::BalanceCacheRecord::empty()) {
            Some((r, n)) => Some((AccVal::ARec(r), n)),
            None => None,
        }
    } else if s[vpos] == 0x5b {
        match skip_composite(s, vpos + 1, 1, false, false) {
            Some(e) => Some((AccVal::AText(String::new()), e)),
            None => None,
        }
    } else {
        match parse_scalar(s, vpos) {
            Some((v, n)) => Some((AccVal::AText(scalar_text_exec(&v)), n)),
            None => None,
        }
    };
    let (av, n) = match parsed {
        Some(p) => p,
        None => {
            return None;
        },
    };
    acc_insert(&mut acc, k, av);
    let t = skip_ws(s, n);
    if t >= s.len() {
        return None;
    }
    if s[t] == 0x2c {
        if t + 1 > i {
            return scan_accounts_members(s, t + 1, acc);
        }
        return None;
    }
    if s[t] == 0x7d {
        return Some((acc, t + 1));
    }
    None
}

/// What a whole state file gives the reader: the accounts table (the
/// `accounts` member when it is an object, else the root members
/// themselves), and the root `updated_at` text.
pub ghost struct RootSp {
    pub accounts: Option<Seq<(Seq<char>, AvSp)>>,
    pub flat: Seq<(Seq<char>, AvSp)>,
    pub updated: Seq<char>,
}

pub open spec fn empty_root() -> RootSp {
    RootSp { accounts: None, flat: Seq::empty(), updated: Seq::empty() }
}

/// One root member folded into the running result.
pub open spec fn root_member(
    acc: RootSp,
    k: Seq<char>,
    av: AvSp,
    accounts_here: Option<Seq<(Seq<char>, AvSp)>>,
    updated_here: Seq<char>,
) -> RootSp {
    RootSp {
        accounts: if k == "accounts"@ {
            accounts_here
        } else {
            acc.accounts
        },
        flat: alist_put(acc.flat, k, av),
        updated: if k == "updated_at"@ {
            updated_here
        } else {
            acc.updated
        },
    }
}

pub open spec fn parse_root_members(s: Seq<u8>, i: int, acc: RootSp) -> Option<(RootSp, int)>
    decreases s.len() - i,
{
    if i < 0 {
        None
    } else {
        let a = skip_ws_spec(s, i);
        if a >= s.len() {
            None
        } else if s[a] == 0x7d {
            Some((acc, a + 1))
        } else {
            match parse_string_spec(s, a) {
                None => None,
                Some((k, j)) => {
                    let c = skip_ws_spec(s, j);
                    if c >= s.len() || s[c] != 0x3a {
                        None
                    } else {
                        let vpos = skip_ws_spec(s, c + 1);
                        if vpos >= s.len() {
                            None
                        } else {
                            let parsed: Option<(RootSp, int)> = if s[vpos] == 0x7b {
                                if k == "accounts"@ {
                                    match parse_accounts_members(s, vpos + 1, Seq::empty()) {
                                        Some((list, n)) => Some(
                                            (
                                                root_member(
                                                    acc,
                                                    k,
                                                    AvSp::AvText(Seq::empty()),
                                                    Some(list),
                                                    Seq::empty(),
                                                ),
                                                n,
                                            ),
                                        ),
                                        None => None,
                                    }
                                } else {
                                    match parse_record_members(s, vpos + 1, empty_rec()) {
                                        Some((r, n)) => Some(
                                            (
                                                root_member(
                                                    acc,
                                                    k,
                                                    AvSp::AvRec(r),
                                                    None,
                                                    Seq::empty(),
                                                ),
                                                n,
                                            ),
                                        ),
                                        None => None,
                                    }
                                }
                            } else if s[vpos] == 0x5b {
                                match skip_composite_spec(s, vpos + 1, 1, false, false) {
                                    Some(e) => Some(
                                        (
                                            root_member(
                                                acc,
                                                k,
                                                AvSp::AvText(Seq::empty()),
                                                None,
                                                Seq::empty(),
                                            ),
                                            e,
                                        ),
                                    ),
                                    None => None,
                                }
                            } else {
                                match parse_scalar_spec(s, vpos) {
                                    Some((v, n)) => Some(
                                        (
                                            root_member(
                                                acc,
                                                k,
                                                AvSp::AvText(scalar_text(v)),
                                                None,
                                                match v {
                                                    ScalarSp::SStr(t) => crate::text::trim_spec(t),
                                                    _ => Seq::empty(),
                                                },
                                            ),
                                            n,
                                        ),
                                    ),
                                    None => None,
                                }
                            };
                            match parsed {
                                None => None,
                                Some((acc2, n)) => {
                                    let t = skip_ws_spec(s, n);
                                    if t >= s.len() {
                                        None
                                    } else if s[t] == 0x2c {
                                        if t + 1 > i && t + 1 <= s.len() {
                                            parse_root_members(s, t + 1, acc2)
                                        } else {
                                            None
                                        }
                                    } else if s[t] == 0x7d {
                                        Some((acc2, t + 1))
                                    } else {
                                        None
                                    }
                                },
                            }
                        }
                    }
                },
            }
        }
    }
}

/// The executable root accumulator.
pub struct RootAcc {
    pub accounts: Option<crate::strmap::StrMap<AccVal>>,
    pub flat: crate::strmap::StrMap<AccVal>,
    pub updated: String,
}

pub open spec fn root_acc_view(r: RootAcc) -> RootSp {
    RootSp {
        accounts: match r.accounts {
            Some(m) => Some(av_entries_view(m@)),
            None => None,
        },
        flat: av_entries_view(r.flat@),
        updated: r.updated@,
    }
}

pub open spec fn root_acc_wf(r: RootAcc) -> bool {
    &&& r.flat.wf()
    &&& (r.accounts matches Some(m) ==> m.wf())
}

/// The executable twin of `parse_root_members`.
fn scan_root_members(s: &[u8], i: usize, acc: RootAcc) -> (r: Option<(RootAcc, usize)>)
    requires
        i <= s@.len(),
        root_acc_wf(acc),
    ensures
        match r {
            Some((m, j)) => parse_root_members(s@, i as int, root_acc_view(acc)) == Some(
                (root_acc_view(m), j as int),
            ) && j <= s@.len() && root_acc_wf(m),
            None => parse_root_members(s@, i as int, root_acc_view(acc)) is None,
        },
    decreases s@.len() - i,
{
    let mut acc = acc;
    let a = skip_ws(s, i);
    if a >= s.len() {
        return None;
    }
    if s[a] == 0x7d {
        return Some((acc, a + 1));
    }
    let (k, j) = match parse_string(s, a) {
        Some(p) => p,
        None => {
            return None;
        },
    };
    let c = skip_ws(s, j);
    if c >= s.len() || s[c] != 0x3a {
        return None;
    }
    let vpos = skip_ws(s, c + 1);
    if vpos >= s.len() {
        return None;
    }
    let ghost acc_in = root_acc_view(acc);
    let is_accounts_key = crate::strmap::str_eq(k.as_str(), "accounts");
    let is_updated_key = crate::strmap::str_eq(k.as_str(), "updated_at");
    let n: usize;
    if s[vpos] == 0x7b {
        if is_accounts_key {
            let empty_map: crate::strmap::StrMap<AccVal> = crate::strmap::StrMap::new();
            proof {
                assert(av_entries_view(empty_map@) =~= Seq::<(Seq<char>, AvSp)>::empty());
            }
            let (list, n2) = match scan_accounts_members(s, vpos + 1, empty_map) {
                Some(p) => p,
                None => {
                    return None;
                },
            };
            acc.accounts = Some(list);
            if is_updated_key {
                acc.updated = String::new();
            }
            acc_insert(&mut acc.flat, k, AccVal::AText(String::new()));
            n = n2;
            proof {
                assert(root_acc_view(acc) == root_member(
                    acc_in,
                    k@,
                    AvSp::AvText(Seq::empty()),
                    Some(av_entries_view(list@)),
                    Seq::<char>::empty(),
                ));
            }
        } else {
            let (rec, n2) = match scan_record_members(
                s,
                vpos + 1,
                crate::models::BalanceCacheRecord::empty(),
            ) {
                Some(p) => p,
                None => {
                    return None;
                },
            };
            if is_updated_key {
                acc.updated = String::new();
            }
            acc_insert(&mut acc.flat, k, AccVal::ARec(rec));
            n = n2;
            proof {
                assert(root_acc_view(acc) == root_member(
                    acc_in,
                    k@,
                    AvSp::AvRec(rec_view(rec)),
                    None,
                    Seq::<char>::empty(),
                ));
            }
        }
    } else if s[vpos] == 0x5b {
        let n2 = match skip_composite(s, vpos + 1, 1, false, false) {
            Some(e) => e,
            None => {
                return None;
            },
        };
        if is_accounts_key {
            acc.accounts = None;
        }
        if is_updated_key {
            acc.updated = String::new();
        }
        acc_insert(&mut acc.flat, k, AccVal::AText(String::new()));
        n = n2;
        proof {
            assert(root_acc_view(acc) == root_member(
                acc_in,
                k@,
                AvSp::AvText(Seq::empty()),
                None,
                Seq::<char>::empty(),
            ));
        }
    } else {
        let (v, n2) = match parse_scalar(s, vpos) {
            Some(p) => p,
            None => {
                return None;
            },
        };
        if is_accounts_key {
            acc.accounts = None;
        }
        if is_updated_key {
            acc.updated = match &v {
                Scalar::VStr(t) => crate::text::trim_string(t.as_str()),
                _ => String::new(),
            };
        }
        acc_insert(&mut acc.flat, k, AccVal::AText(scalar_text_exec(&v)));
        n = n2;
        proof {
            assert(root_acc_view(acc) == root_member(
                acc_in,
                k@,
                AvSp::AvText(scalar_text(scalar_view(v))),
                None,
                match scalar_view(v) {
                    ScalarSp::SStr(t) => crate::text::trim_spec(t),
                    _ => Seq::<char>::empty(),
                },
            ));
        }
    }
    let t = skip_ws(s, n);
    if t >= s.len() {
        return None;
    }
    if s[t] == 0x2c {
        if t + 1 > i {
            return scan_root_members(s, t + 1, acc);
        }
        return None;
    }
    if s[t] == 0x7d {
        return Some((acc, t + 1));
    }
    None
}

/// Reads a whole document: a root object gives its members; any other
/// single well-formed value gives an empty result; trailing text other
/// than whitespace refuses the document.
pub open spec fn parse_root_spec(s: Seq<u8>) -> Option<RootSp> {
    let i = skip_ws_spec(s, 0);
    if i >= s.len() {
        None
    } else if s[i] == 0x7b {
        match parse_root_members(s, i + 1, empty_root()) {
            Some((r, j)) => if skip_ws_spec(s, j) == s.len() {
                Some(r)
            } else {
                None
            },
            None => None,
        }
    } else if s[i] == 0x5b {
        match skip_composite_spec(s, i + 1, 1, false, false) {
            Some(j) => if skip_ws_spec(s, j) == s.len() {
                Some(empty_root())
            } else {
                None
            },
            None => None,
        }
    } else {
        match parse_scalar_spec(s, i) {
            Some((v, j)) => if skip_ws_spec(s, j) == s.len() {
                Some(empty_root())
            } else {
                None
            },
            None => None,
        }
    }
}

fn parse_root(s: &[u8]) -> (r: Option<RootAcc>)
    ensures
        match r {
            Some(m) => parse_root_spec(s@) == Some(root_acc_view(m)) && root_acc_wf(m),
            None => parse_root_spec(s@) is None,
        },
{
    let empty_acc = RootAcc {
        accounts: None,
        flat: crate::strmap::StrMap::new(),
        updated: String::new(),
    };
    proof {
        assert(av_entries_view(empty_acc.flat@) =~= Seq::<(Seq<char>, AvSp)>::empty());
        assert(root_acc_view(empty_acc) == empty_root());
    }
    let i = skip_ws(s, 0);
    if i >= s.len() {
        return None;
    }
    if s[i] == 0x7b {
        let (m, j) = match scan_root_members(s, i + 1, empty_acc) {
            Some(p) => p,
            None => {
                return None;
            },
        };
        if skip_ws(s, j) == s.len() {
            return Some(m);
        }
        return None;
    }
    if s[i] == 0x5b {
        let j = match skip_composite(s, i + 1, 1, false, false) {
            Some(j) => j,
            None => {
                return None;
            },
        };
        if skip_ws(s, j) == s.len() {
            return Some(empty_acc);
        }
        return None;
    }
    match parse_scalar(s, i) {
        Some((_v, j)) => {
            if skip_ws(s, j) == s.len() {
                return Some(empty_acc);
            }
            None
        },
        None => None,
    }
}

/// The record an account entry denotes: a record object as itself, a
/// scalar as a record holding only the trimmed balance text.
pub open spec fn rec_of_av(av: AvSp) -> RecSp {
    match av {
        AvSp::AvRec(r) => r,
        AvSp::AvText(t) => RecSp { balance: crate::text::trim_spec(t), ..empty_rec() },
    }
}

/// The balance table an entry list denotes: entries whose balance text
/// is empty are dropped.
pub open spec fn balance_entries_of(l: Seq<(Seq<char>, AvSp)>) -> Seq<(Seq<char>, RecSp)>
    decreases l.len(),
{
    if l.len() == 0 {
        Seq::empty()
    } else {
        let rec = rec_of_av(l[0].1);
        let rest = balance_entries_of(l.drop_first());
        if rec.balance.len() > 0 {
            seq![(l[0].0, rec)] + rest
        } else {
            rest
        }
    }
}

/// The daily table an entry list denotes: a scalar whose trimmed text is
/// a real calendar day is kept, anything else is dropped.
pub open spec fn daily_entries_of(l: Seq<(Seq<char>, AvSp)>) -> Seq<(Seq<char>, crate::date::Date)>
    decreases l.len(),
{
    if l.len() == 0 {
        Seq::empty()
    } else {
        let rest = daily_entries_of(l.drop_first());
        match l[0].1 {
            AvSp::AvText(t) => match crate::date::parse_day_spec(crate::text::trim_spec(t)) {
                Some(d) => seq![(l[0].0, d)] + rest,
                None => rest,
            },
            AvSp::AvRec(_) => rest,
        }
    }
}

pub proof fn lemma_balance_entries_snoc(l: Seq<(Seq<char>, AvSp)>, e: (Seq<char>, AvSp))
    ensures
        balance_entries_of(l.push(e)) == balance_entries_of(l) + (if rec_of_av(e.1).balance.len()
            > 0 {
            seq![(e.0, rec_of_av(e.1))]
        } else {
            Seq::<(Seq<char>, RecSp)>::empty()
        }),
    decreases l.len(),
{
    let t = l.push(e);
    let tail = if rec_of_av(e.1).balance.len() > 0 {
        seq![(e.0, rec_of_av(e.1))]
    } else {
        Seq::<(Seq<char>, RecSp)>::empty()
    };
    if l.len() == 0 {
        assert(t[0] == e);
        assert(t.drop_first() =~= Seq::<(Seq<char>, AvSp)>::empty());
        assert(balance_entries_of(Seq::<(Seq<char>, AvSp)>::empty())
            =~= Seq::<(Seq<char>, RecSp)>::empty());
        assert(balance_entries_of(t) =~= tail);
        assert(balance_entries_of(l) + tail =~= tail);
    } else {
        assert(t[0] == l[0]);
        assert(t.drop_first() =~= l.drop_first().push(e));
        lemma_balance_entries_snoc(l.drop_first(), e);
        let rec = rec_of_av(l[0].1);
        if rec.balance.len() > 0 {
            assert(seq![(l[0].0, rec)] + (balance_entries_of(l.drop_first()) + tail) =~= (seq![
                (l[0].0, rec),
            ] + balance_entries_of(l.drop_first())) + tail);
        }
    }
}

pub proof fn lemma_daily_entries_snoc(l: Seq<(Seq<char>, AvSp)>, e: (Seq<char>, AvSp))
    ensures
        daily_entries_of(l.push(e)) == daily_entries_of(l) + (match e.1 {
            AvSp::AvText(t) => match crate::date::parse_day_spec(crate::text::trim_spec(t)) {
                Some(d) => seq![(e.0, d)],
                None => Seq::<(Seq<char>, crate::date::Date)>::empty(),
            },
            AvSp::AvRec(_) => Seq::<(Seq<char>, crate::date::Date)>::empty(),
        }),
    decreases l.len(),
{
    let t = l.push(e);
    let tail = match e.1 {
        AvSp::AvText(x) => match crate::date::parse_day_spec(crate::text::trim_spec(x)) {
            Some(d) => seq![(e.0, d)],
            None => Seq::<(Seq<char>, crate::date::Date)>::empty(),
        },
        AvSp::AvRec(_) => Seq::<(Seq<char>, crate::date::Date)>::empty(),
    };
    if l.len() == 0 {
        assert(t[0] == e);
        assert(t.drop_first() =~= Seq::<(Seq<char>, AvSp)>::empty());
        assert(daily_entries_of(Seq::<(Seq<char>, AvSp)>::empty())
            =~= Seq::<(Seq<char>, crate::date::Date)>::empty());
        assert(daily_entries_of(t) =~= tail);
        assert(daily_entries_of(l) + tail =~= tail);
    } else {
        assert(t[0] == l[0]);
        assert(t.drop_first() =~= l.drop_first().push(e));
        lemma_daily_entries_snoc(l.drop_first(), e);
        match l[0].1 {
            AvSp::AvText(x) => {
                match crate::date::parse_day_spec(crate::text::trim_spec(x)) {
                    Some(d) => {
                        assert(seq![(l[0].0, d)] + (daily_entries_of(l.drop_first()) + tail) =~= (
                        seq![(l[0].0, d)] + daily_entries_of(l.drop_first())) + tail);
                    },
                    None => {},
                }
            },
            AvSp::AvRec(_) => {},
        }
    }
}

/// Keys kept by the filters come from the source list.
pub proof fn lemma_balance_entries_keys(l: Seq<(Seq<char>, AvSp)>, x: Seq<char>)
    requires
        forall|i: int| 0 <= i < l.len() ==> (#[trigger] l[i]).0 != x,
    ensures
        forall|i: int|
            0 <= i < balance_entries_of(l).len() ==> (#[trigger] balance_entries_of(l)[i]).0 != x,
    decreases l.len(),
{
    if l.len() > 0 {
        assert forall|i: int| 0 <= i < l.drop_first().len() implies (#[trigger] l.drop_first()[
            i
        ]).0 != x by {
            assert(l[i + 1].0 != x);
        }
        lemma_balance_entries_keys(l.drop_first(), x);
        let rec = rec_of_av(l[0].1);
        let rest = balance_entries_of(l.drop_first());
        if rec.balance.len() > 0 {
            assert forall|i: int|
                0 <= i < balance_entries_of(l).len() implies (#[trigger] balance_entries_of(
                l,
            )[i]).0 != x by {
                if i > 0 {
                    assert(balance_entries_of(l)[i] == rest[i - 1]);
                }
            }
        }
    }
}

pub proof fn lemma_daily_entries_keys(l: Seq<(Seq<char>, AvSp)>, x: Seq<char>)
    requires
        forall|i: int| 0 <= i < l.len() ==> (#[trigger] l[i]).0 != x,
    ensures
        forall|i: int|
            0 <= i < daily_entries_of(l).len() ==> (#[trigger] daily_entries_of(l)[i]).0 != x,
    decreases l.len(),
{
    if l.len() > 0 {
        assert forall|i: int| 0 <= i < l.drop_first().len() implies (#[trigger] l.drop_first()[
            i
        ]).0 != x by {
            assert(l[i + 1].0 != x);
        }
        lemma_daily_entries_keys(l.drop_first(), x);
        let rest = daily_entries_of(l.drop_first());
        match l[0].1 {
            AvSp::AvText(t) => {
                match crate::date::parse_day_spec(crate::text::trim_spec(t)) {
                    Some(d) => {
                        assert forall|i: int|
                            0 <= i < daily_entries_of(l).len() implies (#[trigger] daily_entries_of(
                            l,
                        )[i]).0 != x by {
                            if i > 0 {
                                assert(daily_entries_of(l)[i] == rest[i - 1]);
                            }
                        }
                    },
                    None => {},
                }
            },
            AvSp::AvRec(_) => {},
        }
    }
}

pub open spec fn balance_map_view(s: Seq<(String, crate::models::BalanceCacheRecord)>) -> Seq<
    (Seq<char>, RecSp),
> {
    Seq::new(s.len(), |i: int| (s[i].0@, rec_view(s[i].1)))
}

pub open spec fn daily_map_view(s: Seq<(String, crate::date::Date)>) -> Seq<
    (Seq<char>, crate::date::Date),
> {
    Seq::new(s.len(), |i: int| (s[i].0@, s[i].1))
}

/// The account list a parsed root denotes.
pub open spec fn root_list(r: RootSp) -> Seq<(Seq<char>, AvSp)> {
    match r.accounts {
        Some(l) => l,
        None => r.flat,
    }
}

/// What the balance-cache file denotes: the kept records, in file order.
pub open spec fn parse_balance_doc_spec(s: Seq<u8>) -> Option<Seq<(Seq<char>, RecSp)>> {
    match parse_root_spec(s) {
        Some(r) => Some(balance_entries_of(root_list(r))),
        None => None,
    }
}

/// What the daily-state file denotes: the kept day markers, in file
/// order, and the file's own timestamp text.
pub open spec fn parse_daily_doc_spec(s: Seq<u8>) -> Option<
    (Seq<(Seq<char>, crate::date::Date)>, Seq<char>),
> {
    match parse_root_spec(s) {
        Some(r) => Some((daily_entries_of(root_list(r)), r.updated)),
        None => None,
    }
}

/// Builds the balance table from a parsed account list.
fn assemble_balance(src: crate::strmap::StrMap<AccVal>) -> (r: crate::strmap::StrMap<
    crate::models::BalanceCacheRecord,
>)
    requires
        src.wf(),
    ensures
        r.wf(),
        balance_map_view(r@) == balance_entries_of(av_entries_view(src@)),
{
    let ghost gsrc = av_entries_view(src@);
    proof {
        assert forall|a: int, b: int| 0 <= a < b < gsrc.len() implies (#[trigger] gsrc[a]).0
            != (#[trigger] gsrc[b]).0 by {
            assert(src@[a].0@ != src@[b].0@);
        }
    }
    let n = src.entries.len();
    let mut out: Vec<(String, crate::models::BalanceCacheRecord)> = Vec::new();
    let mut i: usize = 0;
    proof {
        assert(gsrc.take(0) =~= Seq::<(Seq<char>, AvSp)>::empty());
        assert(balance_map_view(out@) =~= balance_entries_of(gsrc.take(0)));
    }
    while i < n
        invariant
            i <= n,
            n == src@.len(),
            src.wf(),
            gsrc == av_entries_view(src@),
            vdistinct(gsrc),
            balance_map_view(out@) == balance_entries_of(gsrc.take(i as int)),
            forall|a: int, x: int|
                0 <= a < out@.len() && i <= x < n ==> (#[trigger] out@[a].0)@ != (
                #[trigger] gsrc[x]).0,
            crate::strmap::distinct_keys(out@),
        decreases n - i,
    {
        let pair = &src.entries[i];
        let rec: crate::models::BalanceCacheRecord = match &pair.1 {
            AccVal::ARec(r) => r.clone(),
            AccVal::AText(t) => {
                let mut r = crate::models::BalanceCacheRecord::empty();
                r.balance = crate::text::trim_string(t.as_str());
                r
            },
        };
        proof {
            assert(rec_view(rec) == rec_of_av(gsrc[i as int].1));
        }
        let keep = rec.balance.unicode_len() > 0;
        let ghost out_before = out@;
        if keep {
            out.push((pair.0.clone(), rec));
        }
        proof {
            lemma_balance_entries_snoc(gsrc.take(i as int), gsrc[i as int]);
            assert(gsrc.take(i + 1) =~= gsrc.take(i as int).push(gsrc[i as int]));
            assert(balance_map_view(out@) =~= balance_entries_of(gsrc.take(i + 1)));
            assert forall|a: int, x: int|
                0 <= a < out@.len() && i + 1 <= x < n implies (#[trigger] out@[a].0)@ != (
            #[trigger] gsrc[x]).0 by {
                if a < out_before.len() {
                    assert(out@[a] == out_before[a]);
                } else {
                    assert(out@[a].0@ == gsrc[i as int].0);
                }
            }
            assert forall|a: int, b: int| 0 <= a < b < out@.len() implies (#[trigger] out@[a].0)@
                != (#[trigger] out@[b].0)@ by {
                if b < out_before.len() {
                } else {
                    assert(out@[b].0@ == gsrc[i as int].0);
                }
            }
        }
        i = i + 1;
    }
    proof {
        assert(gsrc.take(n as int) =~= gsrc);
    }
    crate::strmap::StrMap { entries: out }
}

/// Builds the daily table from a parsed account list.
fn assemble_daily(src: crate::strmap::StrMap<AccVal>) -> (r: crate::strmap::StrMap<
    crate::date::Date,
>)
    requires
        src.wf(),
    ensures
        r.wf(),
        daily_map_view(r@) == daily_entries_of(av_entries_view(src@)),
        forall|i: int| 0 <= i < r@.len() ==> crate::date::valid_date((#[trigger] r@[i]).1),
{
    let ghost gsrc = av_entries_view(src@);
    proof {
        assert forall|a: int, b: int| 0 <= a < b < gsrc.len() implies (#[trigger] gsrc[a]).0
            != (#[trigger] gsrc[b]).0 by {
            assert(src@[a].0@ != src@[b].0@);
        }
    }
    let n = src.entries.len();
    let mut out: Vec<(String, crate::date::Date)> = Vec::new();
    let mut i: usize = 0;
    proof {
        assert(gsrc.take(0) =~= Seq::<(Seq<char>, AvSp)>::empty());
        assert(daily_map_view(out@) =~= daily_entries_of(gsrc.take(0)));
    }
    while i < n
        invariant
            i <= n,
            n == src@.len(),
            src.wf(),
            gsrc == av_entries_view(src@),
            vdistinct(gsrc),
            daily_map_view(out@) == daily_entries_of(gsrc.take(i as int)),
            forall|a: int, x: int|
                0 <= a < out@.len() && i <= x < n ==> (#[trigger] out@[a].0)@ != (
                #[trigger] gsrc[x]).0,
            crate::strmap::distinct_keys(out@),
            forall|a: int| 0 <= a < out@.len() ==> crate::date::valid_date((#[trigger] out@[a]).1),
        decreases n - i,
    {
        let pair = &src.entries[i];
        let ghost out_before = out@;
        match &pair.1 {
            AccVal::ARec(_) => {},
            AccVal::AText(t) => {
                let day_text = crate::text::trim_string(t.as_str());
                match crate::date::parse_day(day_text.as_str()) {
                    Some(d) => {
                        out.push((pair.0.clone(), d));
                    },
                    None => {},
                }
            },
        }
        proof {
            lemma_daily_entries_snoc(gsrc.take(i as int), gsrc[i as int]);
            assert(gsrc.take(i + 1) =~= gsrc.take(i as int).push(gsrc[i as int]));
            assert(daily_map_view(out@) =~= daily_entries_of(gsrc.take(i + 1)));
            assert forall|a: int, x: int|
                0 <= a < out@.len() && i + 1 <= x < n implies (#[trigger] out@[a].0)@ != (
            #[trigger] gsrc[x]).0 by {
                if a < out_before.len() {
                    assert(out@[a] == out_before[a]);
                } else {
                    assert(out@[a].0@ == gsrc[i as int].0);
                }
            }
            assert forall|a: int, b: int| 0 <= a < b < out@.len() implies (#[trigger] out@[a].0)@
                != (#[trigger] out@[b].0)@ by {
                if b < out_before.len() {
                } else {
                    assert(out@[b].0@ == gsrc[i as int].0);
                }
            }
        }
        i = i + 1;
    }
    proof {
        assert(gsrc.take(n as int) =~= gsrc);
    }
    crate::strmap::StrMap { entries: out }
}

/// Reads a balance-cache file: `None` only when the document as a whole
/// cannot be read; entries that carry no usable balance are dropped.
pub fn parse_balance_file(bytes: &[u8]) -> (r: Option<crate::strmap::StrMap<
    crate::models::BalanceCacheRecord,
>>)
    ensures
        match r {
            Some(m) => parse_balance_doc_spec(bytes@) == Some(balance_map_view(m@)) && m.wf(),
            None => parse_balance_doc_spec(bytes@) is None,
        },
{
    let root = match parse_root(bytes) {
        Some(x) => x,
        None => {
            return None;
        },
    };
    let list = match root.accounts {
        Some(m) => m,
        None => root.flat,
    };
    Some(assemble_balance(list))
}

/// Reads a daily-state file: the kept day markers and the file's own
/// timestamp text.
pub fn parse_daily_file(bytes: &[u8]) -> (r: Option<(crate::strmap::StrMap<crate::date::Date>, String)>)
    ensures
        match r {
            Some((m, up)) => parse_daily_doc_spec(bytes@) == Some((daily_map_view(m@), up@))
                && m.wf() && (forall|i: int|
                0 <= i < m@.len() ==> crate::date::valid_date((#[trigger] m@[i]).1)),
            None => parse_daily_doc_spec(bytes@) is None,
        },
{
    let root = match parse_root(bytes) {
        Some(x) => x,
        None => {
            return None;
        },
    };
    let list = match root.accounts {
        Some(m) => m,
        None => root.flat,
    };
    Some((assemble_daily(list), root.updated))
}

/// Bytes that the emitter writes without an escape.
pub open spec fn is_plain_byte(b: u8) -> bool {
    b != 0x22 && b != 0x5c && b != 0x0a && b != 0x0d && b != 0x09
}

pub proof fn lemma_escape_plain(bs: Seq<u8>)
    requires
        forall|i: int| 0 <= i < bs.len() ==> is_plain_byte(#[trigger] bs[i]),
    ensures
        escape_bytes(bs) == bs,
    decreases bs.len(),
{
    if bs.len() == 0 {
        assert(escape_bytes(bs) =~= bs);
    } else {
        assert(is_plain_byte(bs[0]));
        assert forall|i: int| 0 <= i < bs.drop_first().len() implies is_plain_byte(
            #[trigger] bs.drop_first()[i],
        ) by {
            assert(bs[i + 1] == bs.drop_first()[i]);
        }
        lemma_escape_plain(bs.drop_first());
        assert(escape_bytes(bs) =~= bs);
    }
}

pub open spec fn emit_sync_spec(sync: Option<bool>) -> Seq<u8> {
    match sync {
        Some(true) => true_bytes(),
        Some(false) => false_bytes(),
        None => null_bytes(),
    }
}

/// One record object as the file carries it.
pub open spec fn emit_record_spec(r: RecSp) -> Seq<u8> {
    seq![0x7bu8] + emit_str_spec("balance"@) + seq![0x3au8] + emit_str_spec(r.balance) + seq![
        0x2cu8,
    ] + emit_str_spec("updated_at"@) + seq![0x3au8] + emit_str_spec(r.updated_at) + seq![0x2cu8]
        + emit_str_spec("apikey_sync_success"@) + seq![0x3au8] + emit_sync_spec(r.sync) + seq![
        0x2cu8,
    ] + emit_str_spec("apikey_sync_message"@) + seq![0x3au8] + emit_str_spec(r.msg) + seq![0x7du8]
}

pub open spec fn emit_balance_member(e: (Seq<char>, RecSp)) -> Seq<u8> {
    emit_str_spec(e.0) + seq![0x3au8] + emit_record_spec(e.1)
}

pub open spec fn emit_balance_entries(l: Seq<(Seq<char>, RecSp)>) -> Seq<u8>
    decreases l.len(),
{
    if l.len() == 0 {
        Seq::empty()
    } else if l.len() == 1 {
        emit_balance_member(l[0])
    } else {
        emit_balance_member(l[0]) + seq![0x2cu8] + emit_balance_entries(l.drop_first())
    }
}

pub open spec fn emit_daily_member(e: (Seq<char>, crate::date::Date)) -> Seq<u8> {
    emit_str_spec(e.0) + seq![0x3au8] + emit_str_spec(crate::date::day_chars_spec(e.1))
}

pub open spec fn emit_daily_entries(l: Seq<(Seq<char>, crate::date::Date)>) -> Seq<u8>
    decreases l.len(),
{
    if l.len() == 0 {
        Seq::empty()
    } else if l.len() == 1 {
        emit_daily_member(l[0])
    } else {
        emit_daily_member(l[0]) + seq![0x2cu8] + emit_daily_entries(l.drop_first())
    }
}

/// The balance-cache file: version, timestamp, accounts object.
pub open spec fn emit_balance_doc_spec(up: Seq<char>, l: Seq<(Seq<char>, RecSp)>) -> Seq<u8> {
    seq![0x7bu8] + emit_str_spec("version"@) + seq![0x3au8, 0x31u8, 0x2cu8] + emit_str_spec(
        "updated_at"@,
    ) + seq![0x3au8] + emit_str_spec(up) + seq![0x2cu8] + emit_str_spec("accounts"@) + seq![
        0x3au8,
        0x7bu8,
    ] + emit_balance_entries(l) + seq![0x7du8, 0x7du8]
}

/// The daily-state file: version, timestamp, accounts object of day
/// texts.
pub open spec fn emit_daily_doc_spec(up: Seq<char>, l: Seq<(Seq<char>, crate::date::Date)>) -> Seq<
    u8,
> {
    seq![0x7bu8] + emit_str_spec("version"@) + seq![0x3au8, 0x31u8, 0x2cu8] + emit_str_spec(
        "updated_at"@,
    ) + seq![0x3au8] + emit_str_spec(up) + seq![0x2cu8] + emit_str_spec("accounts"@) + seq![
        0x3au8,
        0x7bu8,
    ] + emit_daily_entries(l) + seq![0x7du8, 0x7du8]
}

pub proof fn lemma_emit_balance_entries_snoc(l: Seq<(Seq<char>, RecSp)>, e: (Seq<char>, RecSp))
    requires
        l.len() > 0,
    ensures
        emit_balance_entries(l.push(e)) == emit_balance_entries(l) + seq![0x2cu8]
            + emit_balance_member(e),
    decreases l.len(),
{
    let t = l.push(e);
    assert(t[0] == l[0]);
    if l.len() == 1 {
        assert(t.drop_first() =~= seq![e]);
        assert(emit_balance_entries(seq![e]) == emit_balance_member(e));
        assert(emit_balance_member(t[0]) + seq![0x2cu8] + emit_balance_member(e)
            =~= emit_balance_member(l[0]) + (seq![0x2cu8] + emit_balance_member(e)));
        assert(emit_balance_entries(t) =~= emit_balance_entries(l) + seq![0x2cu8]
            + emit_balance_member(e));
    } else {
        assert(t.drop_first() =~= l.drop_first().push(e));
        lemma_emit_balance_entries_snoc(l.drop_first(), e);
        assert(emit_balance_entries(t) =~= emit_balance_entries(l) + seq![0x2cu8]
            + emit_balance_member(e));
    }
}

pub proof fn lemma_emit_daily_entries_snoc(
    l: Seq<(Seq<char>, crate::date::Date)>,
    e: (Seq<char>, crate::date::Date),
)
    requires
        l.len() > 0,
    ensures
        emit_daily_entries(l.push(e)) == emit_daily_entries(l) + seq![0x2cu8] + emit_daily_member(
            e,
        ),
    decreases l.len(),
{
    let t = l.push(e);
    assert(t[0] == l[0]);
    if l.len() == 1 {
        assert(t.drop_first() =~= seq![e]);
        assert(emit_daily_entries(seq![e]) == emit_daily_member(e));
        assert(emit_daily_entries(t) =~= emit_daily_entries(l) + seq![0x2cu8] + emit_daily_member(
            e,
        ));
    } else {
        assert(t.drop_first() =~= l.drop_first().push(e));
        lemma_emit_daily_entries_snoc(l.drop_first(), e);
        assert(emit_daily_entries(t) =~= emit_daily_entries(l) + seq![0x2cu8] + emit_daily_member(
            e,
        ));
    }
}

/// Appends `"key":` for a fixed member name.
fn push_member_key(out: &mut Vec<u8>, name: &str)
    ensures
        final(out)@ == old(out)@ + emit_str_spec(name@) + seq![0x3au8],
{
    push_str_tok(out, name);
    out.push(0x3a);
    proof {
        assert(final(out)@ =~= old(out)@ + emit_str_spec(name@) + seq![0x3au8]);
    }
}

fn push_sync(out: &mut Vec<u8>, sync: &Option<bool>)
    ensures
        final(out)@ == old(out)@ + emit_sync_spec(*sync),
{
    match sync {
        Some(true) => {
            out.push(0x74);
            out.push(0x72);
            out.push(0x75);
            out.push(0x65);
            proof {
                assert(final(out)@ =~= old(out)@ + true_bytes());
            }
        },
        Some(false) => {
            out.push(0x66);
            out.push(0x61);
            out.push(0x6c);
            out.push(0x73);
            out.push(0x65);
            proof {
                assert(final(out)@ =~= old(out)@ + false_bytes());
            }
        },
        None => {
            out.push(0x6e);
            out.push(0x75);
            out.push(0x6c);
            out.push(0x6c);
            proof {
                assert(final(out)@ =~= old(out)@ + null_bytes());
            }
        },
    }
}

fn push_record(out: &mut Vec<u8>, r: &crate::models::BalanceCacheRecord)
    ensures
        final(out)@ == old(out)@ + emit_record_spec(rec_view(*r)),
{
    out.push(0x7b);
    push_member_key(out, "balance");
    push_str_tok(out, r.balance.as_str());
    out.push(0x2c);
    push_member_key(out, "updated_at");
    push_str_tok(out, r.updated_at.as_str());
    out.push(0x2c);
    push_member_key(out, "apikey_sync_success");
    push_sync(out, &r.apikey_sync_success);
    out.push(0x2c);
    push_member_key(out, "apikey_sync_message");
    push_str_tok(out, r.apikey_sync_message.as_str());
    out.push(0x7d);
    proof {
        assert(final(out)@ =~= old(out)@ + emit_record_spec(rec_view(*r)));
    }
}

/// Appends a day marker as its `YYYY-MM-DD` text in quotes.
fn push_day(out: &mut Vec<u8>, d: crate::date::Date)
    requires
        crate::date::valid_date(d),
    ensures
        final(out)@ == old(out)@ + emit_str_spec(crate::date::day_chars_spec(d)),
{
    let bytes = crate::date::day_text(d);
    out.push(0x22);
    let mut k: usize = 0;
    let n = bytes.len();
    while k < n
        invariant
            k <= n,
            n == bytes@.len(),
            bytes@ == crate::date::day_text_spec(d),
            out@ == old(out)@ + seq![0x22u8] + bytes@.take(k as int),
        decreases n - k,
    {
        out.push(bytes[k]);
        proof {
            assert(bytes@.take(k + 1) =~= bytes@.take(k as int).push(bytes@[k as int]));
            assert(out@ =~= old(out)@ + seq![0x22u8] + bytes@.take(k + 1));
        }
        k = k + 1;
    }
    out.push(0x22);
    proof {
        crate::date::lemma_day_text_ascii(d);
        crate::text::lemma_ascii_bytes_utf8(crate::date::day_text_spec(d));
        assert forall|i: int| 0 <= i < bytes@.len() implies is_plain_byte(#[trigger] bytes@[i]) by {
            assert(bytes@[i] == crate::date::day_text_spec(d)[i]);
        }
        lemma_escape_plain(bytes@);
        assert(bytes@.take(n as int) =~= bytes@);
        assert(encode_utf8(crate::date::day_chars_spec(d)) == crate::date::day_text_spec(d));
        assert(final(out)@ =~= old(out)@ + emit_str_spec(crate::date::day_chars_spec(d)));
    }
}

/// Writes a balance-cache file for the given table and timestamp text.
pub fn emit_balance_file(
    map: &crate::strmap::StrMap<crate::models::BalanceCacheRecord>,
    updated_at: &str,
) -> (out: Vec<u8>)
    ensures
        out@ == emit_balance_doc_spec(updated_at@, balance_map_view(map@)),
{
    let ghost gl = balance_map_view(map@);
    let mut out: Vec<u8> = Vec::new();
    out.push(0x7b);
    push_member_key(&mut out, "version");
    out.push(0x31);
    out.push(0x2c);
    push_member_key(&mut out, "updated_at");
    push_str_tok(&mut out, updated_at);
    out.push(0x2c);
    push_member_key(&mut out, "accounts");
    out.push(0x7b);
    let ghost head = out@;
    let n = map.entries.len();
    let mut i: usize = 0;
    proof {
        assert(gl.take(0) =~= Seq::<(Seq<char>, RecSp)>::empty());
        assert(out@ =~= head + emit_balance_entries(gl.take(0)));
    }
    while i < n
        invariant
            i <= n,
            n == map@.len(),
            gl == balance_map_view(map@),
            out@ == head + emit_balance_entries(gl.take(i as int)),
        decreases n - i,
    {
        if i > 0 {
            out.push(0x2c);
        }
        let pair = &map.entries[i];
        push_str_tok(&mut out, pair.0.as_str());
        out.push(0x3a);
        push_record(&mut out, &pair.1);
        proof {
            let e = gl[i as int];
            assert(gl.take(i + 1) =~= gl.take(i as int).push(e));
            if i == 0 {
                assert(gl.take(1) =~= seq![e]);
                assert(emit_balance_entries(seq![e]) == emit_balance_member(e));
                assert(out@ =~= head + emit_balance_entries(gl.take(i + 1)));
            } else {
                lemma_emit_balance_entries_snoc(gl.take(i as int), e);
                assert(out@ =~= head + emit_balance_entries(gl.take(i + 1)));
            }
        }
        i = i + 1;
    }
    out.push(0x7d);
    out.push(0x7d);
    proof {
        assert(gl.take(n as int) =~= gl);
        assert(out@ =~= emit_balance_doc_spec(updated_at@, gl));
    }
    out
}

/// Writes a daily-state file for the given table and timestamp text.
pub fn emit_daily_file(map: &crate::strmap::StrMap<crate::date::Date>, updated_at: &str) -> (out:
    Vec<u8>)
    requires
        forall|i: int| 0 <= i < map@.len() ==> crate::date::valid_date((#[trigger] map@[i]).1),
    ensures
        out@ == emit_daily_doc_spec(updated_at@, daily_map_view(map@)),
{
    let ghost gl = daily_map_view(map@);
    let mut out: Vec<u8> = Vec::new();
    out.push(0x7b);
    push_member_key(&mut out, "version");
    out.push(0x31);
    out.push(0x2c);
    push_member_key(&mut out, "updated_at");
    push_str_tok(&mut out, updated_at);
    out.push(0x2c);
    push_member_key(&mut out, "accounts");
    out.push(0x7b);
    let ghost head = out@;
    let n = map.entries.len();
    let mut i: usize = 0;
    proof {
        assert(gl.take(0) =~= Seq::<(Seq<char>, crate::date::Date)>::empty());
        assert(out@ =~= head + emit_daily_entries(gl.take(0)));
    }
    while i < n
        invariant
            i <= n,
            n == map@.len(),
            gl == daily_map_view(map@),
            out@ == head + emit_daily_entries(gl.take(i as int)),
            forall|x: int| 0 <= x < map@.len() ==> crate::date::valid_date((#[trigger] map@[x]).1),
        decreases n - i,
    {
        if i > 0 {
            out.push(0x2c);
        }
        let pair = &map.entries[i];
        push_str_tok(&mut out, pair.0.as_str());
        out.push(0x3a);
        push_day(&mut out, pair.1);
        proof {
            let e = gl[i as int];
            assert(gl.take(i + 1) =~= gl.take(i as int).push(e));
            if i == 0 {
                assert(gl.take(1) =~= seq![e]);
                assert(emit_daily_entries(seq![e]) == emit_daily_member(e));
                assert(out@ =~= head + emit_daily_entries(gl.take(i + 1)));
            } else {
                lemma_emit_daily_entries_snoc(gl.take(i as int), e);
                assert(out@ =~= head + emit_daily_entries(gl.take(i + 1)));
            }
        }
        i = i + 1;
    }
    out.push(0x7d);
    out.push(0x7d);
    proof {
        assert(gl.take(n as int) =~= gl);
        assert(out@ =~= emit_daily_doc_spec(updated_at@, gl));
    }
    out
}

/// `pat` occupies `s` from position `i`.
pub open spec fn matches_at(s: Seq<u8>, i: int, pat: Seq<u8>) -> bool {
    0 <= i && i + pat.len() <= s.len() && s.subrange(i, i + pat.len()) == pat
}

pub proof fn lemma_matches_split(s: Seq<u8>, i: int, a: Seq<u8>, b: Seq<u8>)
    requires
        matches_at(s, i, a + b),
    ensures
        matches_at(s, i, a),
        matches_at(s, i + a.len(), b),
{
    let w = a + b;
    assert(s.subrange(i, i + a.len()) =~= a) by {
        assert forall|j: int| 0 <= j < a.len() implies s.subrange(i, i + a.len())[j] == a[j] by {
            assert(s.subrange(i, i + w.len())[j] == w[j]);
        }
    }
    assert(s.subrange(i + a.len(), i + w.len()) =~= b) by {
        assert forall|j: int| 0 <= j < b.len() implies s.subrange(i + a.len(), i + w.len())[j]
            == b[j] by {
            assert(s.subrange(i, i + w.len())[j + a.len()] == w[j + a.len()]);
        }
    }
}

pub proof fn lemma_matches_byte(s: Seq<u8>, i: int, pat: Seq<u8>, j: int)
    requires
        matches_at(s, i, pat),
        0 <= j < pat.len(),
    ensures
        s[i + j] == pat[j],
{
    assert(s.subrange(i, i + pat.len())[j] == pat[j]);
}

/// Skipping whitespace where none stands is a no-op.
pub proof fn lemma_skip_ws_noop(s: Seq<u8>, i: int)
    requires
        0 <= i,
        i < s.len() ==> !is_ws_byte(s[i]),
    ensures
        skip_ws_spec(s, i) == i,
{
}

/// A token region of non-delimiter bytes bounded by a delimiter or the
/// end of input scans to exactly that region.
pub proof fn lemma_scan_token_exact(s: Seq<u8>, i: int, tok: Seq<u8>, acc: Seq<u8>)
    requires
        matches_at(s, i, tok),
        forall|j: int| 0 <= j < tok.len() ==> !is_delim_byte(#[trigger] tok[j]),
        i + tok.len() == s.len() || is_delim_byte(s[i + tok.len()]),
    ensures
        scan_token_spec(s, i, acc) == (acc + tok, i + tok.len()),
    decreases tok.len(),
{
    if tok.len() == 0 {
        assert(acc + tok =~= acc);
        if i < s.len() {
            assert(is_delim_byte(s[i]));
        }
    } else {
        lemma_matches_byte(s, i, tok, 0);
        assert(s[i] == tok[0]);
        assert(!is_delim_byte(s[i]));
        assert(i < s.len());
        assert(matches_at(s, i + 1, tok.drop_first())) by {
            assert(s.subrange(i + 1, i + tok.len()) =~= tok.drop_first()) by {
                assert forall|j: int| 0 <= j < tok.len() - 1 implies s.subrange(
                    i + 1,
                    i + tok.len(),
                )[j] == tok.drop_first()[j] by {
                    assert(s.subrange(i, i + tok.len())[j + 1] == tok[j + 1]);
                }
            }
        }
        assert forall|j: int| 0 <= j < tok.drop_first().len() implies !is_delim_byte(
            #[trigger] tok.drop_first()[j],
        ) by {
            assert(tok.drop_first()[j] == tok[j + 1]);
        }
        lemma_scan_token_exact(s, i + 1, tok.drop_first(), acc.push(tok[0]));
        assert(acc.push(tok[0]) + tok.drop_first() =~= acc + tok);
    }
}

/// Escaped content parses back to the bytes it was made from.
pub proof fn lemma_parse_str_body_emit(s: Seq<u8>, i: int, acc: Seq<u8>, bs: Seq<u8>)
    requires
        matches_at(s, i, escape_bytes(bs) + seq![0x22u8]),
    ensures
        parse_str_body(s, i, acc) == Some((acc + bs, i + escape_bytes(bs).len() + 1)),
    decreases bs.len(),
{
    let pat = escape_bytes(bs) + seq![0x22u8];
    if bs.len() == 0 {
        assert(escape_bytes(bs) =~= Seq::<u8>::empty());
        assert(pat =~= seq![0x22u8]);
        lemma_matches_byte(s, i, pat, 0);
        assert(s[i] == 0x22);
        assert(acc + bs =~= acc);
    } else {
        let b = bs[0];
        let rest = bs.drop_first();
        assert(escape_bytes(bs) == esc_byte(b) + escape_bytes(rest));
        assert(pat =~= esc_byte(b) + (escape_bytes(rest) + seq![0x22u8]));
        lemma_matches_split(s, i, esc_byte(b), escape_bytes(rest) + seq![0x22u8]);
        let i2 = i + esc_byte(b).len();
        if b == 0x22 || b == 0x5c || b == 0x0a || b == 0x0d || b == 0x09 {
            lemma_matches_byte(s, i, esc_byte(b), 0);
            lemma_matches_byte(s, i, esc_byte(b), 1);
            assert(s[i] == 0x5c);
            assert(i + 1 < s.len());
            lemma_parse_str_body_emit(s, i2, acc.push(b), rest);
            assert(acc.push(b) + rest =~= acc + bs);
        } else {
            lemma_matches_byte(s, i, esc_byte(b), 0);
            assert(s[i] == b);
            assert(i < s.len());
            lemma_parse_str_body_emit(s, i2, acc.push(b), rest);
            assert(acc.push(b) + rest =~= acc + bs);
        }
    }
}

/// An emitted string token parses back to its content.
pub proof fn lemma_parse_string_emit(s: Seq<u8>, i: int, content: Seq<char>)
    requires
        matches_at(s, i, emit_str_spec(content)),
    ensures
        parse_string_spec(s, i) == Some((content, i + emit_str_spec(content).len())),
{
    let enc = encode_utf8(content);
    let pat = emit_str_spec(content);
    assert(pat =~= seq![0x22u8] + (escape_bytes(enc) + seq![0x22u8]));
    lemma_matches_split(s, i, seq![0x22u8], escape_bytes(enc) + seq![0x22u8]);
    lemma_matches_byte(s, i, seq![0x22u8], 0);
    assert(s[i] == 0x22);
    lemma_parse_str_body_emit(s, i + 1, Seq::empty(), enc);
    assert(Seq::<u8>::empty() + enc =~= enc);
    vstd::utf8::encode_utf8_valid_utf8(content);
    vstd::utf8::encode_utf8_decode_utf8(content);
}

/// Facts about one emitted `"name":"value"` member at position `p`.
proof fn lemma_str_member(s: Seq<u8>, p: int, name: Seq<char>, val: Seq<char>)
    requires
        matches_at(s, p, emit_str_spec(name) + seq![0x3au8] + emit_str_spec(val)),
    ensures
        skip_ws_spec(s, p) == p,
        p < s.len() && s[p] == 0x22,
        parse_string_spec(s, p) == Some((name, p + emit_str_spec(name).len())),
        ({
            let j = p + emit_str_spec(name).len();
            &&& skip_ws_spec(s, j) == j
            &&& j < s.len() && s[j] == 0x3a
            &&& skip_ws_spec(s, j + 1) == j + 1
            &&& j + 1 < s.len() && s[j + 1] == 0x22
            &&& parse_scalar_spec(s, j + 1) == Some(
                (ScalarSp::SStr(val), j + 1 + emit_str_spec(val).len()),
            )
        }),
{
    let kb = emit_str_spec(name);
    let vb = emit_str_spec(val);
    let j = p + kb.len();
    assert(kb + seq![0x3au8] + vb =~= kb + (seq![0x3au8] + vb));
    lemma_matches_split(s, p, kb, seq![0x3au8] + vb);
    lemma_matches_split(s, j, seq![0x3au8], vb);
    lemma_matches_byte(s, j, seq![0x3au8], 0);
    lemma_parse_string_emit(s, p, name);
    lemma_parse_string_emit(s, j + 1, val);
    assert(kb =~= seq![0x22u8] + (escape_bytes(encode_utf8(name)) + seq![0x22u8]));
    lemma_matches_byte(s, p, kb, 0);
    assert(vb =~= seq![0x22u8] + (escape_bytes(encode_utf8(val)) + seq![0x22u8]));
    lemma_matches_byte(s, j + 1, vb, 0);
    lemma_skip_ws_noop(s, p);
    lemma_skip_ws_noop(s, j);
    lemma_skip_ws_noop(s, j + 1);
}

/// Facts about one emitted `"name":keyword,` member at position `p`,
/// where the keyword stands for a sync outcome.
proof fn lemma_sync_member(s: Seq<u8>, p: int, name: Seq<char>, sync: Option<bool>)
    requires
        matches_at(s, p, emit_str_spec(name) + seq![0x3au8] + emit_sync_spec(sync) + seq![0x2cu8]),
    ensures
        skip_ws_spec(s, p) == p,
        p < s.len() && s[p] == 0x22,
        parse_string_spec(s, p) == Some((name, p + emit_str_spec(name).len())),
        ({
            let j = p + emit_str_spec(name).len();
            let w = j + 1 + emit_sync_spec(sync).len();
            &&& skip_ws_spec(s, j) == j
            &&& j < s.len() && s[j] == 0x3a
            &&& skip_ws_spec(s, j + 1) == j + 1
            &&& j + 1 < s.len() && s[j + 1] != 0x22 && s[j + 1] != 0x7b && s[j + 1] != 0x5b
            &&& parse_scalar_spec(s, j + 1) == Some(
                (
                    match sync {
                        Some(true) => ScalarSp::STrue,
                        Some(false) => ScalarSp::SFalse,
                        None => ScalarSp::SNull,
                    },
                    w,
                ),
            )
            &&& scalar_bool(
                match sync {
                    Some(true) => ScalarSp::STrue,
                    Some(false) => ScalarSp::SFalse,
                    None => ScalarSp::SNull,
                },
            ) == sync
            &&& w < s.len() && s[w] == 0x2c
            &&& skip_ws_spec(s, w) == w
        }),
{
    let kb = emit_str_spec(name);
    let tb = emit_sync_spec(sync);
    let j = p + kb.len();
    assert(kb + seq![0x3au8] + tb + seq![0x2cu8] =~= kb + (seq![0x3au8] + (tb + seq![0x2cu8])));
    lemma_matches_split(s, p, kb, seq![0x3au8] + (tb + seq![0x2cu8]));
    lemma_matches_split(s, j, seq![0x3au8], tb + seq![0x2cu8]);
    lemma_matches_byte(s, j, seq![0x3au8], 0);
    lemma_matches_split(s, j + 1, tb, seq![0x2cu8]);
    lemma_matches_byte(s, j + 1 + tb.len(), seq![0x2cu8], 0);
    lemma_parse_string_emit(s, p, name);
    assert(kb =~= seq![0x22u8] + (escape_bytes(encode_utf8(name)) + seq![0x22u8]));
    lemma_matches_byte(s, p, kb, 0);
    lemma_skip_ws_noop(s, p);
    lemma_skip_ws_noop(s, j);
    assert(tb[0] == 0x74 || tb[0] == 0x66 || tb[0] == 0x6e);
    lemma_matches_byte(s, j + 1, tb, 0);
    lemma_skip_ws_noop(s, j + 1);
    assert(forall|x: int| 0 <= x < tb.len() ==> !is_delim_byte(#[trigger] tb[x]));
    assert(is_delim_byte(s[j + 1 + tb.len()]));
    lemma_scan_token_exact(s, j + 1, tb, Seq::empty());
    assert(Seq::<u8>::empty() + tb =~= tb);
    lemma_skip_ws_noop(s, j + 1 + tb.len());
    match sync {
        Some(true) => {
            assert(classify_token(tb) == Some(ScalarSp::STrue));
        },
        Some(false) => {
            assert(tb != true_bytes()) by {
                assert(tb.len() == 5 && true_bytes().len() == 4);
            }
            assert(classify_token(tb) == Some(ScalarSp::SFalse));
        },
        None => {
            assert(tb != true_bytes()) by {
                assert(tb[0] == 0x6e && true_bytes()[0] == 0x74);
            }
            assert(tb != false_bytes()) by {
                assert(tb.len() == 4 && false_bytes().len() == 5);
            }
            assert(classify_token(tb) == Some(ScalarSp::SNull));
        },
    }
}

/// A record kept by the store: its text fields carry no surrounding
/// whitespace, so reading them back trims nothing away.
pub open spec fn stored_rec(r: RecSp) -> bool {
    &&& crate::text::trim_spec(r.balance) == r.balance
    &&& crate::text::trim_spec(r.updated_at) == r.updated_at
    &&& crate::text::trim_spec(r.msg) == r.msg
}

/// An emitted record object parses back to the record it was made from.
#[verifier::rlimit(60)]
pub proof fn lemma_parse_record_emit(s: Seq<u8>, i: int, r: RecSp)
    requires
        matches_at(s, i, emit_record_spec(r)),
        stored_rec(r),
    ensures
        parse_record_members(s, i + 1, empty_rec()) == Some((r, i + emit_record_spec(r).len())),
{
    let k1 = emit_str_spec("balance"@);
    let v1 = emit_str_spec(r.balance);
    let k2 = emit_str_spec("updated_at"@);
    let v2 = emit_str_spec(r.updated_at);
    let k3 = emit_str_spec("apikey_sync_success"@);
    let v3 = emit_sync_spec(r.sync);
    let k4 = emit_str_spec("apikey_sync_message"@);
    let v4 = emit_str_spec(r.msg);
    let m1 = k1 + seq![0x3au8] + v1;
    let m2 = k2 + seq![0x3au8] + v2;
    let m3 = k3 + seq![0x3au8] + v3 + seq![0x2cu8];
    let m4 = k4 + seq![0x3au8] + v4;
    let eb = emit_record_spec(r);
    assert(eb =~= seq![0x7bu8] + (m1 + (seq![0x2cu8] + (m2 + (seq![0x2cu8] + (m3 + (m4 + seq![
        0x7du8,
    ])))))));
    let p1 = i + 1;
    lemma_matches_split(s, i, seq![0x7bu8], m1 + (seq![0x2cu8] + (m2 + (seq![0x2cu8] + (m3 + (m4
        + seq![0x7du8]))))));
    lemma_matches_split(s, p1, m1, seq![0x2cu8] + (m2 + (seq![0x2cu8] + (m3 + (m4 + seq![
        0x7du8,
    ])))));
    let c1 = p1 + m1.len();
    lemma_matches_split(s, c1, seq![0x2cu8], m2 + (seq![0x2cu8] + (m3 + (m4 + seq![0x7du8]))));
    lemma_matches_byte(s, c1, seq![0x2cu8], 0);
    let p2 = c1 + 1;
    lemma_matches_split(s, p2, m2, seq![0x2cu8] + (m3 + (m4 + seq![0x7du8])));
    let c2 = p2 + m2.len();
    lemma_matches_split(s, c2, seq![0x2cu8], m3 + (m4 + seq![0x7du8]));
    lemma_matches_byte(s, c2, seq![0x2cu8], 0);
    let p3 = c2 + 1;
    lemma_matches_split(s, p3, m3, m4 + seq![0x7du8]);
    let p4 = p3 + m3.len();
    lemma_matches_split(s, p4, m4, seq![0x7du8]);
    let e4 = p4 + m4.len();
    lemma_matches_byte(s, e4, seq![0x7du8], 0);
    lemma_str_member(s, p1, "balance"@, r.balance);
    lemma_str_member(s, p2, "updated_at"@, r.updated_at);
    lemma_sync_member(s, p3, "apikey_sync_success"@, r.sync);
    lemma_str_member(s, p4, "apikey_sync_message"@, r.msg);
    reveal_strlit("balance");
    reveal_strlit("updated_at");
    reveal_strlit("apikey_sync_success");
    reveal_strlit("apikey_sync_message");
    assert("balance"@.len() == 7 && "updated_at"@.len() == 10 && "apikey_sync_success"@.len() == 19
        && "apikey_sync_message"@.len() == 19);
    assert("apikey_sync_success"@[12] != "apikey_sync_message"@[12]);
    let a0 = empty_rec();
    let a1 = assign_field(a0, "balance"@, ScalarSp::SStr(r.balance));
    assert(a1.balance == r.balance);
    let a2 = assign_field(a1, "updated_at"@, ScalarSp::SStr(r.updated_at));
    assert(a2.balance == r.balance && a2.updated_at == r.updated_at);
    let sync_sp = match r.sync {
        Some(true) => ScalarSp::STrue,
        Some(false) => ScalarSp::SFalse,
        None => ScalarSp::SNull,
    };
    let a3 = assign_field(a2, "apikey_sync_success"@, sync_sp);
    assert(a3.sync == r.sync && a3.balance == r.balance && a3.updated_at == r.updated_at);
    let a4 = assign_field(a3, "apikey_sync_message"@, ScalarSp::SStr(r.msg));
    assert(a4 == r);
    assert(parse_record_members(s, p1, a0) == parse_record_members(s, p2, a1));
    assert(parse_record_members(s, p2, a1) == parse_record_members(s, p3, a2));
    assert(parse_record_members(s, p3, a2) == parse_record_members(s, p4, a3));
    assert(parse_record_members(s, p4, a3) == Some((a4, e4 + 1)));
    assert(e4 + 1 == i + eb.len());
}

/// The account list an emitted balance table reads back as.
pub open spec fn av_recs(l: Seq<(Seq<char>, RecSp)>) -> Seq<(Seq<char>, AvSp)> {
    Seq::new(l.len(), |x: int| (l[x].0, AvSp::AvRec(l[x].1)))
}

/// The account list an emitted daily table reads back as.
pub open spec fn av_days(l: Seq<(Seq<char>, crate::date::Date)>) -> Seq<(Seq<char>, AvSp)> {
    Seq::new(l.len(), |x: int| (l[x].0, AvSp::AvText(crate::date::day_chars_spec(l[x].1))))
}

/// An emitted balance accounts object parses back entry for entry.
#[verifier::rlimit(60)]
pub proof fn lemma_parse_balance_accounts_emit(
    s: Seq<u8>,
    i: int,
    l: Seq<(Seq<char>, RecSp)>,
    acc: Seq<(Seq<char>, AvSp)>,
)
    requires
        matches_at(s, i, emit_balance_entries(l) + seq![0x7du8]),
        forall|x: int| 0 <= x < l.len() ==> stored_rec((#[trigger] l[x]).1),
        vdistinct(l),
        forall|a: int, x: int|
            0 <= a < acc.len() && 0 <= x < l.len() ==> (#[trigger] acc[a]).0 != (#[trigger] l[x]).0,
    ensures
        parse_accounts_members(s, i, acc) == Some(
            (acc + av_recs(l), i + emit_balance_entries(l).len() + 1),
        ),
    decreases l.len(),
{
    if l.len() == 0 {
        assert(emit_balance_entries(l) =~= Seq::<u8>::empty());
        assert(emit_balance_entries(l) + seq![0x7du8] =~= seq![0x7du8]);
        lemma_matches_byte(s, i, seq![0x7du8], 0);
        lemma_skip_ws_noop(s, i);
        assert(acc + av_recs(l) =~= acc);
    } else {
        let e = l[0];
        let rest = l.drop_first();
        let kb = emit_str_spec(e.0);
        let rb = emit_record_spec(e.1);
        let mb = emit_balance_member(e);
        assert(mb =~= kb + seq![0x3au8] + rb);
        let eb = emit_balance_entries(l);
        let j = i + kb.len();
        let vpos = j + 1;
        let n = vpos + rb.len();
        if rest.len() == 0 {
            assert(eb == mb);
            assert(eb + seq![0x7du8] =~= kb + (seq![0x3au8] + (rb + seq![0x7du8])));
            lemma_matches_split(s, i, kb, seq![0x3au8] + (rb + seq![0x7du8]));
            lemma_matches_split(s, j, seq![0x3au8], rb + seq![0x7du8]);
            lemma_matches_byte(s, j, seq![0x3au8], 0);
            lemma_matches_split(s, vpos, rb, seq![0x7du8]);
            lemma_matches_byte(s, n, seq![0x7du8], 0);
            lemma_parse_string_emit(s, i, e.0);
            assert(kb =~= seq![0x22u8] + (escape_bytes(encode_utf8(e.0)) + seq![0x22u8]));
            lemma_matches_byte(s, i, kb, 0);
            assert(rb[0] == 0x7b) by {
                assert(rb =~= seq![0x7bu8] + (emit_str_spec("balance"@) + seq![0x3au8]
                    + emit_str_spec(e.1.balance) + seq![0x2cu8] + emit_str_spec("updated_at"@)
                    + seq![0x3au8] + emit_str_spec(e.1.updated_at) + seq![0x2cu8] + emit_str_spec(
                    "apikey_sync_success"@,
                ) + seq![0x3au8] + emit_sync_spec(e.1.sync) + seq![0x2cu8] + emit_str_spec(
                    "apikey_sync_message"@,
                ) + seq![0x3au8] + emit_str_spec(e.1.msg) + seq![0x7du8]));
            }
            lemma_matches_byte(s, vpos, rb, 0);
            lemma_skip_ws_noop(s, i);
            lemma_skip_ws_noop(s, j);
            lemma_skip_ws_noop(s, vpos);
            lemma_skip_ws_noop(s, n);
            lemma_parse_record_emit(s, vpos, e.1);
            assert forall|a: int| 0 <= a < acc.len() implies (#[trigger] acc[a]).0 != e.0 by {
                assert(acc[a].0 != l[0].0);
            }
            lemma_alist_put_push(acc, e.0, AvSp::AvRec(e.1));
            assert(acc.push((e.0, AvSp::AvRec(e.1))) =~= acc + av_recs(l));
            assert(parse_accounts_members(s, i, acc) == Some(
                (acc + av_recs(l), i + eb.len() + 1),
            ));
        } else {
            let rb2 = emit_balance_entries(rest);
            assert(eb == mb + seq![0x2cu8] + rb2);
            assert(eb + seq![0x7du8] =~= kb + (seq![0x3au8] + (rb + (seq![0x2cu8] + (rb2 + seq![
                0x7du8,
            ])))));
            lemma_matches_split(s, i, kb, seq![0x3au8] + (rb + (seq![0x2cu8] + (rb2 + seq![
                0x7du8,
            ]))));
            lemma_matches_split(s, j, seq![0x3au8], rb + (seq![0x2cu8] + (rb2 + seq![0x7du8])));
            lemma_matches_byte(s, j, seq![0x3au8], 0);
            lemma_matches_split(s, vpos, rb, seq![0x2cu8] + (rb2 + seq![0x7du8]));
            lemma_matches_split(s, n, seq![0x2cu8], rb2 + seq![0x7du8]);
            lemma_matches_byte(s, n, seq![0x2cu8], 0);
            lemma_parse_string_emit(s, i, e.0);
            assert(kb =~= seq![0x22u8] + (escape_bytes(encode_utf8(e.0)) + seq![0x22u8]));
            lemma_matches_byte(s, i, kb, 0);
            assert(rb[0] == 0x7b) by {
                assert(rb =~= seq![0x7bu8] + (emit_str_spec("balance"@) + seq![0x3au8]
                    + emit_str_spec(e.1.balance) + seq![0x2cu8] + emit_str_spec("updated_at"@)
                    + seq![0x3au8] + emit_str_spec(e.1.updated_at) + seq![0x2cu8] + emit_str_spec(
                    "apikey_sync_success"@,
                ) + seq![0x3au8] + emit_sync_spec(e.1.sync) + seq![0x2cu8] + emit_str_spec(
                    "apikey_sync_message"@,
                ) + seq![0x3au8] + emit_str_spec(e.1.msg) + seq![0x7du8]));
            }
            lemma_matches_byte(s, vpos, rb, 0);
            lemma_skip_ws_noop(s, i);
            lemma_skip_ws_noop(s, j);
            lemma_skip_ws_noop(s, vpos);
            lemma_skip_ws_noop(s, n);
            lemma_parse_record_emit(s, vpos, e.1);
            assert forall|a: int| 0 <= a < acc.len() implies (#[trigger] acc[a]).0 != e.0 by {
                assert(acc[a].0 != l[0].0);
            }
            lemma_alist_put_push(acc, e.0, AvSp::AvRec(e.1));
            let acc2 = acc.push((e.0, AvSp::AvRec(e.1)));
            assert forall|a: int, x: int|
                0 <= a < acc2.len() && 0 <= x < rest.len() implies (#[trigger] acc2[a]).0 != (
            #[trigger] rest[x]).0 by {
                assert(rest[x] == l[x + 1]);
                if a < acc.len() {
                    assert(acc[a].0 != l[x + 1].0);
                } else {
                    assert(acc2[a].0 == l[0].0);
                    assert(l[0].0 != l[x + 1].0);
                }
            }
            assert forall|x: int| 0 <= x < rest.len() implies stored_rec(
                (#[trigger] rest[x]).1,
            ) by {
                assert(rest[x] == l[x + 1]);
            }
            assert forall|a: int, b: int| 0 <= a < b < rest.len() implies (#[trigger] rest[a]).0
                != (#[trigger] rest[b]).0 by {
                assert(rest[a] == l[a + 1] && rest[b] == l[b + 1]);
            }
            lemma_parse_balance_accounts_emit(s, n + 1, rest, acc2);
            assert(acc2 + av_recs(rest) =~= acc + av_recs(l));
            assert(n + 1 + rb2.len() + 1 == i + eb.len() + 1);
            assert(parse_accounts_members(s, i, acc) == Some(
                (acc + av_recs(l), i + eb.len() + 1),
            ));
        }
    }
}

/// An emitted daily accounts object parses back entry for entry.
#[verifier::rlimit(60)]
pub proof fn lemma_parse_daily_accounts_emit(
    s: Seq<u8>,
    i: int,
    l: Seq<(Seq<char>, crate::date::Date)>,
    acc: Seq<(Seq<char>, AvSp)>,
)
    requires
        matches_at(s, i, emit_daily_entries(l) + seq![0x7du8]),
        forall|x: int| 0 <= x < l.len() ==> crate::date::valid_date((#[trigger] l[x]).1),
        vdistinct(l),
        forall|a: int, x: int|
            0 <= a < acc.len() && 0 <= x < l.len() ==> (#[trigger] acc[a]).0 != (#[trigger] l[x]).0,
    ensures
        parse_accounts_members(s, i, acc) == Some(
            (acc + av_days(l), i + emit_daily_entries(l).len() + 1),
        ),
    decreases l.len(),
{
    if l.len() == 0 {
        assert(emit_daily_entries(l) =~= Seq::<u8>::empty());
        assert(emit_daily_entries(l) + seq![0x7du8] =~= seq![0x7du8]);
        lemma_matches_byte(s, i, seq![0x7du8], 0);
        lemma_skip_ws_noop(s, i);
        assert(acc + av_days(l) =~= acc);
    } else {
        let e = l[0];
        let rest = l.drop_first();
        let kb = emit_str_spec(e.0);
        let dchars = crate::date::day_chars_spec(e.1);
        let db = emit_str_spec(dchars);
        let mb = emit_daily_member(e);
        assert(mb =~= kb + seq![0x3au8] + db);
        let eb = emit_daily_entries(l);
        let j = i + kb.len();
        let vpos = j + 1;
        let n = vpos + db.len();
        if rest.len() == 0 {
            assert(eb == mb);
            assert(eb + seq![0x7du8] =~= kb + (seq![0x3au8] + db) + seq![0x7du8]);
            lemma_matches_split(s, i, kb + (seq![0x3au8] + db), seq![0x7du8]);
            lemma_matches_byte(s, n, seq![0x7du8], 0);
            assert(kb + (seq![0x3au8] + db) =~= kb + seq![0x3au8] + db);
            lemma_str_member(s, i, e.0, dchars);
            lemma_skip_ws_noop(s, n);
            assert forall|a: int| 0 <= a < acc.len() implies (#[trigger] acc[a]).0 != e.0 by {
                assert(acc[a].0 != l[0].0);
            }
            lemma_alist_put_push(acc, e.0, AvSp::AvText(dchars));
            assert(acc.push((e.0, AvSp::AvText(dchars))) =~= acc + av_days(l));
            assert(parse_accounts_members(s, i, acc) == Some(
                (acc + av_days(l), i + eb.len() + 1),
            ));
        } else {
            let rb2 = emit_daily_entries(rest);
            assert(eb == mb + seq![0x2cu8] + rb2);
            assert(eb + seq![0x7du8] =~= (kb + seq![0x3au8] + db) + (seq![0x2cu8] + (rb2 + seq![
                0x7du8,
            ])));
            lemma_matches_split(s, i, kb + seq![0x3au8] + db, seq![0x2cu8] + (rb2 + seq![0x7du8]));
            lemma_matches_split(s, n, seq![0x2cu8], rb2 + seq![0x7du8]);
            lemma_matches_byte(s, n, seq![0x2cu8], 0);
            lemma_str_member(s, i, e.0, dchars);
            lemma_skip_ws_noop(s, n);
            assert forall|a: int| 0 <= a < acc.len() implies (#[trigger] acc[a]).0 != e.0 by {
                assert(acc[a].0 != l[0].0);
            }
            lemma_alist_put_push(acc, e.0, AvSp::AvText(dchars));
            let acc2 = acc.push((e.0, AvSp::AvText(dchars)));
            assert forall|a: int, x: int|
                0 <= a < acc2.len() && 0 <= x < rest.len() implies (#[trigger] acc2[a]).0 != (
            #[trigger] rest[x]).0 by {
                assert(rest[x] == l[x + 1]);
                if a < acc.len() {
                    assert(acc[a].0 != l[x + 1].0);
                } else {
                    assert(acc2[a].0 == l[0].0);
                    assert(l[0].0 != l[x + 1].0);
                }
            }
            assert forall|x: int| 0 <= x < rest.len() implies crate::date::valid_date(
                (#[trigger] rest[x]).1,
            ) by {
                assert(rest[x] == l[x + 1]);
            }
            assert forall|a: int, b: int| 0 <= a < b < rest.len() implies (#[trigger] rest[a]).0
                != (#[trigger] rest[b]).0 by {
                assert(rest[a] == l[a + 1] && rest[b] == l[b + 1]);
            }
            lemma_parse_daily_accounts_emit(s, n + 1, rest, acc2);
            assert(acc2 + av_days(rest) =~= acc + av_days(l));
            assert(n + 1 + rb2.len() + 1 == i + eb.len() + 1);
            assert(parse_accounts_members(s, i, acc) == Some(
                (acc + av_days(l), i + eb.len() + 1),
            ));
        }
    }
}

/// The common front of both emitted files: the opening brace, the
/// version member, the timestamp member, and the `accounts` key with its
/// opening brace.
pub open spec fn doc_header_bytes(up: Seq<char>) -> Seq<u8> {
    seq![0x7bu8] + emit_str_spec("version"@) + seq![0x3au8, 0x31u8, 0x2cu8] + emit_str_spec(
        "updated_at"@,
    ) + seq![0x3au8] + emit_str_spec(up) + seq![0x2cu8] + emit_str_spec("accounts"@) + seq![
        0x3au8,
        0x7bu8,
    ]
}

/// What the root accumulator holds once the two header members are read.
pub open spec fn header_acc(up: Seq<char>) -> RootSp {
    RootSp {
        accounts: None,
        flat: seq![
            ("version"@, AvSp::AvText(crate::text::ascii_chars_of(seq![0x31u8]))),
            ("updated_at"@, AvSp::AvText(up)),
        ],
        updated: up,
    }
}

/// Walking the two header members: the parse reaches the `accounts`
/// member with the header accumulator.
#[verifier::rlimit(80)]
pub proof fn lemma_doc_header(s: Seq<u8>, up: Seq<char>)
    requires
        matches_at(s, 0, doc_header_bytes(up)),
        crate::text::trim_spec(up) == up,
    ensures
        ({
            let kv = emit_str_spec("version"@);
            let ku = emit_str_spec("updated_at"@);
            let ub = emit_str_spec(up);
            let p3 = 1 + kv.len() + 3 + ku.len() + 1 + ub.len() + 1;
            parse_root_members(s, 1, empty_root()) == parse_root_members(
                s,
                p3 as int,
                header_acc(up),
            )
        }),
{
    let kv = emit_str_spec("version"@);
    let ku = emit_str_spec("updated_at"@);
    let ub = emit_str_spec(up);
    let ka = emit_str_spec("accounts"@);
    let hb = doc_header_bytes(up);
    reveal_strlit("version");
    reveal_strlit("updated_at");
    reveal_strlit("accounts");
    assert("version"@.len() == 7 && "updated_at"@.len() == 10 && "accounts"@.len() == 8);
    // Peel the header apart.
    assert(hb =~= seq![0x7bu8] + (kv + (seq![0x3au8, 0x31u8, 0x2cu8] + (ku + (seq![0x3au8] + (ub
        + (seq![0x2cu8] + (ka + seq![0x3au8, 0x7bu8]))))))));
    lemma_matches_split(s, 0, seq![0x7bu8], kv + (seq![0x3au8, 0x31u8, 0x2cu8] + (ku + (seq![
        0x3au8,
    ] + (ub + (seq![0x2cu8] + (ka + seq![0x3au8, 0x7bu8])))))));
    let p1 = 1;
    lemma_matches_split(s, p1, kv, seq![0x3au8, 0x31u8, 0x2cu8] + (ku + (seq![0x3au8] + (ub + (
    seq![0x2cu8] + (ka + seq![0x3au8, 0x7bu8]))))));
    let j1 = p1 + kv.len();
    lemma_matches_split(s, j1, seq![0x3au8, 0x31u8, 0x2cu8], ku + (seq![0x3au8] + (ub + (seq![
        0x2cu8,
    ] + (ka + seq![0x3au8, 0x7bu8])))));
    lemma_matches_byte(s, j1, seq![0x3au8, 0x31u8, 0x2cu8], 0);
    lemma_matches_byte(s, j1, seq![0x3au8, 0x31u8, 0x2cu8], 1);
    lemma_matches_byte(s, j1, seq![0x3au8, 0x31u8, 0x2cu8], 2);
    let p2 = j1 + 3;
    lemma_matches_split(s, p2, ku, seq![0x3au8] + (ub + (seq![0x2cu8] + (ka + seq![
        0x3au8,
        0x7bu8,
    ]))));
    let j2 = p2 + ku.len();
    lemma_matches_split(s, j2, seq![0x3au8], ub + (seq![0x2cu8] + (ka + seq![0x3au8, 0x7bu8])));
    lemma_matches_byte(s, j2, seq![0x3au8], 0);
    lemma_matches_split(s, j2 + 1, ub, seq![0x2cu8] + (ka + seq![0x3au8, 0x7bu8]));
    let n2 = j2 + 1 + ub.len();
    lemma_matches_split(s, n2, seq![0x2cu8], ka + seq![0x3au8, 0x7bu8]);
    lemma_matches_byte(s, n2, seq![0x2cu8], 0);
    // First member: "version": the digit one.
    lemma_parse_string_emit(s, p1, "version"@);
    assert(kv =~= seq![0x22u8] + (escape_bytes(encode_utf8("version"@)) + seq![0x22u8]));
    lemma_matches_byte(s, p1, kv, 0);
    lemma_skip_ws_noop(s, p1);
    lemma_skip_ws_noop(s, j1);
    lemma_skip_ws_noop(s, j1 + 1);
    let tok = seq![0x31u8];
    assert(matches_at(s, j1 + 1, tok)) by {
        assert(s.subrange(j1 + 1, j1 + 2) =~= tok);
    }
    lemma_scan_token_exact(s, j1 + 1, tok, Seq::empty());
    assert(Seq::<u8>::empty() + tok =~= tok);
    assert(classify_token(tok) == Some(ScalarSp::SNum(tok))) by {
        assert(tok.len() == 1 && true_bytes().len() == 4 && false_bytes().len() == 5
            && null_bytes().len() == 4);
        assert(tok != true_bytes() && tok != false_bytes() && tok != null_bytes());
        assert(is_num_byte(tok[0]));
    }
    assert(parse_scalar_spec(s, j1 + 1) == Some((ScalarSp::SNum(tok), j1 + 2)));
    lemma_skip_ws_noop(s, j1 + 2);
    let acc1 = root_member(
        empty_root(),
        "version"@,
        AvSp::AvText(crate::text::ascii_chars_of(tok)),
        None,
        Seq::<char>::empty(),
    );
    assert("version"@ != "accounts"@ && "version"@ != "updated_at"@);
    assert(parse_root_members(s, 1, empty_root()) == parse_root_members(s, p2, acc1));
    // Second member: "updated_at": the timestamp text.
    assert(matches_at(s, p2, ku + seq![0x3au8] + ub)) by {
        assert(ku + (seq![0x3au8] + ub) =~= ku + seq![0x3au8] + ub);
        lemma_matches_split(s, j2 + 1, ub, seq![0x2cu8] + (ka + seq![0x3au8, 0x7bu8]));
        assert(s.subrange(p2, p2 + (ku + seq![0x3au8] + ub).len()) =~= ku + seq![0x3au8] + ub) by {
            assert forall|x: int| 0 <= x < ku.len() + 1 + ub.len() implies s.subrange(
                p2,
                p2 + (ku + seq![0x3au8] + ub).len(),
            )[x] == (ku + seq![0x3au8] + ub)[x] by {
                if x < ku.len() {
                    lemma_matches_byte(s, p2, ku, x);
                } else if x == ku.len() {
                    assert(s[j2] == 0x3a);
                } else {
                    lemma_matches_byte(s, j2 + 1, ub, x - ku.len() - 1);
                }
            }
        }
    }
    lemma_str_member(s, p2, "updated_at"@, up);
    lemma_skip_ws_noop(s, n2);
    let acc2 = root_member(acc1, "updated_at"@, AvSp::AvText(up), None, up);
    assert("updated_at"@ != "accounts"@);
    assert(parse_root_members(s, p2, acc1) == parse_root_members(s, n2 + 1, acc2));
    assert(acc2.flat =~= header_acc(up).flat) by {
        assert(alist_put(Seq::<(Seq<char>, AvSp)>::empty(), "version"@, AvSp::AvText(
            crate::text::ascii_chars_of(tok),
        )) =~= seq![("version"@, AvSp::AvText(crate::text::ascii_chars_of(tok)))]);
        assert(acc1.flat =~= seq![("version"@, AvSp::AvText(crate::text::ascii_chars_of(tok)))]);
        assert(acc1.flat[0].0 != "updated_at"@);
        lemma_alist_put_push(acc1.flat, "updated_at"@, AvSp::AvText(up));
    }
    assert(acc2 == header_acc(up));
    assert(n2 + 1 == 1 + kv.len() + 3 + ku.len() + 1 + ub.len() + 1);
}

/// A table of kept records reads back out of its account-list form.
proof fn lemma_balance_entries_of_recs(l: Seq<(Seq<char>, RecSp)>)
    requires
        forall|x: int| 0 <= x < l.len() ==> (#[trigger] l[x]).1.balance.len() > 0,
    ensures
        balance_entries_of(av_recs(l)) == l,
    decreases l.len(),
{
    let a = av_recs(l);
    if l.len() == 0 {
        assert(a =~= Seq::<(Seq<char>, AvSp)>::empty());
        assert(balance_entries_of(a) =~= l);
    } else {
        assert(a[0] == (l[0].0, AvSp::AvRec(l[0].1)));
        assert(a.drop_first() =~= av_recs(l.drop_first()));
        assert forall|x: int| 0 <= x < l.drop_first().len() implies (#[trigger] l.drop_first()[
        x]).1.balance.len() > 0 by {
            assert(l.drop_first()[x] == l[x + 1]);
        }
        lemma_balance_entries_of_recs(l.drop_first());
        assert(rec_of_av(a[0].1) == l[0].1);
        assert(balance_entries_of(a) =~= l) by {
            assert(balance_entries_of(a) == seq![(l[0].0, l[0].1)] + balance_entries_of(
                a.drop_first(),
            ));
            assert((l[0].0, l[0].1) == l[0]);
        }
    }
}

/// A table of day markers reads back out of its account-list form.
proof fn lemma_daily_entries_of_days(l: Seq<(Seq<char>, crate::date::Date)>)
    requires
        forall|x: int| 0 <= x < l.len() ==> crate::date::valid_date((#[trigger] l[x]).1),
    ensures
        daily_entries_of(av_days(l)) == l,
    decreases l.len(),
{
    let a = av_days(l);
    if l.len() == 0 {
        assert(a =~= Seq::<(Seq<char>, AvSp)>::empty());
        assert(daily_entries_of(a) =~= l);
    } else {
        let d = l[0].1;
        let dc = crate::date::day_chars_spec(d);
        assert(a[0] == (l[0].0, AvSp::AvText(dc)));
        assert(a.drop_first() =~= av_days(l.drop_first()));
        assert forall|x: int| 0 <= x < l.drop_first().len() implies crate::date::valid_date(
            (#[trigger] l.drop_first()[x]).1,
        ) by {
            assert(l.drop_first()[x] == l[x + 1]);
        }
        lemma_daily_entries_of_days(l.drop_first());
        crate::date::lemma_day_text_ascii(d);
        assert forall|j: int| 0 <= j < dc.len() implies !crate::text::is_ws(#[trigger] dc[j]) by {
            let b = crate::date::day_text_spec(d)[j];
            assert(dc[j] == b as char);
            assert(b == 0x2d || (0x30 <= b && b < 0x3a));
            if dc[j] == ' ' {
                assert(dc[j] as u32 == 0x20);
            }
            if dc[j] == '\t' {
                assert(dc[j] as u32 == 0x09);
            }
            if dc[j] == '\n' {
                assert(dc[j] as u32 == 0x0a);
            }
            if dc[j] == '\r' {
                assert(dc[j] as u32 == 0x0d);
            }
        }
        crate::text::lemma_trim_non_ws(dc);
        crate::date::lemma_day_text_roundtrip(d);
        assert(daily_entries_of(a) =~= l) by {
            assert(daily_entries_of(a) == seq![(l[0].0, d)] + daily_entries_of(a.drop_first()));
            assert((l[0].0, d) == l[0]);
        }
    }
}

/// A record table written out is read back record for record: the
/// persistence round trip for the balance-cache file.
#[verifier::rlimit(100)]
pub proof fn lemma_balance_file_roundtrip(up: Seq<char>, l: Seq<(Seq<char>, RecSp)>)
    requires
        crate::text::trim_spec(up) == up,
        vdistinct(l),
        forall|x: int| 0 <= x < l.len() ==> stored_rec((#[trigger] l[x]).1),
        forall|x: int| 0 <= x < l.len() ==> (#[trigger] l[x]).1.balance.len() > 0,
    ensures
        parse_balance_doc_spec(emit_balance_doc_spec(up, l)) == Some(l),
{
    let s = emit_balance_doc_spec(up, l);
    let kv = emit_str_spec("version"@);
    let ku = emit_str_spec("updated_at"@);
    let ub = emit_str_spec(up);
    let ka = emit_str_spec("accounts"@);
    let hb = doc_header_bytes(up);
    let ent = emit_balance_entries(l);
    let front = seq![0x7bu8] + kv + seq![0x3au8, 0x31u8, 0x2cu8] + ku + seq![0x3au8] + ub + seq![
        0x2cu8,
    ];
    assert(s =~= hb + (ent + seq![0x7du8, 0x7du8]));
    assert(hb =~= front + (ka + seq![0x3au8, 0x7bu8]));
    assert(matches_at(s, 0, hb + (ent + seq![0x7du8, 0x7du8]))) by {
        assert(s.subrange(0, s.len() as int) =~= s);
    }
    lemma_matches_split(s, 0, hb, ent + seq![0x7du8, 0x7du8]);
    let hl = hb.len();
    assert(matches_at(s, 0, front + (ka + seq![0x3au8, 0x7bu8]))) by {
        assert(s.subrange(0, hb.len() as int) =~= hb);
        assert(s.subrange(0, (front + (ka + seq![0x3au8, 0x7bu8])).len() as int) =~= front + (ka
            + seq![0x3au8, 0x7bu8]));
    }
    lemma_matches_split(s, 0, front, ka + seq![0x3au8, 0x7bu8]);
    let p3 = front.len() as int;
    lemma_matches_split(s, p3, ka, seq![0x3au8, 0x7bu8]);
    let j3 = p3 + ka.len();
    lemma_matches_byte(s, j3, seq![0x3au8, 0x7bu8], 0);
    lemma_matches_byte(s, j3, seq![0x3au8, 0x7bu8], 1);
    lemma_doc_header(s, up);
    reveal_strlit("accounts");
    reveal_strlit("updated_at");
    assert("accounts"@.len() == 8 && "updated_at"@.len() == 10);
    lemma_parse_string_emit(s, p3, "accounts"@);
    assert(ka =~= seq![0x22u8] + (escape_bytes(encode_utf8("accounts"@)) + seq![0x22u8]));
    lemma_matches_byte(s, p3, ka, 0);
    lemma_skip_ws_noop(s, p3);
    lemma_skip_ws_noop(s, j3);
    lemma_skip_ws_noop(s, j3 + 1);
    let vpos = j3 + 1;
    assert(vpos + 1 == hl);
    assert(ent + seq![0x7du8, 0x7du8] =~= (ent + seq![0x7du8]) + seq![0x7du8]);
    lemma_matches_split(s, hl as int, ent + seq![0x7du8], seq![0x7du8]);
    lemma_parse_balance_accounts_emit(s, hl as int, l, Seq::empty());
    assert(Seq::<(Seq<char>, AvSp)>::empty() + av_recs(l) =~= av_recs(l));
    let n3 = hl + ent.len() + 1;
    lemma_matches_byte(s, n3 as int, seq![0x7du8], 0);
    lemma_skip_ws_noop(s, n3 as int);
    let acc3 = root_member(
        header_acc(up),
        "accounts"@,
        AvSp::AvText(Seq::empty()),
        Some(av_recs(l)),
        Seq::<char>::empty(),
    );
    assert(parse_root_members(s, p3, header_acc(up)) == Some((acc3, n3 + 1 as int)));
    assert(n3 + 1 == s.len());
    assert(s[0] == 0x7b) by {
        lemma_matches_byte(s, 0, front, 0);
    }
    lemma_skip_ws_noop(s, 0);
    assert(skip_ws_spec(s, s.len() as int) == s.len());
    assert(parse_root_spec(s) == Some(acc3));
    assert(acc3.accounts == Some(av_recs(l)));
    assert(root_list(acc3) == av_recs(l));
    lemma_balance_entries_of_recs(l);
}

/// A marker table written out is read back marker for marker, with the
/// timestamp text beside it: the persistence round trip for the
/// daily-state file.
#[verifier::rlimit(100)]
pub proof fn lemma_daily_file_roundtrip(up: Seq<char>, l: Seq<(Seq<char>, crate::date::Date)>)
    requires
        crate::text::trim_spec(up) == up,
        vdistinct(l),
        forall|x: int| 0 <= x < l.len() ==> crate::date::valid_date((#[trigger] l[x]).1),
    ensures
        parse_daily_doc_spec(emit_daily_doc_spec(up, l)) == Some((l, up)),
{
    let s = emit_daily_doc_spec(up, l);
    let kv = emit_str_spec("version"@);
    let ku = emit_str_spec("updated_at"@);
    let ub = emit_str_spec(up);
    let ka = emit_str_spec("accounts"@);
    let hb = doc_header_bytes(up);
    let ent = emit_daily_entries(l);
    let front = seq![0x7bu8] + kv + seq![0x3au8, 0x31u8, 0x2cu8] + ku + seq![0x3au8] + ub + seq![
        0x2cu8,
    ];
    assert(s =~= hb + (ent + seq![0x7du8, 0x7du8]));
    assert(hb =~= front + (ka + seq![0x3au8, 0x7bu8]));
    assert(matches_at(s, 0, hb + (ent + seq![0x7du8, 0x7du8]))) by {
        assert(s.subrange(0, s.len() as int) =~= s);
    }
    lemma_matches_split(s, 0, hb, ent + seq![0x7du8, 0x7du8]);
    let hl = hb.len();
    assert(matches_at(s, 0, front + (ka + seq![0x3au8, 0x7bu8]))) by {
        assert(s.subrange(0, hb.len() as int) =~= hb);
        assert(s.subrange(0, (front + (ka + seq![0x3au8, 0x7bu8])).len() as int) =~= front + (ka
            + seq![0x3au8, 0x7bu8]));
    }
    lemma_matches_split(s, 0, front, ka + seq![0x3au8, 0x7bu8]);
    let p3 = front.len() as int;
    lemma_matches_split(s, p3, ka, seq![0x3au8, 0x7bu8]);
    let j3 = p3 + ka.len();
    lemma_matches_byte(s, j3, seq![0x3au8, 0x7bu8], 0);
    lemma_matches_byte(s, j3, seq![0x3au8, 0x7bu8], 1);
    lemma_doc_header(s, up);
    reveal_strlit("accounts");
    reveal_strlit("updated_at");
    assert("accounts"@.len() == 8 && "updated_at"@.len() == 10);
    lemma_parse_string_emit(s, p3, "accounts"@);
    assert(ka =~= seq![0x22u8] + (escape_bytes(encode_utf8("accounts"@)) + seq![0x22u8]));
    lemma_matches_byte(s, p3, ka, 0);
    lemma_skip_ws_noop(s, p3);
    lemma_skip_ws_noop(s, j3);
    lemma_skip_ws_noop(s, j3 + 1);
    let vpos = j3 + 1;
    assert(vpos + 1 == hl);
    assert(ent + seq![0x7du8, 0x7du8] =~= (ent + seq![0x7du8]) + seq![0x7du8]);
    lemma_matches_split(s, hl as int, ent + seq![0x7du8], seq![0x7du8]);
    lemma_parse_daily_accounts_emit(s, hl as int, l, Seq::empty());
    assert(Seq::<(Seq<char>, AvSp)>::empty() + av_days(l) =~= av_days(l));
    let n3 = hl + ent.len() + 1;
    lemma_matches_byte(s, n3 as int, seq![0x7du8], 0);
    lemma_skip_ws_noop(s, n3 as int);
    let acc3 = root_member(
        header_acc(up),
        "accounts"@,
        AvSp::AvText(Seq::empty()),
        Some(av_days(l)),
        Seq::<char>::empty(),
    );
    assert(parse_root_members(s, p3, header_acc(up)) == Some((acc3, n3 + 1 as int)));
    assert(n3 + 1 == s.len());
    assert(s[0] == 0x7b) by {
        lemma_matches_byte(s, 0, front, 0);
    }
    lemma_skip_ws_noop(s, 0);
    assert(skip_ws_spec(s, s.len() as int) == s.len());
    assert(parse_root_spec(s) == Some(acc3));
    assert(acc3.accounts == Some(av_days(l)));
    assert(acc3.updated == up);
    assert(root_list(acc3) == av_days(l));
    lemma_daily_entries_of_days(l);
}

} // verus!
