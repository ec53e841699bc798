//! Request-header facts: given the parsed header pairs of one request,
//! derive its content length, user agent, accepted gzip encoding and
//! close-connection intent.
//!
//! Header names are matched case-insensitively (ASCII folding); among
//! duplicates the last header whose value is valid UTF-8 wins.

use vstd::prelude::*;
use vstd::slice::{slice_index_get, slice_to_vec};
use vstd::utf8::{encode_utf8, valid_utf8};

verus! {

/// The byte value of ASCII `A`.
pub const UPPER_A: u8 = 65;

/// The byte value of ASCII `Z`.
pub const UPPER_Z: u8 = 90;

/// The byte value of ASCII `0`.
pub const DIGIT_0: u8 = 48;

/// The byte value of ASCII `9`.
pub const DIGIT_9: u8 = 57;

/// The byte value of ASCII `+`.
pub const PLUS: u8 = 43;

/// One request header: a name and a raw value, both as bytes.
pub struct HttpHeader {
    pub name: Vec<u8>,
    pub value: Vec<u8>,
}

impl View for HttpHeader {
    type V = (Seq<u8>, Seq<u8>);

    open spec fn view(&self) -> (Seq<u8>, Seq<u8>) {
        (self.name@, self.value@)
    }
}

/// The header pairs of a header slice, as byte sequences.
pub open spec fn hdrs(headers: Seq<HttpHeader>) -> Seq<(Seq<u8>, Seq<u8>)> {
    headers.map_values(|h: HttpHeader| h@)
}

/// ASCII lower-casing of one byte.
pub open spec fn ascii_lower_byte(b: u8) -> u8 {
    if UPPER_A <= b && b <= UPPER_Z {
        (b + 32) as u8
    } else {
        b
    }
}

/// ASCII lower-casing of a byte sequence.
pub open spec fn ascii_lower(s: Seq<u8>) -> Seq<u8> {
    s.map_values(|b: u8| ascii_lower_byte(b))
}

fn lower_byte(b: u8) -> (r: u8)
    ensures
        r == ascii_lower_byte(b),
{
    if b >= UPPER_A && b <= UPPER_Z {
        b + 32
    } else {
        b
    }
}

/// Whether `s` ASCII-lower-cases to exactly `key`.
fn lower_eq(s: &[u8], key: &[u8]) -> (r: bool)
    ensures
        r == (ascii_lower(s@) == key@),
{
    if s.len() != key.len() {
        return false;
    }
    let mut i: usize = 0;
    while i < s.len()
        invariant
            0 <= i <= s@.len(),
            s@.len() == key@.len(),
            forall|j: int| 0 <= j < i ==> ascii_lower(s@)[j] == key@[j],
        decreases s@.len() - i,
    {
        if lower_byte(*slice_index_get(s, i)) != *slice_index_get(key, i) {
            return false;
        }
        i += 1;
    }
    proof {
        assert(ascii_lower(s@) =~= key@);
    }
    true
}

/// The value of the last header whose ASCII-lower-cased name is `key` and
/// whose value is valid UTF-8; `None` when there is no such header.
pub open spec fn spec_header_value(headers: Seq<(Seq<u8>, Seq<u8>)>, key: Seq<u8>) -> Option<
    Seq<u8>,
>
    decreases headers.len(),
{
    if headers.len() == 0 {
        None
    } else if ascii_lower(headers.last().0) == key && valid_utf8(headers.last().1) {
        Some(headers.last().1)
    } else {
        spec_header_value(headers.drop_last(), key)
    }
}

/// Relies on `String::from_utf8`: it returns `Ok` exactly on valid UTF-8
/// input, and the returned string's UTF-8 encoding is the input itself.
#[verifier::external_body]
fn utf8_string(bytes: Vec<u8>) -> (r: Option<String>)
    ensures
        r is Some <==> valid_utf8(bytes@),
        r matches Some(s) ==> encode_utf8(s@) == bytes@,
{
    String::from_utf8(bytes).ok()
}

/// Looks up `key` (given ASCII-lower-cased) among the headers, last
/// valid-UTF-8 occurrence winning, and returns the value as a string.
fn header_value(headers: &[HttpHeader], key: &[u8]) -> (r: Option<String>)
    ensures
        r is Some <==> spec_header_value(hdrs(headers@), key@) is Some,
        r matches Some(s) ==> spec_header_value(hdrs(headers@), key@) == Some(encode_utf8(s@)),
{
    let mut i: usize = headers.len();
    proof {
        assert(hdrs(headers@).take(headers@.len() as int) =~= hdrs(headers@));
    }
    while i > 0
        invariant
            0 <= i <= headers@.len(),
            spec_header_value(hdrs(headers@), key@) == spec_header_value(
                hdrs(headers@).take(i as int),
                key@,
            ),
        decreases i,
    {
        i -= 1;
        let h = slice_index_get(headers, i);
        proof {
            assert(hdrs(headers@).take(i as int + 1).last() == headers@[i as int]@);
            assert(hdrs(headers@).take(i as int + 1).drop_last() =~= hdrs(headers@).take(
                i as int,
            ));
        }
        if lower_eq(h.name.as_slice(), key) {
            let value = slice_to_vec(h.value.as_slice());
            match utf8_string(value) {
                Some(s) => {
                    return Some(s);
                },
                None => {},
            }
        }
    }
    proof {
        assert(hdrs(headers@).take(0) =~= Seq::<(Seq<u8>, Seq<u8>)>::empty());
    }
    None
}

/// Whether `b` is an ASCII decimal digit.
pub open spec fn is_digit(b: u8) -> bool {
    DIGIT_0 <= b && b <= DIGIT_9
}

/// Whether `s` is one or more ASCII decimal digits.
pub open spec fn is_digits(s: Seq<u8>) -> bool {
    s.len() > 0 && forall|i: int| 0 <= i < s.len() ==> is_digit(#[trigger] s[i])
}

/// The numeric value of a digit sequence.
pub open spec fn dec_value(s: Seq<u8>) -> int
    decreases s.len(),
{
    if s.len() == 0 {
        0
    } else {
        dec_value(s.drop_last()) * 10 + (s.last() - DIGIT_0)
    }
}

/// The digits of a decimal integer notation: everything after an optional
/// leading `+`.
pub open spec fn plus_stripped(s: Seq<u8>) -> Seq<u8> {
    if s.len() > 0 && s[0] == PLUS {
        s.drop_first()
    } else {
        s
    }
}

/// The parse of a decimal unsigned integer, as `str::parse::<usize>` decides
/// it: an optional leading `+`, then one or more digits, whose value fits in
/// `usize`; anything else does not parse.
pub open spec fn spec_parse_usize(s: Seq<u8>) -> Option<usize> {
    if is_digits(plus_stripped(s)) && dec_value(plus_stripped(s)) <= usize::MAX {
        Some(dec_value(plus_stripped(s)) as usize)
    } else {
        None
    }
}

proof fn lemma_dec_value_nonneg(s: Seq<u8>)
    requires
        forall|i: int| 0 <= i < s.len() ==> is_digit(#[trigger] s[i]),
    ensures
        dec_value(s) >= 0,
    decreases s.len(),
{
    if s.len() > 0 {
        assert(forall|i: int|
            0 <= i < s.drop_last().len() ==> is_digit(#[trigger] s.drop_last()[i]));
        lemma_dec_value_nonneg(s.drop_last());
    }
}

proof fn lemma_dec_value_monotone(s: Seq<u8>, i: int)
    requires
        0 <= i <= s.len(),
        forall|j: int| 0 <= j < s.len() ==> is_digit(#[trigger] s[j]),
    ensures
        dec_value(s.take(i)) <= dec_value(s),
    decreases s.len() - i,
{
    if i == s.len() {
        assert(s.take(i) =~= s);
    } else {
        assert(s.take(i + 1).drop_last() =~= s.take(i));
        assert(forall|j: int| 0 <= j < s.take(i).len() ==> is_digit(#[trigger] s.take(i)[j]));
        lemma_dec_value_nonneg(s.take(i));
        assert(dec_value(s.take(i + 1)) == dec_value(s.take(i)) * 10 + (s[i] - DIGIT_0));
        lemma_dec_value_monotone(s, i + 1);
    }
}

/// Parses a decimal `usize` from bytes, exactly as `str::parse::<usize>`
/// would on the corresponding string.
pub fn parse_usize_bytes(v: &[u8]) -> (r: Option<usize>)
    ensures
        r == spec_parse_usize(v@),
{
    let start: usize = if v.len() > 0 && *slice_index_get(v, 0) == PLUS {
        1
    } else {
        0
    };
    let ghost digits: Seq<u8> = plus_stripped(v@);
    proof {
        assert(digits =~= v@.subrange(start as int, v@.len() as int));
    }
    if v.len() == start {
        return None;
    }
    let mut i: usize = start;
    let mut acc: usize = 0;
    while i < v.len()
        invariant
            start <= i <= v@.len(),
            start < v@.len(),
            digits == plus_stripped(v@),
            digits =~= v@.subrange(start as int, v@.len() as int),
            forall|j: int| start <= j < i ==> is_digit(#[trigger] v@[j]),
            acc == dec_value(v@.subrange(start as int, i as int)),
        decreases v@.len() - i,
    {
        let b = *slice_index_get(v, i);
        if b < DIGIT_0 || b > DIGIT_9 {
            proof {
                assert(digits[i - start] == v@[i as int]);
                assert(!is_digit(digits[i - start]));
                assert(!is_digits(digits));
                assert(spec_parse_usize(v@) is None);
            }
            return None;
        }
        let d = (b - DIGIT_0) as usize;
        proof {
            assert(v@.subrange(start as int, i as int + 1).drop_last() =~= v@.subrange(
                start as int,
                i as int,
            ));
            assert(dec_value(v@.subrange(start as int, i as int + 1)) == acc * 10 + d);
        }
        if acc > (usize::MAX - d) / 10 {
            proof {
                assert(acc * 10 + d > usize::MAX) by (nonlinear_arith)
                    requires
                        acc > (usize::MAX - d) / 10,
                        0 <= d <= 9,
                        acc >= 0,
                ;
                if is_digits(digits) {
                    lemma_dec_value_monotone(digits, i as int + 1 - start);
                    assert(digits.take(i as int + 1 - start) =~= v@.subrange(
                        start as int,
                        i as int + 1,
                    ));
                }
            }
            return None;
        }
        proof {
            assert(acc * 10 + d <= usize::MAX) by (nonlinear_arith)
                requires
                    acc <= (usize::MAX - d) / 10,
                    0 <= d <= 9,
                    acc >= 0,
            ;
        }
        acc = acc * 10 + d;
        i += 1;
    }
    proof {
        assert(digits =~= v@.subrange(start as int, v@.len() as int));
        assert(is_digits(digits));
    }
    Some(acc)
}


/// The comma byte, the separator of `Accept-Encoding` tokens.
pub const COMMA: u8 = 44;

/// Whether `b` is ASCII whitespace (tab through carriage return, or space).
pub open spec fn is_ascii_ws(b: u8) -> bool {
    b == 32 || (9 <= b && b <= 13)
}

fn is_ws(b: u8) -> (r: bool)
    ensures
        r == is_ascii_ws(b),
{
    b == 32 || (b >= 9 && b <= 13)
}

/// The number of leading ASCII-whitespace bytes of `s`.
pub open spec fn first_non_ws(s: Seq<u8>) -> int
    decreases s.len(),
{
    if s.len() == 0 {
        0
    } else if !is_ascii_ws(s[0]) {
        0
    } else {
        1 + first_non_ws(s.drop_first())
    }
}

/// One past the last non-whitespace byte of `s` (0 when all whitespace).
pub open spec fn last_non_ws(s: Seq<u8>) -> int
    decreases s.len(),
{
    if s.len() == 0 {
        0
    } else if !is_ascii_ws(s.last()) {
        s.len() as int
    } else {
        last_non_ws(s.drop_last())
    }
}

/// `s` with leading and trailing ASCII whitespace removed.
pub open spec fn trim_ws(s: Seq<u8>) -> Seq<u8> {
    if first_non_ws(s) < last_non_ws(s) {
        s.subrange(first_non_ws(s), last_non_ws(s))
    } else {
        Seq::empty()
    }
}

/// The index of the first comma of `s`, or its length when it has none.
pub open spec fn first_comma(s: Seq<u8>) -> int
    decreases s.len(),
{
    if s.len() == 0 {
        0
    } else if s[0] == COMMA {
        0
    } else {
        1 + first_comma(s.drop_first())
    }
}

/// The bytes of "gzip".
pub open spec fn gzip_token() -> Seq<u8> {
    seq![103u8, 122u8, 105u8, 112u8]
}

/// Whether some comma-separated token of `s`, after trimming ASCII
/// whitespace on both sides, equals `gzip` exactly.
pub open spec fn spec_has_gzip_token(s: Seq<u8>) -> bool
    decreases s.len(),
{
    let k = first_comma(s);
    if trim_ws(s.take(k)) == gzip_token() {
        true
    } else if 0 <= k && k < s.len() {
        spec_has_gzip_token(s.skip(k + 1))
    } else {
        false
    }
}

proof fn lemma_first_comma(s: Seq<u8>)
    ensures
        0 <= first_comma(s) <= s.len(),
        forall|j: int| 0 <= j < first_comma(s) ==> s[j] != COMMA,
        first_comma(s) < s.len() ==> s[first_comma(s)] == COMMA,
    decreases s.len(),
{
    if s.len() == 0 {
    } else if s[0] == COMMA {
    } else {
        lemma_first_comma(s.drop_first());
        assert forall|j: int| 0 <= j < first_comma(s) implies s[j] != COMMA by {
            if j > 0 {
                assert(s.drop_first()[j - 1] == s[j]);
            }
        }
        if first_comma(s) < s.len() {
            assert(s.drop_first()[first_comma(s) - 1] == s[first_comma(s)]);
        }
    }
}

proof fn lemma_first_non_ws(s: Seq<u8>)
    ensures
        0 <= first_non_ws(s) <= s.len(),
        forall|j: int| 0 <= j < first_non_ws(s) ==> is_ascii_ws(s[j]),
        first_non_ws(s) < s.len() ==> !is_ascii_ws(s[first_non_ws(s)]),
    decreases s.len(),
{
    if s.len() == 0 {
    } else if !is_ascii_ws(s[0]) {
    } else {
        lemma_first_non_ws(s.drop_first());
        assert forall|j: int| 0 <= j < first_non_ws(s) implies is_ascii_ws(s[j]) by {
            if j > 0 {
                assert(s.drop_first()[j - 1] == s[j]);
            }
        }
        if first_non_ws(s) < s.len() {
            assert(s.drop_first()[first_non_ws(s) - 1] == s[first_non_ws(s)]);
        }
    }
}

proof fn lemma_last_non_ws(s: Seq<u8>)
    ensures
        0 <= last_non_ws(s) <= s.len(),
        forall|j: int| last_non_ws(s) <= j < s.len() ==> is_ascii_ws(s[j]),
        last_non_ws(s) > 0 ==> !is_ascii_ws(s[last_non_ws(s) - 1]),
    decreases s.len(),
{
    if s.len() == 0 {
    } else if !is_ascii_ws(s.last()) {
    } else {
        lemma_last_non_ws(s.drop_last());
        assert forall|j: int| last_non_ws(s) <= j < s.len() implies is_ascii_ws(s[j]) by {
            if j < s.len() - 1 {
                assert(s.drop_last()[j] == s[j]);
            }
        }
        if last_non_ws(s) > 0 {
            assert(s.drop_last()[last_non_ws(s) - 1] == s[last_non_ws(s) - 1]);
        }
    }
}

/// Whether the bytes of `v` between `lo` and `hi`, trimmed of ASCII
/// whitespace, are exactly `gzip`.
fn trimmed_is_gzip(v: &[u8], lo: usize, hi: usize) -> (r: bool)
    requires
        lo <= hi <= v@.len(),
    ensures
        r == (trim_ws(v@.subrange(lo as int, hi as int)) == gzip_token()),
{
    let ghost seg = v@.subrange(lo as int, hi as int);
    let mut a = lo;
    while a < hi && is_ws(*slice_index_get(v, a))
        invariant
            lo <= a <= hi <= v@.len(),
            seg == v@.subrange(lo as int, hi as int),
            forall|j: int| lo <= j < a ==> is_ascii_ws(v@[j]),
        decreases hi - a,
    {
        a += 1;
    }
    proof {
        lemma_first_non_ws(seg);
        assert forall|j: int| 0 <= j < a - lo implies is_ascii_ws(seg[j]) by {
            assert(seg[j] == v@[lo + j]);
        }
        if a < hi {
            assert(seg[a - lo] == v@[a as int]);
        }
        assert(first_non_ws(seg) == a - lo);
    }
    if a == hi {
        proof {
            lemma_last_non_ws(seg);
            assert(trim_ws(seg) =~= Seq::<u8>::empty());
        }
        return false;
    }
    let mut b = hi;
    while is_ws(*slice_index_get(v, b - 1))
        invariant
            lo <= a < b <= hi <= v@.len(),
            seg == v@.subrange(lo as int, hi as int),
            !is_ascii_ws(v@[a as int]),
            forall|j: int| b <= j < hi ==> is_ascii_ws(v@[j]),
        decreases b,
    {
        b -= 1;
    }
    proof {
        lemma_last_non_ws(seg);
        assert forall|j: int| b - lo <= j < seg.len() implies is_ascii_ws(seg[j]) by {
            assert(seg[j] == v@[lo + j]);
        }
        assert(seg[b - lo - 1] == v@[b - 1]);
        assert(last_non_ws(seg) == b - lo);
        assert(trim_ws(seg) =~= v@.subrange(a as int, b as int));
    }
    if b - a != 4 {
        return false;
    }
    let r = *slice_index_get(v, a) == 103 && *slice_index_get(v, a + 1) == 122
        && *slice_index_get(v, a + 2) == 105 && *slice_index_get(v, a + 3) == 112;
    proof {
        if r {
            assert(v@.subrange(a as int, b as int) =~= gzip_token());
        } else {
            assert(v@.subrange(a as int, b as int) != gzip_token());
        }
    }
    r
}

/// Whether some comma-separated token of `v`, with surrounding ASCII
/// whitespace trimmed, equals `gzip` exactly.
pub fn has_gzip_token(v: &[u8]) -> (r: bool)
    ensures
        r == spec_has_gzip_token(v@),
{
    let mut start: usize = 0;
    proof {
        assert(v@.skip(0) =~= v@);
    }
    loop
        invariant
            0 <= start <= v@.len(),
            spec_has_gzip_token(v@) == spec_has_gzip_token(v@.skip(start as int)),
        decreases v@.len() - start,
    {
        let ghost rest = v@.skip(start as int);
        let mut k = start;
        while k < v.len() && *slice_index_get(v, k) != COMMA
            invariant
                start <= k <= v@.len(),
                forall|j: int| start <= j < k ==> v@[j] != COMMA,
            decreases v@.len() - k,
        {
            k += 1;
        }
        proof {
            lemma_first_comma(rest);
            assert forall|j: int| 0 <= j < k - start implies rest[j] != COMMA by {
                assert(rest[j] == v@[start + j]);
            }
            if k < v@.len() {
                assert(rest[k - start] == v@[k as int]);
            }
            assert(first_comma(rest) == k - start);
            assert(rest.take(k - start) =~= v@.subrange(start as int, k as int));
        }
        if trimmed_is_gzip(v, start, k) {
            return true;
        }
        if k == v.len() {
            return false;
        }
        proof {
            assert(rest.skip(k - start + 1) =~= v@.skip(k as int + 1));
        }
        start = k + 1;
    }
}

/// The bytes of "content-length".
pub open spec fn key_content_length() -> Seq<u8> {
    seq![99u8, 111u8, 110u8, 116u8, 101u8, 110u8, 116u8, 45u8, 108u8, 101u8, 110u8, 103u8, 116u8, 104u8]
}

/// The bytes of "user-agent".
pub open spec fn key_user_agent() -> Seq<u8> {
    seq![117u8, 115u8, 101u8, 114u8, 45u8, 97u8, 103u8, 101u8, 110u8, 116u8]
}

/// The bytes of "accept-encoding".
pub open spec fn key_accept_encoding() -> Seq<u8> {
    seq![97u8, 99u8, 99u8, 101u8, 112u8, 116u8, 45u8, 101u8, 110u8, 99u8, 111u8, 100u8, 105u8, 110u8, 103u8]
}

/// The bytes of "connection".
pub open spec fn key_connection() -> Seq<u8> {
    seq![99u8, 111u8, 110u8, 110u8, 101u8, 99u8, 116u8, 105u8, 111u8, 110u8]
}

/// The bytes of "close".
pub open spec fn close_word() -> Seq<u8> {
    seq![99u8, 108u8, 111u8, 115u8, 101u8]
}

fn content_length_key() -> (r: Vec<u8>)
    ensures
        r@ == key_content_length(),
{
    let r: Vec<u8> = vec![99, 111, 110, 116, 101, 110, 116, 45, 108, 101, 110, 103, 116, 104];
    proof {
        assert(r@ =~= key_content_length());
    }
    r
}

fn user_agent_key() -> (r: Vec<u8>)
    ensures
        r@ == key_user_agent(),
{
    let r: Vec<u8> = vec![117, 115, 101, 114, 45, 97, 103, 101, 110, 116];
    proof {
        assert(r@ =~= key_user_agent());
    }
    r
}

fn accept_encoding_key() -> (r: Vec<u8>)
    ensures
        r@ == key_accept_encoding(),
{
    let r: Vec<u8> = vec![97, 99, 99, 101, 112, 116, 45, 101, 110, 99, 111, 100, 105, 110, 103];
    proof {
        assert(r@ =~= key_accept_encoding());
    }
    r
}

fn connection_key() -> (r: Vec<u8>)
    ensures
        r@ == key_connection(),
{
    let r: Vec<u8> = vec![99, 111, 110, 110, 101, 99, 116, 105, 111, 110];
    proof {
        assert(r@ =~= key_connection());
    }
    r
}

fn close_word_bytes() -> (r: Vec<u8>)
    ensures
        r@ == close_word(),
{
    let r: Vec<u8> = vec![99, 108, 111, 115, 101];
    proof {
        assert(r@ =~= close_word());
    }
    r
}

/// The `Content-Length` fact: the parse of the winning `Content-Length`
/// header value, when there is one and it parses.
pub open spec fn spec_content_length(headers: Seq<(Seq<u8>, Seq<u8>)>) -> Option<usize> {
    match spec_header_value(headers, key_content_length()) {
        Some(v) => spec_parse_usize(v),
        None => None,
    }
}

/// The `User-Agent` fact: the winning `User-Agent` header value, verbatim.
pub open spec fn spec_user_agent(headers: Seq<(Seq<u8>, Seq<u8>)>) -> Option<Seq<u8>> {
    spec_header_value(headers, key_user_agent())
}

/// The `Accept-Encoding` fact: whether a gzip token is present.
pub open spec fn spec_accepts_gzip(headers: Seq<(Seq<u8>, Seq<u8>)>) -> bool {
    match spec_header_value(headers, key_accept_encoding()) {
        Some(v) => spec_has_gzip_token(v),
        None => false,
    }
}

/// The `Connection` fact: whether the value lower-cases to "close".
pub open spec fn spec_close_connection(headers: Seq<(Seq<u8>, Seq<u8>)>) -> bool {
    match spec_header_value(headers, key_connection()) {
        Some(v) => ascii_lower(v) == close_word(),
        None => false,
    }
}

/// The facts derived from one request's header set.
#[derive(Debug)]
pub struct RequestInfo {
    pub content_length: Option<usize>,
    pub user_agent: Option<String>,
    pub accepts_gzip: bool,
    pub close_connection: bool,
}

/// Whether `info` holds exactly the facts of `headers`.
pub open spec fn facts_match(info: RequestInfo, headers: Seq<(Seq<u8>, Seq<u8>)>) -> bool {
    &&& info.content_length == spec_content_length(headers)
    &&& (info.user_agent is Some <==> spec_user_agent(headers) is Some)
    &&& (info.user_agent matches Some(ua) ==> spec_user_agent(headers) == Some(encode_utf8(ua@)))
    &&& info.accepts_gzip == spec_accepts_gzip(headers)
    &&& info.close_connection == spec_close_connection(headers)
}

impl RequestInfo {
    /// Derives the request facts from a header set: content length, user
    /// agent, gzip acceptance and close-connection intent.
    pub fn from_headers(headers: &[HttpHeader]) -> (r: RequestInfo)
        ensures
            facts_match(r, hdrs(headers@)),
    {
        let content_length = match header_value(headers, content_length_key().as_slice()) {
            Some(s) => parse_usize_bytes(s.as_str().as_bytes()),
            None => None,
        };
        let user_agent = header_value(headers, user_agent_key().as_slice());
        let accepts_gzip = match header_value(headers, accept_encoding_key().as_slice()) {
            Some(s) => has_gzip_token(s.as_str().as_bytes()),
            None => false,
        };
        let close_connection = match header_value(headers, connection_key().as_slice()) {
            Some(s) => lower_eq(s.as_str().as_bytes(), close_word_bytes().as_slice()),
            None => false,
        };
        RequestInfo { content_length, user_agent, accepts_gzip, close_connection }
    }
}

} // verus!
