//! Byte-level text primitives over UTF-8 encoded strings: Unicode
//! whitespace recognition, tokenising, trimming, ASCII case folding,
//! sub-string extraction at character boundaries and decimal/hex rendering.
use vstd::prelude::*;
use vstd::utf8::*;
use vstd::string::StringSliceAdditionalSpecFns;

verus! {

broadcast use vstd::utf8::group_utf8_lib;

/// The byte length of the UTF-8 encoding of a Unicode `White_Space`
/// character (as `char::is_whitespace` defines it) that starts at byte `i`
/// of `b`, or 0 when none starts there.
///
/// The whitespace characters are U+0009..U+000D, U+0020 (one byte),
/// U+0085, U+00A0 (two bytes: `C2 85`, `C2 A0`), U+1680 (`E1 9A 80`),
/// U+2000..U+200A (`E2 80 80`..`E2 80 8A`), U+2028, U+2029, U+202F
/// (`E2 80 A8`, `E2 80 A9`, `E2 80 AF`), U+205F (`E2 81 9F`) and U+3000
/// (`E3 80 80`).
pub open spec fn ws_len(b: Seq<u8>, i: int) -> int {
    if 0 <= i < b.len() {
        let c0 = b[i];
        if (0x09 <= c0 && c0 <= 0x0d) || c0 == 0x20 {
            1
        } else if c0 == 0xc2 && i + 1 < b.len() && (b[i + 1] == 0x85 || b[i + 1] == 0xa0) {
            2
        } else if i + 2 < b.len() && ((c0 == 0xe1 && b[i + 1] == 0x9a && b[i + 2] == 0x80) || (
        c0 == 0xe2 && b[i + 1] == 0x80 && ((0x80 <= b[i + 2] && b[i + 2] <= 0x8a) || b[i + 2]
            == 0xa8 || b[i + 2] == 0xa9 || b[i + 2] == 0xaf)) || (c0 == 0xe2 && b[i + 1] == 0x81
            && b[i + 2] == 0x9f) || (c0 == 0xe3 && b[i + 1] == 0x80 && b[i + 2] == 0x80)) {
            3
        } else {
            0
        }
    } else {
        0
    }
}

/// The first position at or after `i` that does not start a whitespace
/// character.
pub open spec fn skip_ws(b: Seq<u8>, i: int) -> int
    decreases b.len() - i,
{
    if 0 <= i < b.len() && ws_len(b, i) > 0 {
        skip_ws(b, i + ws_len(b, i))
    } else {
        i
    }
}

/// The end of the token that starts at `i`: the first position at or after
/// `i` where a whitespace character starts, or the end of `b`.
pub open spec fn token_end(b: Seq<u8>, i: int) -> int
    decreases b.len() - i,
{
    if 0 <= i < b.len() && ws_len(b, i) == 0 {
        token_end(b, i + 1)
    } else {
        i
    }
}

/// The byte length of a whitespace character that ends exactly at `hi`
/// and starts at or after `lo`, or 0 when none does.
pub open spec fn ws_len_before(b: Seq<u8>, lo: int, hi: int) -> int {
    if hi - 1 >= lo && ws_len(b, hi - 1) == 1 {
        1
    } else if hi - 2 >= lo && ws_len(b, hi - 2) == 2 {
        2
    } else if hi - 3 >= lo && ws_len(b, hi - 3) == 3 {
        3
    } else {
        0
    }
}

/// The end of `b[lo..hi]` once trailing whitespace characters are removed.
pub open spec fn rskip_ws(b: Seq<u8>, lo: int, hi: int) -> int
    decreases hi - lo,
{
    if hi > lo && ws_len_before(b, lo, hi) > 0 {
        rskip_ws(b, lo, hi - ws_len_before(b, lo, hi))
    } else {
        hi
    }
}

/// `b` without leading and trailing whitespace characters (`str::trim`).
pub open spec fn trim(b: Seq<u8>) -> Seq<u8> {
    b.subrange(skip_ws(b, 0), rskip_ws(b, skip_ws(b, 0), b.len() as int))
}

/// `b` without trailing whitespace characters (`str::trim_end`).
pub open spec fn trim_end(b: Seq<u8>) -> Seq<u8> {
    b.subrange(0, rskip_ws(b, 0, b.len() as int))
}

/// The first whitespace-separated token of `b`, as `(start, end)` byte
/// offsets, when there is one (`split_whitespace().next()`).
pub open spec fn first_token(b: Seq<u8>) -> Option<(int, int)> {
    let s = skip_ws(b, 0);
    if s < b.len() {
        Some((s, token_end(b, s)))
    } else {
        None
    }
}

/// The second whitespace-separated token of `b`, as `(start, end)` byte
/// offsets, when there is one (`split_whitespace().nth(1)`).
pub open spec fn second_token(b: Seq<u8>) -> Option<(int, int)> {
    match first_token(b) {
        Some((_, e1)) => {
            let s = skip_ws(b, e1);
            if s < b.len() {
                Some((s, token_end(b, s)))
            } else {
                None
            }
        },
        None => None,
    }
}

/// ASCII upper-casing of one byte (`u8::to_ascii_uppercase`).
pub open spec fn upper(c: u8) -> u8 {
    if 0x61 <= c && c <= 0x7a {
        (c - 0x20) as u8
    } else {
        c
    }
}

/// ASCII upper-casing of a byte sequence.
pub open spec fn upper_seq(s: Seq<u8>) -> Seq<u8> {
    Seq::new(s.len(), |i: int| upper(s[i]))
}

/// The decimal rendering of `n` without leading zeros (`0` for zero).
pub open spec fn decimal(n: nat) -> Seq<u8>
    decreases n,
{
    if n < 10 {
        seq![(0x30 + n) as u8]
    } else {
        decimal(n / 10) + seq![(0x30 + n % 10) as u8]
    }
}

/// The lower-case hexadecimal digit for `d < 16`.
pub open spec fn hex_digit_lower(d: nat) -> u8 {
    if d < 10 {
        (0x30 + d) as u8
    } else {
        (0x61 + d - 10) as u8
    }
}

/// Exec form of [`ws_len`].
pub fn ws_len_at(b: &[u8], i: usize) -> (n: usize)
    ensures
        n as int == ws_len(b@, i as int),
        n <= 3,
        n > 0 ==> i + n <= b@.len(),
{
    if i >= b.len() {
        return 0;
    }
    let c0 = b[i];
    if (0x09 <= c0 && c0 <= 0x0d) || c0 == 0x20 {
        return 1;
    }
    if c0 == 0xc2 && i + 1 < b.len() && (b[i + 1] == 0x85 || b[i + 1] == 0xa0) {
        return 2;
    }
    if b.len() - i > 2 {
        let c1 = b[i + 1];
        let c2 = b[i + 2];
        if (c0 == 0xe1 && c1 == 0x9a && c2 == 0x80) || (c0 == 0xe2 && c1 == 0x80 && ((0x80 <= c2
            && c2 <= 0x8a) || c2 == 0xa8 || c2 == 0xa9 || c2 == 0xaf)) || (c0 == 0xe2 && c1 == 0x81
            && c2 == 0x9f) || (c0 == 0xe3 && c1 == 0x80 && c2 == 0x80) {
            return 3;
        }
    }
    0
}

/// Exec form of [`skip_ws`].
pub fn skip_ws_from(b: &[u8], i: usize) -> (j: usize)
    requires
        i <= b@.len(),
    ensures
        j as int == skip_ws(b@, i as int),
        i <= j <= b@.len(),
    decreases b@.len() - i,
{
    let n = ws_len_at(b, i);
    if i < b.len() && n > 0 {
        skip_ws_from(b, i + n)
    } else {
        i
    }
}

/// Exec form of [`token_end`].
pub fn token_end_from(b: &[u8], i: usize) -> (j: usize)
    requires
        i <= b@.len(),
    ensures
        j as int == token_end(b@, i as int),
        i <= j <= b@.len(),
    decreases b@.len() - i,
{
    if i < b.len() && ws_len_at(b, i) == 0 {
        token_end_from(b, i + 1)
    } else {
        i
    }
}

/// Exec form of [`rskip_ws`].
pub fn rskip_ws_from(b: &[u8], lo: usize, hi: usize) -> (j: usize)
    requires
        lo <= hi <= b@.len(),
    ensures
        j as int == rskip_ws(b@, lo as int, hi as int),
        lo <= j <= hi,
    decreases hi - lo,
{
    if hi > lo {
        let k = if hi - 1 >= lo && ws_len_at(b, hi - 1) == 1 {
            1
        } else if hi >= 2 && hi - 2 >= lo && ws_len_at(b, hi - 2) == 2 {
            2
        } else if hi >= 3 && hi - 3 >= lo && ws_len_at(b, hi - 3) == 3 {
            3
        } else {
            0
        };
        assert(k as int == ws_len_before(b@, lo as int, hi as int));
        if k > 0 {
            return rskip_ws_from(b, lo, hi - k);
        }
    }
    hi
}

/// The `(start, end)` offsets of [`trim`] of `b`.
pub fn trim_bounds(b: &[u8]) -> (r: (usize, usize))
    ensures
        r.0 as int == skip_ws(b@, 0),
        r.1 as int == rskip_ws(b@, r.0 as int, b@.len() as int),
        r.0 <= r.1 <= b@.len(),
        b@.subrange(r.0 as int, r.1 as int) == trim(b@),
{
    let s = skip_ws_from(b, 0);
    let e = rskip_ws_from(b, s, b.len());
    (s, e)
}

/// Whether `b[start..end]`, ASCII upper-cased, equals `kw`.
pub fn upper_eq(b: &[u8], start: usize, end: usize, kw: &[u8]) -> (r: bool)
    requires
        start <= end <= b@.len(),
    ensures
        r == (upper_seq(b@.subrange(start as int, end as int)) == kw@),
{
    if end - start != kw.len() {
        proof {
            assert(upper_seq(b@.subrange(start as int, end as int)).len() != kw@.len());
        }
        return false;
    }
    let mut i: usize = 0;
    while i < kw.len()
        invariant
            end - start == kw@.len(),
            start <= end <= b@.len(),
            i <= kw@.len(),
            forall|j: int| 0 <= j < i ==> upper(#[trigger] b@[start + j]) == kw@[j],
        decreases kw@.len() - i,
    {
        let c = b[start + i];
        let u = if 0x61 <= c && c <= 0x7a {
            c - 0x20
        } else {
            c
        };
        if u != kw[i] {
            proof {
                assert(upper_seq(b@.subrange(start as int, end as int))[i as int] != kw@[i as int]);
            }
            return false;
        }
        i = i + 1;
    }
    proof {
        let u = upper_seq(b@.subrange(start as int, end as int));
        assert forall|j: int| 0 <= j < u.len() implies u[j] == kw@[j] by {
            assert(upper(b@[start + j]) == kw@[j]);
        }
        assert(u =~= kw@);
    }
    true
}

/// Appends `bytes` to `out`.
pub fn push_bytes(out: &mut Vec<u8>, bytes: &[u8])
    ensures
        final(out)@ == old(out)@ + bytes@,
{
    let mut i: usize = 0;
    while i < bytes.len()
        invariant
            i <= bytes@.len(),
            out@ == old(out)@ + bytes@.take(i as int),
        decreases bytes@.len() - i,
    {
        out.push(bytes[i]);
        proof {
            assert(bytes@.take(i + 1) =~= bytes@.take(i as int).push(bytes@[i as int]));
        }
        i = i + 1;
    }
    proof {
        assert(bytes@.take(i as int) =~= bytes@);
    }
}

/// Appends the UTF-8 encoding of `text` to `out`.
pub fn push_str(out: &mut Vec<u8>, text: &str)
    ensures
        final(out)@ == old(out)@ + text.spec_bytes(),
{
    push_bytes(out, text.as_bytes());
}

/// Appends the decimal rendering of `n` to `out`.
pub fn push_decimal(out: &mut Vec<u8>, n: u64)
    ensures
        final(out)@ == old(out)@ + decimal(n as nat),
    decreases n,
{
    if n >= 10 {
        push_decimal(out, n / 10);
    }
    let d = (n % 10) as u8;
    out.push(0x30 + d);
    proof {
        if n >= 10 {
            assert(decimal(n as nat) == decimal((n / 10) as nat) + seq![(0x30 + n % 10) as u8]);
        }
    }
}

/// A valid-UTF-8 byte sequence is a character boundary at every position
/// that does not hold a continuation byte, and at its end.
pub proof fn lemma_boundary(b: Seq<u8>, i: int)
    requires
        valid_utf8(b),
        0 <= i <= b.len(),
        i == b.len() || !is_continuation_byte(b[i]),
    ensures
        is_char_boundary(b, i),
{
    if i == b.len() {
        is_char_boundary_start_end_of_seq(b);
    } else {
        is_char_boundary_iff_not_is_continuation_byte(b, i);
    }
}

/// The sub-string of `s` between byte offsets `start` and `end`, both of
/// which are character boundaries.
pub fn str_slice(s: &str, start: usize, end: usize) -> (r: &str)
    requires
        start <= end <= s.spec_bytes().len(),
        is_char_boundary(s.spec_bytes(), start as int),
        is_char_boundary(s.spec_bytes(), end as int),
    ensures
        r.spec_bytes() == s.spec_bytes().subrange(start as int, end as int),
        r@ == decode_utf8(s.spec_bytes().subrange(start as int, end as int)),
{
    let ghost b = s.spec_bytes();
    proof {
        encode_utf8_valid_utf8(s@);
        valid_utf8_split(b, start as int);
    }
    let (_, tail) = s.split_at(start);
    let ghost t = tail.spec_bytes();
    proof {
        assert(t =~= b.subrange(start as int, b.len() as int));
        let k = end - start;
        if end == b.len() {
            is_char_boundary_start_end_of_seq(t);
        } else {
            is_char_boundary_iff_not_is_continuation_byte(b, end as int);
            assert(t[k as int] == b[end as int]);
            is_char_boundary_iff_not_is_continuation_byte(t, k as int);
        }
    }
    let (mid, _) = tail.split_at(end - start);
    proof {
        assert(mid.spec_bytes() =~= b.subrange(start as int, end as int));
        encode_utf8_decode_utf8(mid@);
    }
    mid
}

/// Whether position `i` of `b` is its end or holds a byte that is not a
/// UTF-8 continuation byte.
pub open spec fn nc_or_end(b: Seq<u8>, i: int) -> bool {
    i == b.len() || (0 <= i < b.len() && !is_continuation_byte(b[i]))
}

/// The encoded length announced by a UTF-8 leading byte.
pub open spec fn lead_width(x: u8) -> int {
    if x < 0x80 {
        1
    } else if x < 0xe0 {
        2
    } else if x < 0xf0 {
        3
    } else {
        4
    }
}

proof fn lemma_first_scalar_shape(b: Seq<u8>)
    requires
        valid_utf8(b),
        b.len() > 0,
    ensures
        !is_continuation_byte(b[0]),
        length_of_first_scalar(b) == lead_width(b[0]),
        length_of_first_scalar(b) <= b.len(),
        forall|j: int| 0 < j < length_of_first_scalar(b) ==> is_continuation_byte(#[trigger] b[j]),
{
}

/// In valid UTF-8, the character that starts at a non-continuation byte is
/// followed by the end or by another non-continuation byte.
pub proof fn lemma_next_boundary(b: Seq<u8>, i: int)
    requires
        valid_utf8(b),
        0 <= i < b.len(),
        !is_continuation_byte(b[i]),
    ensures
        i + lead_width(b[i]) <= b.len(),
        nc_or_end(b, i + lead_width(b[i])),
    decreases b.len(),
{
    lemma_first_scalar_shape(b);
    let l = length_of_first_scalar(b);
    let rest = pop_first_scalar(b);
    assert(rest.len() == b.len() - l);
    if i < l {
        if i > 0 {
            assert(is_continuation_byte(b[i]));
        }
        if rest.len() > 0 {
            lemma_first_scalar_shape(rest);
            assert(rest[0] == b[l]);
        }
    } else {
        assert(rest[i - l] == b[i]);
        lemma_next_boundary(rest, i - l);
        let w = lead_width(b[i]);
        if i - l + w < rest.len() {
            assert(rest[i - l + w] == b[i + w]);
        }
    }
}

/// A slice of valid UTF-8 between two non-continuation positions is valid.
pub proof fn lemma_sub_valid(b: Seq<u8>, a: int, c: int)
    requires
        valid_utf8(b),
        0 <= a <= c <= b.len(),
        nc_or_end(b, a),
        nc_or_end(b, c),
    ensures
        valid_utf8(b.subrange(a, c)),
{
    lemma_boundary(b, a);
    lemma_boundary(b, c);
    valid_utf8_split(b, c);
    let head = b.subrange(0, c);
    if a == c {
        assert(b.subrange(a, c) =~= Seq::<u8>::empty());
    } else {
        assert(head[a] == b[a]);
        lemma_boundary(head, a);
        valid_utf8_split(head, a);
        assert(head.subrange(a, c) =~= b.subrange(a, c));
    }
}

/// Skipping whitespace characters from a character start ends on one.
pub proof fn lemma_skip_ws_nc(b: Seq<u8>, i: int)
    requires
        valid_utf8(b),
        0 <= i <= b.len(),
        nc_or_end(b, i),
    ensures
        i <= skip_ws(b, i) <= b.len(),
        nc_or_end(b, skip_ws(b, i)),
    decreases b.len() - i,
{
    if i < b.len() && ws_len(b, i) > 0 {
        lemma_next_boundary(b, i);
        assert(lead_width(b[i]) == ws_len(b, i));
        lemma_skip_ws_nc(b, i + ws_len(b, i));
    }
}

/// A token ends at the end of `b` or where a whitespace character starts.
pub proof fn lemma_token_end_nc(b: Seq<u8>, i: int)
    requires
        0 <= i <= b.len(),
    ensures
        i <= token_end(b, i) <= b.len(),
        token_end(b, i) == b.len() || ws_len(b, token_end(b, i)) > 0,
        nc_or_end(b, token_end(b, i)),
        forall|j: int| i <= j < token_end(b, i) ==> ws_len(b, j) == 0,
    decreases b.len() - i,
{
    if i < b.len() && ws_len(b, i) == 0 {
        lemma_token_end_nc(b, i + 1);
    }
}

/// Trailing-whitespace removal from a character start ends on one.
pub proof fn lemma_rskip_nc(b: Seq<u8>, lo: int, hi: int)
    requires
        0 <= lo <= hi <= b.len(),
        nc_or_end(b, hi),
    ensures
        lo <= rskip_ws(b, lo, hi) <= hi,
        nc_or_end(b, rskip_ws(b, lo, hi)),
    decreases hi - lo,
{
    if hi > lo && ws_len_before(b, lo, hi) > 0 {
        let k = ws_len_before(b, lo, hi);
        assert(ws_len(b, hi - k) == k);
        lemma_rskip_nc(b, lo, hi - k);
    }
}

/// The byte after an ASCII byte of valid UTF-8 starts a character.
pub proof fn lemma_after_ascii(b: Seq<u8>, i: int)
    requires
        valid_utf8(b),
        0 <= i < b.len(),
        b[i] < 0x80,
    ensures
        nc_or_end(b, i + 1),
{
    lemma_next_boundary(b, i);
}

/// Trimming valid UTF-8 leaves valid UTF-8.
pub proof fn lemma_trim_valid(b: Seq<u8>)
    requires
        valid_utf8(b),
    ensures
        valid_utf8(trim(b)),
        valid_utf8(trim_end(b)),
{
    lemma_skip_ws_nc(b, 0);
    let s = skip_ws(b, 0);
    lemma_rskip_nc(b, s, b.len() as int);
    lemma_sub_valid(b, s, rskip_ws(b, s, b.len() as int));
    lemma_rskip_nc(b, 0, b.len() as int);
    lemma_sub_valid(b, 0, rskip_ws(b, 0, b.len() as int));
}

/// Byte-wise equality of two slices.
pub fn bytes_eq(a: &[u8], b: &[u8]) -> (r: bool)
    ensures
        r == (a@ == b@),
{
    if a.len() != b.len() {
        return false;
    }
    let mut i: usize = 0;
    while i < a.len()
        invariant
            a@.len() == b@.len(),
            i <= a@.len(),
            forall|j: int| 0 <= j < i ==> a@[j] == b@[j],
        decreases a@.len() - i,
    {
        if a[i] != b[i] {
            return false;
        }
        i = i + 1;
    }
    proof {
        assert(a@ =~= b@);
    }
    true
}

/// `std::str::from_utf8`: the bytes as a string slice when they are valid
/// UTF-8. The contract states what the documentation promises: success
/// exactly on valid UTF-8, and then the same bytes.
#[verifier::external_body]
pub(crate) fn utf8_str(bytes: &[u8]) -> (r: Option<&str>)
    ensures
        r is Some <==> valid_utf8(bytes@),
        r matches Some(s) ==> s.spec_bytes() == bytes@,
{
    std::str::from_utf8(bytes).ok()
}

/// The first position at or after `i` holding byte `x`, if any.
pub open spec fn find_from(b: Seq<u8>, x: u8, i: int) -> Option<int>
    decreases b.len() - i,
{
    if i < 0 || i >= b.len() {
        None
    } else if b[i] == x {
        Some(i)
    } else {
        find_from(b, x, i + 1)
    }
}

/// The first position holding byte `x`, if any (`str::find` of an ASCII
/// character).
pub open spec fn find_first(b: Seq<u8>, x: u8) -> Option<int> {
    find_from(b, x, 0)
}

pub proof fn lemma_find_from(b: Seq<u8>, x: u8, i: int)
    requires
        0 <= i,
    ensures
        find_from(b, x, i) matches Some(k) ==> i <= k < b.len() && b[k] == x,
    decreases b.len() - i,
{
    if 0 <= i < b.len() && b[i] != x {
        lemma_find_from(b, x, i + 1);
    }
}

/// Exec form of [`find_first`].
pub fn find_byte(b: &[u8], x: u8) -> (r: Option<usize>)
    ensures
        r matches Some(k) ==> find_first(b@, x) == Some(k as int) && k < b@.len() && b@[k as int]
            == x,
        r is None ==> find_first(b@, x) is None,
{
    let mut i: usize = 0;
    while i < b.len()
        invariant
            i <= b@.len(),
            find_first(b@, x) == find_from(b@, x, i as int),
        decreases b@.len() - i,
    {
        if b[i] == x {
            return Some(i);
        }
        i = i + 1;
    }
    None
}

/// The string slice over valid UTF-8 bytes.
pub fn str_of(bytes: &[u8]) -> (r: &str)
    requires
        valid_utf8(bytes@),
    ensures
        r.spec_bytes() == bytes@,
        r@ == decode_utf8(bytes@),
{
    let r = utf8_str(bytes);
    match r {
        Some(s) => {
            proof {
                encode_utf8_decode_utf8(s@);
            }
            s
        },
        None => {
            proof {
                assert(false);
            }
            ""
        },
    }
}

/// The concatenation of three strings.
pub fn concat3(a: &str, b: &str, c: &str) -> (r: String)
    ensures
        r@ == a@ + b@ + c@,
{
    let mut r = String::from_str(a);
    r.append(b);
    r.append(c);
    r
}

/// `Path::join` of a relative component on Unix: a `/` goes between the
/// two unless the base is empty or already ends with one.
pub open spec fn path_join(base: Seq<char>, rel: Seq<char>) -> Seq<char> {
    if base.len() == 0 || base.last() == '/' {
        base + rel
    } else {
        base + seq!['/'] + rel
    }
}

/// `Path::join` of a relative component ([`path_join`]).
pub fn join_path(base: &str, rel: &str) -> (r: String)
    ensures
        r@ == path_join(base@, rel@),
{
    let n = base.unicode_len();
    let mut r = to_owned_string(base);
    if n == 0 || base.get_char(n - 1) == '/' {
        r.append(rel);
    } else {
        proof {
            reveal_strlit("/");
            assert("/"@ =~= seq!['/']);
        }
        r.append("/");
        r.append(rel);
        assert(r@ =~= base@ + seq!['/'] + rel@);
    }
    r
}

/// The view of an optional string slice.
pub open spec fn view_opt(v: Option<&str>) -> Option<Seq<char>> {
    match v {
        Some(s) => Some(s@),
        None => None,
    }
}

/// An owned copy of `s`.
pub fn to_owned_string(s: &str) -> (r: String)
    ensures
        r@ == s@,
{
    s.to_owned()
}

/// The decimal digit character for `d < 10`.
pub open spec fn digit_char(d: nat) -> char {
    if d == 0 {
        '0'
    } else if d == 1 {
        '1'
    } else if d == 2 {
        '2'
    } else if d == 3 {
        '3'
    } else if d == 4 {
        '4'
    } else if d == 5 {
        '5'
    } else if d == 6 {
        '6'
    } else if d == 7 {
        '7'
    } else if d == 8 {
        '8'
    } else {
        '9'
    }
}

/// The decimal text of `n` without leading zeros, as characters.
pub open spec fn decimal_chars(n: nat) -> Seq<char>
    decreases n,
{
    if n < 10 {
        seq![digit_char(n)]
    } else {
        decimal_chars(n / 10) + seq![digit_char(n % 10)]
    }
}

/// The decimal text of an integer: a minus sign before negative numbers.
pub open spec fn int_chars(v: int) -> Seq<char> {
    if v < 0 {
        seq!['-'] + decimal_chars((-v) as nat)
    } else {
        decimal_chars(v as nat)
    }
}

fn digit_str(d: u64) -> (r: &'static str)
    requires
        d < 10,
    ensures
        r@ == seq![digit_char(d as nat)],
{
    match d {
        0 => {
            proof {
                reveal_strlit("0");
            }
            "0"
        },
        1 => {
            proof {
                reveal_strlit("1");
            }
            "1"
        },
        2 => {
            proof {
                reveal_strlit("2");
            }
            "2"
        },
        3 => {
            proof {
                reveal_strlit("3");
            }
            "3"
        },
        4 => {
            proof {
                reveal_strlit("4");
            }
            "4"
        },
        5 => {
            proof {
                reveal_strlit("5");
            }
            "5"
        },
        6 => {
            proof {
                reveal_strlit("6");
            }
            "6"
        },
        7 => {
            proof {
                reveal_strlit("7");
            }
            "7"
        },
        8 => {
            proof {
                reveal_strlit("8");
            }
            "8"
        },
        _ => {
            proof {
                reveal_strlit("9");
            }
            "9"
        },
    }
}

/// Appends the decimal text of `n` to `s`.
pub fn append_decimal(s: &mut String, n: u64)
    ensures
        final(s)@ == old(s)@ + decimal_chars(n as nat),
    decreases n,
{
    if n >= 10 {
        append_decimal(s, n / 10);
    }
    s.append(digit_str(n % 10));
    proof {
        if n >= 10 {
            assert(final(s)@ =~= old(s)@ + decimal_chars(n as nat));
        }
    }
}

/// Appends the decimal text of `v` to `s`.
pub fn append_int(s: &mut String, v: i32)
    ensures
        final(s)@ == old(s)@ + int_chars(v as int),
{
    if v < 0 {
        proof {
            reveal_strlit("-");
        }
        s.append("-");
        let m: i64 = v as i64;
        append_decimal(s, (-m) as u64);
        assert(final(s)@ =~= old(s)@ + int_chars(v as int));
    } else {
        append_decimal(s, v as u64);
    }
}

} // verus!
