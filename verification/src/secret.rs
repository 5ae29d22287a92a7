//! Secret buffer rules: the error type, the checks an append makes before
//! it touches protected memory, where deleting the last character cuts the
//! content, and the bounded retry of page-locking calls.
use vstd::prelude::*;
use vstd::string::StrSliceExecFns;
use vstd::string::StringSliceAdditionalSpecFns;
use vstd::utf8::*;

use crate::text::{append_int, int_chars, utf8_str};

verus! {

broadcast use vstd::utf8::group_utf8_lib;

/// Error returned by secret buffer operations.
#[derive(Debug, Clone, Copy, PartialEq, Eq, Structural)]
pub enum SecretError {
    /// `mlock(2)` failed too often (>= 10 attempts, mostly `EAGAIN`).
    MlockFailedTooOften,
    /// `madvise(2)` returned an unexpected errno or failed all 10 attempts.
    MadviseFailedTooOften,
    /// `mmap(2)` failed.
    MmapFailed(i32),
    /// `setrlimit(RLIMIT_CORE, 0)` failed.
    SetRlimitCoreFailed(i32),
    /// `munmap(2)` failed during reset.
    MunmapFailed(i32),
    /// An append exceeded the single-page capacity.
    Overflow,
    /// An append was given invalid UTF-8.
    InvalidUtf8,
    /// Buffer pointer became null unexpectedly.
    NullBuffer,
}

/// The human-readable description of a secret buffer error.
pub open spec fn secret_error_text(e: SecretError) -> Seq<char> {
    match e {
        SecretError::MlockFailedTooOften => "mlock failed too often (>= 10 attempts)"@,
        SecretError::MadviseFailedTooOften => "madvise failed too often (>= 10 attempts)"@,
        SecretError::MmapFailed(x) => "mmap failed with errno "@ + int_chars(x as int),
        SecretError::SetRlimitCoreFailed(x) => "setrlimit(RLIMIT_CORE, 0) failed with errno "@
            + int_chars(x as int),
        SecretError::MunmapFailed(x) => "munmap failed with errno "@ + int_chars(x as int),
        SecretError::Overflow => "secret buffer overflow"@,
        SecretError::InvalidUtf8 => "invalid UTF-8 in append_slice"@,
        SecretError::NullBuffer => "secret buffer pointer is null"@,
    }
}

impl SecretError {
    /// The human-readable description of the error.
    pub fn message(&self) -> (m: String)
        ensures
            m@ == secret_error_text(*self),
    {
        match self {
            SecretError::MlockFailedTooOften => String::from_str(
                "mlock failed too often (>= 10 attempts)",
            ),
            SecretError::MadviseFailedTooOften => String::from_str(
                "madvise failed too often (>= 10 attempts)",
            ),
            SecretError::MmapFailed(x) => {
                let mut m = String::from_str("mmap failed with errno ");
                append_int(&mut m, *x);
                m
            },
            SecretError::SetRlimitCoreFailed(x) => {
                let mut m = String::from_str("setrlimit(RLIMIT_CORE, 0) failed with errno ");
                append_int(&mut m, *x);
                m
            },
            SecretError::MunmapFailed(x) => {
                let mut m = String::from_str("munmap failed with errno ");
                append_int(&mut m, *x);
                m
            },
            SecretError::Overflow => String::from_str("secret buffer overflow"),
            SecretError::InvalidUtf8 => String::from_str("invalid UTF-8 in append_slice"),
            SecretError::NullBuffer => String::from_str("secret buffer pointer is null"),
        }
    }
}

/// The plan of an append of `bytes` to a buffer holding `byte_len` of its
/// `capacity` bytes: invalid UTF-8 is refused first, then an append past
/// the capacity; otherwise the new byte length and the number of code
/// points appended.
pub open spec fn append_plan(byte_len: nat, capacity: nat, bytes: Seq<u8>) -> Result<
    (nat, nat),
    SecretError,
> {
    if !valid_utf8(bytes) {
        Err(SecretError::InvalidUtf8)
    } else if byte_len + bytes.len() > capacity {
        Err(SecretError::Overflow)
    } else {
        Ok(((byte_len + bytes.len()) as nat, decode_utf8(bytes).len()))
    }
}

/// Decides an append of `bytes` to a buffer holding `byte_len` of its
/// `capacity` bytes, before anything is written ([`append_plan`]).
pub fn plan_append(byte_len: usize, capacity: usize, bytes: &[u8]) -> (r: Result<
    (usize, usize),
    SecretError,
>)
    ensures
        match append_plan(byte_len as nat, capacity as nat, bytes@) {
            Ok((n, k)) => r == Ok::<(usize, usize), SecretError>((n as usize, k as usize)),
            Err(e) => r == Err::<(usize, usize), SecretError>(e),
        },
{
    let s = match utf8_str(bytes) {
        Some(s) => s,
        None => {
            return Err(SecretError::InvalidUtf8);
        },
    };
    proof {
        encode_utf8_decode_utf8(s@);
    }
    let codepoints = s.unicode_len();
    let new_len = match byte_len.checked_add(bytes.len()) {
        Some(n) => n,
        None => {
            return Err(SecretError::Overflow);
        },
    };
    if new_len > capacity {
        return Err(SecretError::Overflow);
    }
    Ok((new_len, codepoints))
}

/// A valid UTF-8 sequence whose bytes after the first are all continuation
/// bytes holds exactly one character.
proof fn lemma_single_scalar(t: Seq<u8>)
    requires
        valid_utf8(t),
        t.len() > 0,
        forall|j: int| 1 <= j < t.len() ==> is_continuation_byte(#[trigger] t[j]),
    ensures
        decode_utf8(t).len() == 1,
{
    let rest = pop_first_scalar(t);
    let l = length_of_first_scalar(t);
    assert(1 <= l <= t.len());
    if rest.len() > 0 {
        assert(rest[0] == t[l]);
        assert(valid_utf8(rest));
        assert(valid_first_scalar(rest));
        assert(!is_continuation_byte(rest[0]));
        assert(false);
    }
    assert(decode_utf8(rest) =~= Seq::<char>::empty());
}

/// Walking back from position `i` over continuation bytes: the first
/// position at or before `i` that is 0 or holds no continuation byte.
pub open spec fn walk_back(b: Seq<u8>, i: int) -> int
    decreases i,
{
    if i > 0 && is_continuation_byte(b[i]) {
        walk_back(b, i - 1)
    } else {
        i
    }
}

/// The byte length the content is cut to when its last character is
/// deleted: the start of the last character, found by walking back over
/// continuation bytes (0 for a content of continuation bytes only).
pub fn last_char_start(content: &[u8]) -> (i: usize)
    requires
        content@.len() > 0,
    ensures
        i == walk_back(content@, content@.len() - 1),
        i < content@.len(),
        i == 0 || !is_continuation_byte(content@[i as int]),
        forall|j: int| i < j < content@.len() ==> is_continuation_byte(#[trigger] content@[j]),
        valid_utf8(content@) ==> valid_utf8(content@.subrange(0, i as int)) && decode_utf8(
            content@.subrange(0, i as int),
        ) == decode_utf8(content@).drop_last(),
{
    let n = content.len();
    let mut i: usize = n - 1;
    while i > 0 && (content[i] & 0xc0) == 0x80
        invariant
            0 <= i < n == content@.len(),
            walk_back(content@, n - 1) == walk_back(content@, i as int),
            forall|j: int| i < j < n ==> is_continuation_byte(#[trigger] content@[j]),
        decreases i,
    {
        let byte = content[i];
        assert((byte & 0xc0u8) == 0x80u8 ==> 0x80u8 <= byte && byte <= 0xbfu8) by (bit_vector);
        i = i - 1;
    }
    let last = content[i];
    assert((last & 0xc0u8) != 0x80u8 ==> !(0x80u8 <= last && last <= 0xbfu8)) by (bit_vector);
    proof {
        let b = content@;
        if valid_utf8(b) {
            if i == 0 {
                is_char_boundary_start_end_of_seq(b);
            } else {
                is_char_boundary_iff_not_is_continuation_byte(b, i as int);
            }
            valid_utf8_split(b, i as int);
            decode_utf8_split(b, i as int);
            let tail = b.subrange(i as int, n as int);
            assert forall|j: int| 1 <= j < tail.len() implies is_continuation_byte(#[trigger] tail[j]) by {
                assert(tail[j] == b[i + j]);
            }
            lemma_single_scalar(tail);
            assert(decode_utf8(b.subrange(0, i as int)) =~= decode_utf8(b).drop_last());
        }
    }
    i
}

/// The content and code point count of a secret buffer after its last
/// character is deleted: the content is cut at the start of its last
/// character and the count drops by one (not below zero); an empty buffer
/// stays as it is.
pub open spec fn spec_delete(content: Seq<u8>, count: nat) -> (Seq<u8>, nat) {
    if content.len() == 0 {
        (content, count)
    } else {
        (
            content.subrange(0, walk_back(content, content.len() - 1)),
            if count > 0 {
                (count - 1) as nat
            } else {
                0
            },
        )
    }
}

/// Decides the deletion of the last character of a buffer holding
/// `content` and `count` code points ([`spec_delete`]): the new byte length
/// and the new count.
pub fn plan_delete(content: &[u8], count: usize) -> (r: (usize, usize))
    ensures
        r.0 <= content@.len(),
        content@.subrange(0, r.0 as int) == spec_delete(content@, count as nat).0,
        r.1 as nat == spec_delete(content@, count as nat).1,
{
    if content.len() == 0 {
        proof {
            assert(content@.subrange(0, 0) =~= content@);
        }
        return (0, count);
    }
    let start = last_char_start(content);
    let new_count = if count > 0 {
        count - 1
    } else {
        0
    };
    (start, new_count)
}

/// The number of failed attempts after which a page-locking call is given
/// up.
pub const RETRY_ATTEMPTS: usize = 10;

/// Decides what follows a failed `mlock` or `MADV_DONTDUMP` call after
/// `attempts` earlier transient failures: a transient failure (`EAGAIN`) is
/// retried, with the new failure count, while that count stays below
/// [`RETRY_ATTEMPTS`]; any other failure, or the last allowed one, gives up.
pub fn retry_after_failure(attempts: usize, transient: bool) -> (r: Option<usize>)
    requires
        attempts < RETRY_ATTEMPTS,
    ensures
        r == (if transient && attempts + 1 < RETRY_ATTEMPTS {
            Some((attempts + 1) as usize)
        } else {
            None::<usize>
        }),
{
    if transient {
        let next = attempts + 1;
        if next >= RETRY_ATTEMPTS {
            None
        } else {
            Some(next)
        }
    } else {
        None
    }
}

proof fn lemma_walk_back_tail(b: Seq<u8>, start: int, i: int)
    requires
        0 <= start <= i < b.len(),
        start == 0 || !is_continuation_byte(b[start]),
        forall|j: int| start < j <= i ==> is_continuation_byte(#[trigger] b[j]),
    ensures
        walk_back(b, i) == start,
    decreases i,
{
    if i > start {
        lemma_walk_back_tail(b, start, i - 1);
    }
}

proof fn lemma_single_char_bytes(e: Seq<u8>)
    requires
        valid_utf8(e),
        decode_utf8(e).len() == 1,
    ensures
        e.len() > 0,
        !is_continuation_byte(e[0]),
        forall|j: int| 1 <= j < e.len() ==> is_continuation_byte(#[trigger] e[j]),
{
    assert(e.len() > 0);
    let rest = pop_first_scalar(e);
    if rest.len() > 0 {
        assert(valid_utf8(rest));
        assert(decode_utf8(rest).len() > 0);
        assert(false);
    }
    assert(length_of_first_scalar(e) == e.len());
}

/// Deleting the last character undoes appending one character: when the
/// encoding `e` of a single character fits after valid content `c` with
/// `n` code points, the append plan grows the buffer by `e` and one code
/// point, and deleting from the grown buffer gives back `c` and `n`.
/// Deleting from an empty buffer changes nothing.
pub proof fn law_delete_undoes_append(c: Seq<u8>, n: nat, e: Seq<u8>, capacity: nat)
    requires
        valid_utf8(c),
        valid_utf8(e),
        decode_utf8(e).len() == 1,
        c.len() + e.len() <= capacity,
    ensures
        append_plan(c.len(), capacity, e) == Ok::<(nat, nat), SecretError>(
            ((c + e).len(), 1nat),
        ),
        spec_delete(c + e, n + 1) == (c, n),
        spec_delete(Seq::<u8>::empty(), n) == (Seq::<u8>::empty(), n),
{
    lemma_single_char_bytes(e);
    let b = c + e;
    assert forall|j: int| c.len() < j <= b.len() - 1 implies is_continuation_byte(#[trigger] b[j]) by {
        assert(b[j] == e[j - c.len()]);
    }
    assert(b[c.len() as int] == e[0]);
    lemma_walk_back_tail(b, c.len() as int, b.len() - 1);
    assert(b.subrange(0, c.len() as int) =~= c);
}

} // verus!
