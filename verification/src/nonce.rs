//! Provenance nonces: the boundary tokens that wrap each tool's output.

use vstd::prelude::*;
use crate::error::DispatchError;
#[allow(unused_imports)]
use crate::text::text_of;

verus! {

/// The error of `getrandom`.
#[verifier::external_type_specification]
#[verifier::external_body]
pub struct ExRandomError(getrandom::Error);

/// Bytes that a nonce is made of.
pub const NONCE_BYTES: usize = 16;

/// The lower-case hexadecimal digit of a value below sixteen.
pub open spec fn hex_char(d: int) -> char {
    if d < 10 {
        (48 + d) as char
    } else {
        (87 + d) as char
    }
}

/// Bytes as lower-case hexadecimal text, two digits each.
pub open spec fn hex_text(bytes: Seq<u8>) -> Seq<char> {
    Seq::new(
        2 * bytes.len(),
        |i: int|
            if i % 2 == 0 {
                hex_char((bytes[i / 2] / 16) as int)
            } else {
                hex_char((bytes[i / 2] % 16) as int)
            },
    )
}

/// Whether a text is a nonce: the hexadecimal text of sixteen bytes.
pub open spec fn is_nonce(s: Seq<char>) -> bool {
    exists|bytes: Seq<u8>| bytes.len() == NONCE_BYTES && s == #[trigger] hex_text(bytes)
}

/// Whether a character is a lower-case hexadecimal digit.
pub open spec fn is_hex(c: char) -> bool {
    ('0' <= c && c <= '9') || ('a' <= c && c <= 'f')
}

/// The character of a hexadecimal digit.
fn hex_digit(d: u8) -> (r: char)
    requires
        d < 16,
    ensures
        r == hex_char(d as int),
{
    if d < 10 {
        (48 + d) as char
    } else {
        (87 + d) as char
    }
}

/// Sixteen bytes as a nonce of 32 hexadecimal digits.
pub fn encode(bytes: &[u8; 16]) -> (r: String)
    ensures
        r@ == hex_text(bytes@),
        is_nonce(r@),
{
    let mut s: String = String::new();
    let mut i: usize = 0;
    while i < 16
        invariant
            i <= 16,
            s@ == hex_text(bytes@).take(2 * i),
        decreases 16 - i,
    {
        s.push(hex_digit(bytes[i] / 16));
        s.push(hex_digit(bytes[i] % 16));
        i = i + 1;
        proof {
            let all = hex_text(bytes@);
            assert((2 * i - 2) / 2 == i - 1 && (2 * i - 1) / 2 == i - 1);
            assert(all.take(2 * i) =~= all.take(2 * (i - 1)).push(all[2 * i - 2]).push(
                all[2 * i - 1],
            ));
        }
    }
    proof {
        assert(hex_text(bytes@).take(32) =~= hex_text(bytes@));
    }
    s
}

/// `getrandom::getrandom` into a fresh array: sixteen bytes of the operating
/// system's random source, or its error. Nothing is known of the bytes.
#[verifier::external_body]
fn random_bytes() -> (r: Result<[u8; 16], getrandom::Error>) {
    let mut bytes = [0u8; 16];
    match getrandom::getrandom(&mut bytes) {
        Ok(()) => Ok(bytes),
        Err(e) => Err(e),
    }
}

/// Whether a draw from the random source can have given these bytes: there is a
/// result of that call that holds them, which making the call establishes.
pub closed spec fn drawn(bytes: Seq<u8>) -> bool {
    exists|r: Result<[u8; 16], getrandom::Error>|
        #[trigger] call_ensures(random_bytes, (), r) && (r matches Ok(given) && given@ == bytes)
}

/// Whether a draw from the random source can have failed: there is a result of
/// that call that is an error, which making the call establishes.
pub closed spec fn draw_failed() -> bool {
    exists|r: Result<[u8; 16], getrandom::Error>|
        #[trigger] call_ensures(random_bytes, (), r) && r is Err
}

/// Whether no nonce could be had that is not the one taken: a draw failed, or it
/// gave the same one again.
pub open spec fn none_fresh(taken: Option<Seq<char>>) -> bool {
    draw_failed() || (taken matches Some(nonce) && drawn_nonce(nonce))
}

/// Whether a text is the nonce of bytes that a draw can have given.
pub open spec fn drawn_nonce(s: Seq<char>) -> bool {
    exists|bytes: Seq<u8>| #[trigger] drawn(bytes) && s == hex_text(bytes)
}

/// Generate a 128-bit provenance nonce (32 hex chars) from the OS CSPRNG.
///
/// This is the boundary token wrapping each tool's output. It must be
/// unpredictable so injected tool output cannot forge a boundary tag. 128 random
/// bits make forgery and collision negligible.
pub fn generate() -> (r: Result<String, DispatchError>)
    ensures
        match r {
            Ok(nonce) => is_nonce(nonce@) && drawn_nonce(nonce@),
            Err(e) => e is EntropyUnavailable && draw_failed(),
        },
{
    let given: Result<[u8; 16], getrandom::Error> = random_bytes();
    assert(call_ensures(random_bytes, (), given));
    match given {
        Ok(bytes) => {
            assert(drawn(bytes@));
            Ok(encode(&bytes))
        },
        Err(_) => {
            assert(draw_failed());
            Err(DispatchError::EntropyUnavailable)
        },
    }
}

/// A drawn nonce, where it is not the one that is taken. A source that gives the
/// same 128 bits again gives no fresh ones.
pub fn other_than(drawn: Result<String, DispatchError>, taken: &Option<String>) -> (r: Result<
    String,
    DispatchError,
>)
    ensures
        match drawn {
            Ok(nonce) => if text_of(*taken) == Some(nonce@) {
                r matches Err(DispatchError::EntropyUnavailable)
            } else {
                r == Ok::<String, DispatchError>(nonce)
            },
            Err(e) => r == Err::<String, DispatchError>(e),
        },
{
    match drawn {
        Ok(nonce) => {
            let again: bool = match taken {
                Some(other) => nonce == *other,
                None => false,
            };
            if again {
                Err(DispatchError::EntropyUnavailable)
            } else {
                Ok(nonce)
            }
        },
        Err(e) => Err(e),
    }
}

/// `count` nonces, each drawn on its own, or the error of the first draw that
/// failed.
pub fn generate_many(count: usize) -> (r: Result<Vec<String>, DispatchError>)
    ensures
        match r {
            Ok(nonces) => nonces@.len() == count && forall|i: int|
                0 <= i < count ==> is_nonce((#[trigger] nonces@[i])@) && drawn_nonce(nonces@[i]@),
            Err(e) => e is EntropyUnavailable && draw_failed(),
        },
        count == 0 ==> r is Ok,
{
    let mut nonces: Vec<String> = Vec::new();
    while nonces.len() < count
        invariant
            nonces@.len() <= count,
            forall|i: int|
                0 <= i < nonces@.len() ==> is_nonce((#[trigger] nonces@[i])@) && drawn_nonce(
                    nonces@[i]@,
                ),
        decreases count - nonces.len(),
    {
        match generate() {
            Ok(nonce) => nonces.push(nonce),
            Err(e) => return Err(e),
        }
    }
    Ok(nonces)
}

/// A nonce is 32 lower-case hexadecimal digits.
pub proof fn nonce_is_32_hex_chars(nonce: Seq<char>)
    requires
        is_nonce(nonce),
    ensures
        nonce.len() == 32,
        forall|i: int| 0 <= i < nonce.len() ==> is_hex(nonce[i]),
{
    let bytes = choose|bytes: Seq<u8>|
        bytes.len() == NONCE_BYTES && nonce == #[trigger] hex_text(bytes);
    assert forall|i: int| 0 <= i < nonce.len() implies is_hex(nonce[i]) by {
        assert(0 <= bytes[i / 2] / 16 < 16);
    }
}

/// Different bytes give different nonces: the text carries all 128 bits.
pub proof fn nonce_carries_every_bit(a: Seq<u8>, b: Seq<u8>)
    requires
        hex_text(a) == hex_text(b),
    ensures
        a == b,
{
    assert(hex_text(a).len() == 2 * a.len());
    assert(hex_text(b).len() == 2 * b.len());
    assert forall|k: int| 0 <= k < a.len() implies a[k] == b[k] by {
        let x = hex_text(a);
        let y = hex_text(b);
        assert(x[2 * k] == y[2 * k] && x[2 * k + 1] == y[2 * k + 1]);
        assert((2 * k) / 2 == k && (2 * k + 1) / 2 == k);
        assert(hex_char((a[k] / 16) as int) == hex_char((b[k] / 16) as int));
        assert(hex_char((a[k] % 16) as int) == hex_char((b[k] % 16) as int));
        assert(a[k] / 16 == b[k] / 16);
        assert(a[k] % 16 == b[k] % 16);
    }
    assert(a =~= b);
}

/// The value of a lower-case hexadecimal digit.
pub open spec fn hex_value(c: char) -> int {
    if c <= '9' {
        c as int - '0' as int
    } else {
        c as int - 'a' as int + 10
    }
}

/// Each byte is written as two digits in its place, the higher one first, whose
/// value it is.
pub proof fn hex_text_has_the_value_of_its_bytes(bytes: Seq<u8>)
    ensures
        hex_text(bytes).len() == 2 * bytes.len(),
        forall|k: int|
            0 <= k < bytes.len() ==> is_hex(hex_text(bytes)[2 * k]) && is_hex(
                hex_text(bytes)[2 * k + 1],
            ) && #[trigger] bytes[k] == 16 * hex_value(hex_text(bytes)[2 * k]) + hex_value(
                hex_text(bytes)[2 * k + 1],
            ),
{
    let text = hex_text(bytes);
    assert forall|k: int| 0 <= k < bytes.len() implies is_hex(text[2 * k]) && is_hex(
        text[2 * k + 1],
    ) && #[trigger] bytes[k] == 16 * hex_value(text[2 * k]) + hex_value(text[2 * k + 1]) by {
        assert((2 * k) / 2 == k && (2 * k + 1) / 2 == k);
        assert((2 * k) % 2 == 0 && (2 * k + 1) % 2 == 1);
        assert(text[2 * k] == hex_char((bytes[k] / 16) as int));
        assert(text[2 * k + 1] == hex_char((bytes[k] % 16) as int));
        assert(0 <= bytes[k] / 16 < 16);
    }
}

/// The nonces are the texts of 32 lower-case hexadecimal digits, all of them.
pub proof fn every_32_hex_chars_are_a_nonce(s: Seq<char>)
    ensures
        is_nonce(s) <==> s.len() == 32 && forall|i: int|
            0 <= i < s.len() ==> ('0' <= #[trigger] s[i] <= '9' || 'a' <= s[i] <= 'f'),
{
    if is_nonce(s) {
        nonce_is_32_hex_chars(s);
        assert forall|i: int| 0 <= i < s.len() implies ('0' <= #[trigger] s[i] <= '9' || 'a'
            <= s[i] <= 'f') by {
            assert(is_hex(s[i]));
        }
    }
    if s.len() == 32 && forall|i: int|
        0 <= i < s.len() ==> ('0' <= #[trigger] s[i] <= '9' || 'a' <= s[i] <= 'f') {
        let bytes = Seq::new(
            16,
            |k: int| (16 * hex_value(s[2 * k]) + hex_value(s[2 * k + 1])) as u8,
        );
        assert forall|i: int| 0 <= i < 32 implies s[i] == #[trigger] hex_text(bytes)[i] by {
            let k = i / 2;
            assert('0' <= s[2 * k] <= '9' || 'a' <= s[2 * k] <= 'f');
            assert('0' <= s[2 * k + 1] <= '9' || 'a' <= s[2 * k + 1] <= 'f');
            let high = hex_value(s[2 * k]);
            let low = hex_value(s[2 * k + 1]);
            assert(0 <= high < 16 && 0 <= low < 16);
            assert(bytes[k] == 16 * high + low);
            assert(bytes[k] / 16 == high && bytes[k] % 16 == low);
        }
        assert(s =~= hex_text(bytes));
    }
}

} // verus!
