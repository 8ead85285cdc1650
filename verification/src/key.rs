//! The key generator: it makes the secret that authorises calls to the API.

use rand::Rng;
use vstd::prelude::*;
use vstd::string::StringSliceAdditionalSpecFns;
use vstd::utf8::is_ascii_chars_encode_utf8;

verus! {

/// The base-10 digits of `n` as ASCII bytes, most significant first, with
/// no leading zero (one `0` for zero).
pub open spec fn decimal_digits(n: nat) -> Seq<u8>
    decreases n,
{
    if n < 10 {
        seq![(48 + n) as u8]
    } else {
        decimal_digits(n / 10).push((48 + n % 10) as u8)
    }
}

/// Ten to the power `k`.
pub open spec fn pow10(k: nat) -> nat
    decreases k,
{
    if k == 0 {
        1
    } else {
        10 * pow10((k - 1) as nat)
    }
}

/// The standard base64 text, with padding, of the bytes `input`, as the
/// base64 crate's `encode` writes it.
pub uninterp spec fn base64_text(input: Seq<u8>) -> Seq<char>;

/// The length of the padded base64 text of `n` bytes: four characters for
/// every three bytes or part of three.
pub open spec fn base64_len(n: nat) -> nat {
    4 * ((n + 2) / 3)
}

/// The key that is made of the number `n`: the base64 text of its decimal
/// digits.
pub open spec fn key_text(n: nat) -> Seq<char> {
    base64_text(decimal_digits(n))
}

/// Whether `key` is a key that the generator can give: the key of some
/// 64-bit number.
pub open spec fn is_generated_key(key: Seq<char>) -> bool {
    exists|n: u64| key == key_text(n as nat)
}

/// The bytes that the test key is the base64 text of.
pub open spec fn test_secret() -> Seq<u8> {
    "test_key".spec_bytes()
}

/// The bytes of the test secret, one by one.
pub proof fn lemma_test_secret()
    ensures
        test_secret() == seq![116u8, 101u8, 115u8, 116u8, 95u8, 107u8, 101u8, 121u8],
{
    reveal_strlit("test_key");
    is_ascii_chars_encode_utf8("test_key"@);
    assert(test_secret() =~= seq![116u8, 101u8, 115u8, 116u8, 95u8, 107u8, 101u8, 121u8]);
}

/// A number below ten to the power `k` has at most `k` digits, and every
/// number has at least one.
pub proof fn lemma_digit_count(n: nat, k: nat)
    requires
        k >= 1,
        n < pow10(k),
    ensures
        1 <= decimal_digits(n).len() <= k,
    decreases k,
{
    reveal_with_fuel(pow10, 2);
    if n >= 10 {
        if k == 1 {
            assert(pow10(1) == 10);
        } else {
            lemma_digit_count(n / 10, (k - 1) as nat);
        }
    }
}

/// A 64-bit number has between one and twenty digits.
pub proof fn lemma_digits_of_u64(n: u64)
    ensures
        1 <= decimal_digits(n as nat).len() <= 20,
{
    assert(pow10(20) == 100_000_000_000_000_000_000nat) by {
        reveal_with_fuel(pow10, 21);
    }
    lemma_digit_count(n as nat, 20);
}

/// Calls `base64::encode`, which writes the standard base64 text of the
/// input, with padding, into a new string. The text is a function of the
/// bytes alone and has four characters for every three bytes or part of
/// three. The call panics where that length does not fit a `usize`, which
/// the precondition leaves out.
#[verifier::external_body]
fn base64_encode(input: &[u8]) -> (text: String)
    requires
        base64_len(input@.len()) <= usize::MAX,
    ensures
        text@ == base64_text(input@),
        text@.len() == base64_len(input@.len()),
{
    base64::encode(input)
}

/// Calls `rand::thread_rng().gen::<u64>()`, which draws a number from the
/// thread's random generator. Nothing is known of the number but its type.
/// The first call on a thread seeds the generator from the system, and
/// panics where the system gives no seed.
#[verifier::external_body]
fn random_number() -> (n: u64) {
    rand::thread_rng().gen::<u64>()
}

/// Appends the decimal digits of `n` to `out`.
fn push_decimal(n: u64, out: &mut Vec<u8>)
    ensures
        final(out)@ == old(out)@ + decimal_digits(n as nat),
    decreases n,
{
    if n >= 10 {
        push_decimal(n / 10, out);
    }
    let digit: u8 = (n % 10) as u8;
    out.push(48 + digit);
}

/// The decimal digits of `n`, as ASCII bytes.
pub fn decimal(n: u64) -> (digits: Vec<u8>)
    ensures
        digits@ == decimal_digits(n as nat),
{
    let mut digits: Vec<u8> = Vec::new();
    push_decimal(n, &mut digits);
    digits
}

/// The key that is made of the number `n`.
pub fn key_from_number(n: u64) -> (key: String)
    ensures
        key@ == key_text(n as nat),
        key@.len() == base64_len(decimal_digits(n as nat).len()),
        4 <= key@.len() <= 28,
{
    let digits = decimal(n);
    proof {
        lemma_digits_of_u64(n);
    }
    base64_encode(digits.as_slice())
}

/// A fresh key, made of a random 64-bit number.
pub fn generate_key() -> (key: String)
    ensures
        is_generated_key(key@),
        4 <= key@.len() <= 28,
{
    let n = random_number();
    key_from_number(n)
}

/// The fixed key of test instances: the base64 text of `test_key`.
pub fn test_key() -> (key: String)
    ensures
        key@ == base64_text(test_secret()),
        key@.len() == 12,
{
    let secret = "test_key";
    proof {
        reveal_strlit("test_key");
        is_ascii_chars_encode_utf8(secret@);
    }
    base64_encode(secret.as_bytes())
}

} // verus!
