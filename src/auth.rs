//! The session token: a digest of the password salted with the current year
//! and quarter, so that sessions lapse every quarter.

use crate::duration_serde_dotnet::{append_zero_padded, decimal_digits, zero_padded};
use sha2::Digest;
use vstd::prelude::*;
use vstd::string::StringExecFns;

verus! {

/// The lowercase hexadecimal SHA-256 digest of the UTF-8 encoding of `s`.
pub uninterp spec fn sha256_hex(s: Seq<char>) -> Seq<char>;

/// Relies on `sha2::Sha256::digest`, written as lowercase hexadecimal: the
/// digest depends on the text alone and has 64 hexadecimal digits.
#[verifier::external_body]
fn sha256_hex_digest(text: &str) -> (r: String)
    ensures
        r@ == sha256_hex(text@),
        r@.len() == 64,
{
    format!("{:x}", sha2::Sha256::digest(text.as_bytes()))
}

/// Relies on `jiff::Zoned::now` in the system time zone: the current year and
/// month, each in its calendar range.
#[verifier::external_body]
fn current_year_month() -> (r: (i16, i8))
    ensures
        -9999 <= r.0 <= 9999,
        1 <= r.1 <= 12,
{
    let now = jiff::Zoned::now();
    (now.year(), now.month())
}

/// The decimal text of an integer, with a leading `-` when it is negative.
pub open spec fn int_text(n: int) -> Seq<char> {
    if n < 0 {
        seq!['-'] + decimal_digits((-n) as nat)
    } else {
        decimal_digits(n as nat)
    }
}

/// The label of the quarter that `month / 4` counts (months one to three give
/// the first, month twelve the fourth).
pub open spec fn quarter_label(q: int) -> Seq<char> {
    if q == 0 {
        "Q1"@
    } else if q == 1 {
        "Q2"@
    } else if q == 2 {
        "Q3"@
    } else if q == 3 {
        "Q4"@
    } else {
        "Error"@
    }
}

/// `n / 4`, rounded toward zero.
pub open spec fn quarter_of(n: int) -> int {
    if n >= 0 {
        n / 4
    } else {
        -((-n) / 4)
    }
}

/// The salt of year `year` and month `month`, such as `2024-Q1`.
pub open spec fn salt_text(year: int, month: int) -> Seq<char> {
    int_text(year) + seq!['-'] + quarter_label(quarter_of(month))
}

/// The salt of year `year` and month `month`.
pub fn rotating_salt(year: i16, month: i8) -> (r: String)
    ensures
        r@ == salt_text(year as int, month as int),
{
    let mut out = String::new();
    proof {
        reveal_strlit("-");
    }
    if year < 0 {
        out.append("-");
        append_zero_padded(&mut out, (0 - year as i32) as u64, 0);
    } else {
        append_zero_padded(&mut out, year as u64, 0);
    }
    out.append("-");
    let q = month / 4;
    let label = if q == 0 {
        "Q1"
    } else if q == 1 {
        "Q2"
    } else if q == 2 {
        "Q3"
    } else if q == 3 {
        "Q4"
    } else {
        "Error"
    };
    out.append(label);
    proof {
        let y = year as int;
        let d = if y < 0 { decimal_digits((-y) as nat) } else { decimal_digits(y as nat) };
        assert(zero_padded(if y < 0 { (-y) as nat } else { y as nat }, 0) == d);
        assert(q as int == quarter_of(month as int));
    }
    assert(out@ =~= salt_text(year as int, month as int));
    out
}

/// The digest of `password` followed by `salt`.
pub fn hash_with_salt(password: &str, salt: &str) -> (r: String)
    ensures
        r@ == sha256_hex(password@ + salt@),
{
    let mut text = String::from_str(password);
    text.append(salt);
    sha256_hex_digest(text.as_str())
}

/// The session token for `password` in the current quarter.
pub fn hash_with_rotating_salt(password: &str) -> (r: String)
    ensures
        exists|year: int, month: int|
            -9999 <= year <= 9999 && 1 <= month <= 12 && r@ == sha256_hex(password@ + salt_text(year, month)),
{
    let (year, month) = current_year_month();
    let salt = rotating_salt(year, month);
    hash_with_salt(password, salt.as_str())
}

} // verus!
