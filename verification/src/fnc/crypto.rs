//! Cryptographic digests of string values.
//!
//! The digests themselves are computed by outside code; each is named by
//! an unreadable function of the input alone, and the functions here are
//! verified to hand that digest back over the textual reading of their
//! argument.

use vstd::prelude::*;
use md5::Digest;
use crate::ctx::Context;
use crate::err::Error;
use crate::sql::fmt::spec_val_text;
use crate::sql::value::Value;

verus! {

/// The lower-case hexadecimal MD5 digest of a string.
pub uninterp spec fn md5_hex_of(s: Seq<char>) -> Seq<char>;

/// The lower-case hexadecimal SHA-1 digest of a string.
pub uninterp spec fn sha1_hex_of(s: Seq<char>) -> Seq<char>;

/// The lower-case hexadecimal SHA-256 digest of a string.
pub uninterp spec fn sha256_hex_of(s: Seq<char>) -> Seq<char>;

/// The lower-case hexadecimal SHA-512 digest of a string.
pub uninterp spec fn sha512_hex_of(s: Seq<char>) -> Seq<char>;

/// Relies on `md5::Md5` through the digest interface: a 16-byte digest, a
/// function of the input alone, printed as 32 hexadecimal characters.
#[verifier::external_body]
fn md5_hex(s: &str) -> (r: String)
    ensures
        r@ == md5_hex_of(s@),
        r@.len() == 32,
{
    let mut hasher = md5::Md5::new();
    hasher.update(s.as_bytes());
    let mut out = String::new();
    for b in hasher.finalize() {
        out.push_str(&format!("{:02x}", b));
    }
    out
}

/// Relies on `sha1::Sha1` through the digest interface: a 20-byte digest,
/// a function of the input alone, printed as 40 hexadecimal characters.
#[verifier::external_body]
fn sha1_hex(s: &str) -> (r: String)
    ensures
        r@ == sha1_hex_of(s@),
        r@.len() == 40,
{
    let mut hasher = sha1::Sha1::new();
    hasher.update(s.as_bytes());
    let mut out = String::new();
    for b in hasher.finalize() {
        out.push_str(&format!("{:02x}", b));
    }
    out
}

/// Relies on `sha2::Sha256` through the digest interface: a 32-byte
/// digest, a function of the input alone, printed as 64 hexadecimal
/// characters.
#[verifier::external_body]
fn sha256_hex(s: &str) -> (r: String)
    ensures
        r@ == sha256_hex_of(s@),
        r@.len() == 64,
{
    let mut hasher = sha2::Sha256::new();
    hasher.update(s.as_bytes());
    let mut out = String::new();
    for b in hasher.finalize() {
        out.push_str(&format!("{:02x}", b));
    }
    out
}

/// Relies on `sha2::Sha512` through the digest interface: a 64-byte
/// digest, a function of the input alone, printed as 128 hexadecimal
/// characters.
#[verifier::external_body]
fn sha512_hex(s: &str) -> (r: String)
    ensures
        r@ == sha512_hex_of(s@),
        r@.len() == 128,
{
    let mut hasher = sha2::Sha512::new();
    hasher.update(s.as_bytes());
    let mut out = String::new();
    for b in hasher.finalize() {
        out.push_str(&format!("{:02x}", b));
    }
    out
}

/// The textual reading a digest is taken over: a string's own content,
/// any other value's text form.
pub open spec fn spec_digest_input(v: Value) -> Seq<char> {
    match v {
        Value::Strand(s) => s@,
        _ => spec_val_text(v),
    }
}

/// The MD5 digest of the argument's textual reading.
pub fn md5(_ctx: &Context, mut args: Vec<Value>) -> (r: Result<Value, Error>)
    requires
        args@.len() >= 1,
    ensures
        r is Ok,
        r->Ok_0 is Strand,
        r->Ok_0->Strand_0@ == md5_hex_of(spec_digest_input(args@[0])),
{
    let v = args.remove(0);
    let s = v.as_string();
    Ok(Value::Strand(md5_hex(s.as_str())))
}

/// The SHA-1 digest of the argument's textual reading.
pub fn sha1(_ctx: &Context, mut args: Vec<Value>) -> (r: Result<Value, Error>)
    requires
        args@.len() >= 1,
    ensures
        r is Ok,
        r->Ok_0 is Strand,
        r->Ok_0->Strand_0@ == sha1_hex_of(spec_digest_input(args@[0])),
{
    let v = args.remove(0);
    let s = v.as_string();
    Ok(Value::Strand(sha1_hex(s.as_str())))
}

/// The SHA-256 digest of the argument's textual reading.
pub fn sha256(_ctx: &Context, mut args: Vec<Value>) -> (r: Result<Value, Error>)
    requires
        args@.len() >= 1,
    ensures
        r is Ok,
        r->Ok_0 is Strand,
        r->Ok_0->Strand_0@ == sha256_hex_of(spec_digest_input(args@[0])),
{
    let v = args.remove(0);
    let s = v.as_string();
    Ok(Value::Strand(sha256_hex(s.as_str())))
}

/// The SHA-512 digest of the argument's textual reading.
pub fn sha512(_ctx: &Context, mut args: Vec<Value>) -> (r: Result<Value, Error>)
    requires
        args@.len() >= 1,
    ensures
        r is Ok,
        r->Ok_0 is Strand,
        r->Ok_0->Strand_0@ == sha512_hex_of(spec_digest_input(args@[0])),
{
    let v = args.remove(0);
    let s = v.as_string();
    Ok(Value::Strand(sha512_hex(s.as_str())))
}

} // verus!
