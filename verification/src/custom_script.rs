//! `custom_script` modules: the scripts are pinned by their SHA-256 when
//! applied, and a revert refuses a revert script that changed since.

use crate::error::{err_msg_chars, err_view, msg_view, Error, ErrorTag};
use crate::json::{json_object3, json_str, model_index, model_str, JsonModel, JsonValue};
use crate::registry::{hex, hex_text};
use crate::text::{decimal, decimal_chars, push_chars, push_str, str_eq, string_from_chars};
use sha2::Digest;
use vstd::prelude::*;

verus! {

broadcast use vstd::string::group_string_axioms;

/// The SHA-256 digest of `data`.
pub uninterp spec fn sha256(data: Seq<u8>) -> Seq<u8>;

/// `sha2::Sha256::digest`: the 32-byte SHA-256 digest of the data. The
/// contract names the digest and states its length; the hashing is sha2's.
#[verifier::external_body]
fn sha256_digest(data: &[u8]) -> (r: Vec<u8>)
    ensures
        r@ == sha256(data@),
        r@.len() == 32,
{
    sha2::Sha256::digest(data).to_vec()
}

/// A file's contents' SHA-256, as 64 lowercase hex digits.
pub fn sha256_hex(bytes: &[u8]) -> (r: String)
    ensures
        r@ == hex_text(sha256(bytes@)),
        r@.len() == 64,
{
    let d = sha256_digest(bytes);
    hex(d.as_slice())
}

/// The journal inverse of applying a custom script: both scripts' hashes
/// and the revert script's path.
pub fn script_inverse(apply_sha256: &str, revert_sha256: &str, revert_path: &str) -> (r: JsonValue)
    ensures
        r.model() == JsonModel::Object(
            seq![
                ("apply_sha256"@, JsonModel::Str(apply_sha256@)),
                ("revert_path"@, JsonModel::Str(revert_path@)),
                ("revert_sha256"@, JsonModel::Str(revert_sha256@)),
            ],
        ),
{
    json_object3(
        "apply_sha256",
        json_str(apply_sha256),
        "revert_path",
        json_str(revert_path),
        "revert_sha256",
        json_str(revert_sha256),
    )
}

/// What a revert needs from a record's inverse: the revert script's path
/// and its recorded hash, or why they are missing.
pub open spec fn revert_inputs(seq: u64, inv: JsonModel) -> Result<(Seq<char>, Seq<char>), Seq<char>> {
    match model_str(model_index(inv, "revert_path"@)) {
        None => Err(
            "seq "@ + decimal(seq as nat)
                + ": custom_script revert inverse is missing a string revert_path -- refusing to guess which script to run"@,
        ),
        Some(p) => match model_str(model_index(inv, "revert_sha256"@)) {
            None => Err(
                "seq "@ + decimal(seq as nat)
                    + ": custom_script revert inverse is missing a string revert_sha256 -- refusing to run an unverified script"@,
            ),
            Some(h) => Ok((p, h)),
        },
    }
}

fn seq_error(seq: u64, text: &str) -> (e: Error)
    ensures
        err_view(e) == msg_view("seq "@ + decimal(seq as nat) + text@),
{
    let mut out: Vec<char> = Vec::new();
    push_str(&mut out, "seq ");
    let d = decimal_chars(seq);
    push_chars(&mut out, &d);
    push_str(&mut out, text);
    err_msg_chars(&out)
}

/// Reads the revert script's path and recorded hash out of a record's
/// inverse (see [`revert_inputs`]).
pub fn revert_script_inputs(seq: u64, inverse: &JsonValue) -> (r: Result<(String, String), Error>)
    ensures
        match r {
            Ok((p, h)) => revert_inputs(seq, inverse.model()) == Ok::<(Seq<char>, Seq<char>), Seq<char>>((p@, h@)),
            Err(e) => err_view(e).0 == ErrorTag::Msg && revert_inputs(seq, inverse.model()) == Err::<(Seq<char>, Seq<char>), Seq<char>>(err_view(e).1),
        },
{
    proof {
        if let JsonValue::Object(m) = inverse {
            crate::json::lemma_lookup_model(*m, "revert_path"@);
            crate::json::lemma_lookup_model(*m, "revert_sha256"@);
        }
    }
    let path = match inverse.get("revert_path") {
        Some(v) => v.as_str(),
        None => None,
    };
    let path = match path {
        Some(p) => p,
        None => return Err(seq_error(seq, ": custom_script revert inverse is missing a string revert_path -- refusing to guess which script to run")),
    };
    let hash = match inverse.get("revert_sha256") {
        Some(v) => v.as_str(),
        None => None,
    };
    match hash {
        Some(h) => Ok((path.to_owned(), h.to_owned())),
        None => Err(seq_error(seq, ": custom_script revert inverse is missing a string revert_sha256 -- refusing to run an unverified script")),
    }
}

/// Why a revert script may not run, if it may not: its hash is no longer
/// the one recorded when the scenario was applied.
pub open spec fn hash_mismatch(revert_rel: Seq<char>, expected: Seq<char>, actual: Seq<char>) -> Option<Seq<char>> {
    if actual != expected {
        Some(
            "revert script "@ + revert_rel + " changed since apply (expected sha256 "@ + expected
                + ", found "@ + actual + ") -- refusing to run it"@,
        )
    } else {
        None
    }
}

/// Refuses a revert script whose hash changed since apply.
pub fn check_revert_hash(revert_rel: &str, expected: &str, actual: &str) -> (r: Result<(), Error>)
    ensures
        match r {
            Ok(()) => hash_mismatch(revert_rel@, expected@, actual@) is None,
            Err(e) => err_view(e).0 == ErrorTag::Msg && hash_mismatch(revert_rel@, expected@, actual@) == Some(err_view(e).1),
        },
{
    if !str_eq(actual, expected) {
        let mut out: Vec<char> = Vec::new();
        push_str(&mut out, "revert script ");
        push_str(&mut out, revert_rel);
        push_str(&mut out, " changed since apply (expected sha256 ");
        push_str(&mut out, expected);
        push_str(&mut out, ", found ");
        push_str(&mut out, actual);
        push_str(&mut out, ") -- refusing to run it");
        return Err(err_msg_chars(&out));
    }
    Ok(())
}

/// The revert script that was pinned at apply passes the check when it is
/// unchanged: hashing the same bytes again gives the recorded hash.
pub proof fn lemma_unchanged_script_passes(revert_rel: Seq<char>, bytes: Seq<u8>)
    ensures
        hash_mismatch(revert_rel, hex_text(sha256(bytes)), hex_text(sha256(bytes))) is None,
{
}

} // verus!
