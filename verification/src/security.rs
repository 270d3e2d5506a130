//! Secret comparison, channel-key derivation, and the named-pipe access
//! policy (which SIDs a private pipe grants access to).

use crate::text::{append_chars, chars_eq, chars_of, string_from_chars, trim_chars, trim_seq};
use vstd::prelude::*;

verus! {

/// The SHA-256 digest of a byte string, as the `sha2` crate computes it.
pub uninterp spec fn sha256_digest(data: Seq<u8>) -> Seq<u8>;

/// Calls `sha2::Sha256::digest`: the 32-byte SHA-256 digest of `data`, a
/// function of `data` alone. The digest's value is left unstated.
#[verifier::external_body]
fn sha256(data: &[u8]) -> (r: [u8; 32])
    ensures
        r@ == sha256_digest(data@),
{
    <sha2::Sha256 as sha2::Digest>::digest(data).into()
}

/// Compares two byte strings in time that depends only on their lengths.
pub fn constant_time_eq(a: &[u8], b: &[u8]) -> (r: bool)
    ensures
        r == (a@ == b@),
{
    if a.len() != b.len() {
        return false;
    }
    let mut diff: u8 = 0;
    let mut i: usize = 0;
    while i < a.len()
        invariant
            i <= a@.len(),
            a@.len() == b@.len(),
            (diff == 0) == (forall|k: int| 0 <= k < i ==> a@[k] == b@[k]),
        decreases a@.len() - i,
    {
        let x: u8 = a[i];
        let y: u8 = b[i];
        let d: u8 = diff;
        assert((d | (x ^ y)) == 0 <==> (d == 0 && x == y)) by (bit_vector);
        diff = d | (x ^ y);
        i += 1;
    }
    proof {
        if diff == 0 {
            assert(a@ =~= b@);
        }
    }
    diff == 0
}

/// Compares two 32-byte secrets in constant time.
pub fn constant_time_eq_32(a: &[u8; 32], b: &[u8; 32]) -> (r: bool)
    ensures
        r == (a@ == b@),
{
    let mut diff: u8 = 0;
    let mut i: usize = 0;
    while i < 32
        invariant
            i <= 32,
            a@.len() == 32,
            b@.len() == 32,
            (diff == 0) == (forall|k: int| 0 <= k < i ==> a@[k] == b@[k]),
        decreases 32 - i,
    {
        let x: u8 = a[i];
        let y: u8 = b[i];
        let d: u8 = diff;
        assert((d | (x ^ y)) == 0 <==> (d == 0 && x == y)) by (bit_vector);
        diff = d | (x ^ y);
        i += 1;
    }
    proof {
        if diff == 0 {
            assert(a@ =~= b@);
        }
    }
    diff == 0
}

/// The label that starts every channel-key derivation input.
pub open spec fn channel_key_label() -> Seq<u8> {
    seq![
        112u8, 105, 103, 116, 114, 101, 101, 45, 118, 49, 45, 99, 104, 97, 110, 110, 101, 108,
        45, 107, 101, 121, 58,
    ]
}

/// The input hashed into a channel key: the label, then the three nonces
/// separated by colons.
pub open spec fn channel_key_input(b: Seq<u8>, c: Seq<u8>, s: Seq<u8>) -> Seq<u8> {
    channel_key_label() + b + seq![58u8] + c + seq![58u8] + s
}

fn push_bytes(out: &mut Vec<u8>, bytes: &[u8])
    ensures
        final(out)@ == old(out)@ + bytes@,
{
    let ghost start = out@;
    let mut i: usize = 0;
    while i < bytes.len()
        invariant
            i <= bytes@.len(),
            out@ == start + bytes@.subrange(0, i as int),
        decreases bytes@.len() - i,
    {
        out.push(bytes[i]);
        proof {
            assert(bytes@.subrange(0, i + 1) =~= bytes@.subrange(0, i as int).push(bytes@[i as int]));
        }
        i += 1;
    }
    proof {
        assert(bytes@.subrange(0, bytes@.len() as int) =~= bytes@);
    }
}

/// Derives the channel key from the bootstrap, client and server nonces:
/// the SHA-256 digest of `channel_key_input`.
pub fn derive_channel_key(bootstrap_nonce: &[u8], client_nonce: &[u8], server_nonce: &[u8]) -> (r: [u8; 32])
    ensures
        r@ == sha256_digest(channel_key_input(bootstrap_nonce@, client_nonce@, server_nonce@)),
{
    let label: [u8; 23] = [
        112, 105, 103, 116, 114, 101, 101, 45, 118, 49, 45, 99, 104, 97, 110, 110, 101, 108, 45,
        107, 101, 121, 58,
    ];
    let colon: [u8; 1] = [58];
    let mut data: Vec<u8> = Vec::new();
    push_bytes(&mut data, &label);
    proof {
        assert(label@ =~= channel_key_label());
    }
    push_bytes(&mut data, bootstrap_nonce);
    push_bytes(&mut data, &colon);
    push_bytes(&mut data, client_nonce);
    push_bytes(&mut data, &colon);
    push_bytes(&mut data, server_nonce);
    proof {
        assert(colon@ =~= seq![58u8]);
        assert(data@ =~= channel_key_input(bootstrap_nonce@, client_nonce@, server_nonce@));
    }
    sha256(data.as_slice())
}

/// SDDL abbreviations and string SIDs of broad well-known groups (Everyone,
/// Authenticated Users, Builtin Users, Administrators, Guests, Network,
/// Interactive, Anonymous, This Organization, ...).
pub open spec fn broad_sids() -> Seq<Seq<char>> {
    seq![
        "WD"@, "AU"@, "BU"@, "BA"@, "BG"@, "NU"@, "IU"@, "RC"@, "AN"@, "ED"@, "S-1-1-0"@, "S-1-5-11"@,
        "S-1-5-32-545"@, "S-1-5-32-544"@, "S-1-5-32-546"@, "S-1-5-7"@, "S-1-5-2"@, "S-1-5-4"@,
        "S-1-5-15"@,
    ]
}

/// A SID (after trimming) is empty or names a broad group.
pub open spec fn broad_sid(sid: Seq<char>) -> bool {
    let s = trim_seq(sid);
    s.len() == 0 || broad_sids().contains(s)
}

fn is_literal(t: &Vec<char>, lit: &str) -> (r: bool)
    ensures
        r == (t@ == lit@),
{
    let l = chars_of(lit);
    chars_eq(t.as_slice(), l.as_slice())
}

/// Whether a SID string names a broad well-known group that a private
/// pipe must never grant access to (an empty SID counts as broad).
pub fn is_broad_sid(sid: &str) -> (r: bool)
    ensures
        r == broad_sid(sid@),
{
    let cs = chars_of(sid);
    let t = trim_chars(cs.as_slice());
    if t.len() == 0 {
        return true;
    }
    let names: [&str; 19] = [
        "WD", "AU", "BU", "BA", "BG", "NU", "IU", "RC", "AN", "ED", "S-1-1-0", "S-1-5-11",
        "S-1-5-32-545", "S-1-5-32-544", "S-1-5-32-546", "S-1-5-7", "S-1-5-2", "S-1-5-4", "S-1-5-15",
    ];
    proof {
        assert forall|k: int| 0 <= k < 19 implies (#[trigger] names@[k])@ == broad_sids()[k] by {}
    }
    let mut k: usize = 0;
    while k < 19
        invariant
            k <= 19,
            t@ == trim_seq(sid@),
            names@.len() == 19,
            forall|j: int| 0 <= j < 19 ==> (#[trigger] names@[j])@ == broad_sids()[j],
            forall|j: int| 0 <= j < k ==> broad_sids()[j] != t@,
        decreases 19 - k,
    {
        if is_literal(&t, names[k]) {
            proof {
                assert(broad_sids()[k as int] == t@);
            }
            return true;
        }
        k += 1;
    }
    proof {
        if broad_sids().contains(t@) {
            let j = choose|j: int| 0 <= j < broad_sids().len() && broad_sids()[j] == t@;
            assert(broad_sids()[j] != t@);
        }
    }
    false
}

/// The access-control entry that grants `sid` full access.
pub open spec fn grant(sid: Seq<char>) -> Seq<char> {
    "(A;;GA;;;"@ + sid + ")"@
}

/// A restricted SID is granted when, trimmed, it is neither empty, nor the
/// user SID, nor broad.
pub open spec fn granted_restricted(user_sid: Seq<char>, rsid: Seq<char>) -> bool {
    let t = trim_seq(rsid);
    !(t.len() == 0 || t == user_sid || broad_sid(t))
}

/// The grants for the first `m` restricted SIDs, in order.
pub open spec fn restricted_grants(user_sid: Seq<char>, rs: Seq<Seq<char>>, m: int) -> Seq<char>
    decreases m,
{
    if m <= 0 {
        Seq::empty()
    } else if granted_restricted(user_sid, rs[m - 1]) {
        restricted_grants(user_sid, rs, m - 1) + grant(trim_seq(rs[m - 1]))
    } else {
        restricted_grants(user_sid, rs, m - 1)
    }
}

/// The grant of the user SID: none when it is empty or names a broad group.
pub open spec fn user_grant(user_sid: Seq<char>) -> Seq<char> {
    if broad_sid(user_sid) {
        Seq::empty()
    } else {
        grant(user_sid)
    }
}

/// The pipe's SDDL: a DACL granting the user SID (unless it is empty or
/// broad) and every granted restricted SID, and a mandatory label that
/// forbids writes from lower integrity levels.
pub open spec fn pipe_sddl(user_sid: Seq<char>, rs: Seq<Seq<char>>) -> Seq<char> {
    "D:"@ + user_grant(user_sid) + restricted_grants(user_sid, rs, rs.len() as int)
        + "S:(ML;;NW;;;ME)"@
}

/// Builds the pipe's SDDL (see `pipe_sddl`): only a non-broad user SID and
/// exact, non-broad restricted SIDs other than it are ever granted access;
/// no broad group and no empty SID is ever granted.
pub fn build_pipe_sddl(user_sid: &str, restricted_sids: &[String]) -> (r: String)
    ensures
        r@ == pipe_sddl(user_sid@, restricted_sids@.map_values(|s: String| s@)),
{
    let ghost rs = restricted_sids@.map_values(|s: String| s@);
    let mut out: Vec<char> = Vec::new();
    append_chars(&mut out, "D:");
    if !is_broad_sid(user_sid) {
        append_chars(&mut out, "(A;;GA;;;");
        append_chars(&mut out, user_sid);
        append_chars(&mut out, ")");
    }
    let user = chars_of(user_sid);
    let ghost head = out@;
    proof {
        assert(head =~= "D:"@ + user_grant(user_sid@));
    }
    let mut k: usize = 0;
    while k < restricted_sids.len()
        invariant
            k <= restricted_sids@.len(),
            rs == restricted_sids@.map_values(|s: String| s@),
            user@ == user_sid@,
            out@ == head + restricted_grants(user_sid@, rs, k as int),
        decreases restricted_sids@.len() - k,
    {
        let cs = chars_of(restricted_sids[k].as_str());
        let t = trim_chars(cs.as_slice());
        let skip: bool = t.len() == 0 || chars_eq(t.as_slice(), user.as_slice()) || is_broad_sid(
            string_from_chars(t.as_slice()).as_str(),
        );
        let ghost before = out@;
        if !skip {
            append_chars(&mut out, "(A;;GA;;;");
            let ts = string_from_chars(t.as_slice());
            append_chars(&mut out, ts.as_str());
            append_chars(&mut out, ")");
            proof {
                assert(out@ =~= before + grant(t@));
            }
        }
        proof {
            assert(rs[k as int] == restricted_sids@[k as int]@);
        }
        k += 1;
    }
    append_chars(&mut out, "S:(ML;;NW;;;ME)");
    proof {
        assert(out@ =~= pipe_sddl(user_sid@, rs));
    }
    string_from_chars(out.as_slice())
}

} // verus!
