//! The name under which a process is known to the server.

use rand::RngCore;
use vstd::prelude::*;

verus! {

/// How many random bytes set apart the identities of processes.
pub const NONCE_BYTES: usize = 12;

/// The identity of process `pid` on `hostname` that drew `nonce`: the three
/// of them joined by colons, the process id in decimal and the nonce in
/// hexadecimal.
pub open spec fn identity_text(hostname: Seq<char>, pid: u32, nonce: Seq<u8>) -> Seq<char> {
    hostname + seq![':'] + crate::text::decimal(pid as nat) + seq![':'] + crate::text::hex_text(
        nonce,
    )
}

/// Whether `identity` is one that process `pid` on `hostname` can have drawn.
pub open spec fn is_identity(identity: Seq<char>, hostname: Seq<char>, pid: u32) -> bool {
    exists|nonce: Seq<u8>|
        nonce.len() == NONCE_BYTES && identity == #[trigger] identity_text(hostname, pid, nonce)
}

/// Whether `identity` is one that a process on `hostname` can have drawn.
pub open spec fn is_identity_on(identity: Seq<char>, hostname: Seq<char>) -> bool {
    exists|pid: u32| #[trigger] is_identity(identity, hostname, pid)
}

/// `RngCore::fill_bytes` on the generator of the thread, `rand::rng`: it
/// overwrites all of `bytes`. What it writes is left to chance, so nothing is
/// claimed of it: `is_drawn` holds of any bytes and only marks them as drawn. The
/// first call on a thread panics where the operating system has no randomness to
/// seed the generator with.
#[verifier::external_body]
fn fill_random(bytes: &mut [u8; NONCE_BYTES])
    ensures
        crate::witness::is_drawn(final(bytes)@),
{
    rand::rng().fill_bytes(bytes)
}

/// The identity of process `pid` on `hostname` for a given `nonce`.
pub fn identity_with_nonce(hostname: &str, pid: u32, nonce: &[u8; NONCE_BYTES]) -> (identity:
    String)
    ensures
        identity@ == identity_text(hostname@, pid, nonce@),
        is_identity(identity@, hostname@, pid),
        is_identity_on(identity@, hostname@),
{
    let mut identity: String = hostname.to_owned();
    proof {
        reveal_strlit(":");
    }
    assert(":"@ =~= seq![':']);
    identity.append(":");
    identity.append(crate::text::decimal_text(pid as u64).as_str());
    identity.append(":");
    identity.append(crate::text::hex_encode(nonce.as_slice()).as_str());
    assert(identity@ == identity_text(hostname@, pid, nonce@));
    identity
}

/// Draws an identity for process `pid` on `hostname`.
pub fn generate_identity(hostname: &str, pid: u32) -> (identity: String)
    ensures
        is_identity(identity@, hostname@, pid),
        is_identity_on(identity@, hostname@),
        exists|nonce: Seq<u8>|
            nonce.len() == NONCE_BYTES && crate::witness::is_drawn(nonce) && identity@
                == #[trigger] identity_text(hostname@, pid, nonce),
{
    let mut nonce: [u8; NONCE_BYTES] = [0u8; NONCE_BYTES];
    fill_random(&mut nonce);
    identity_with_nonce(hostname, pid, &nonce)
}

/// An identity starts with the host's name and a colon.
pub proof fn lemma_identity_starts_with_hostname(hostname: Seq<char>, pid: u32, nonce: Seq<u8>)
    ensures
        (hostname + seq![':']).is_prefix_of(identity_text(hostname, pid, nonce)),
{
}

/// The parts of an identity: the host's name, a colon, the process id in
/// decimal, a colon, and two hexadecimal digits for each byte of the nonce.
pub proof fn lemma_identity_parts(hostname: Seq<char>, pid: u32, nonce: Seq<u8>)
    ensures
        ({
            let identity = identity_text(hostname, pid, nonce);
            let end = identity.len() - 2 * nonce.len() - 1;
            &&& hostname.len() < end < identity.len()
            &&& identity.take(hostname.len() as int) == hostname
            &&& identity[hostname.len() as int] == ':'
            &&& identity.subrange(hostname.len() + 1int, end) == crate::text::decimal(pid as nat)
            &&& crate::text::parsed_u64(identity.subrange(hostname.len() + 1int, end)) == Some(
                pid as u64,
            )
            &&& identity[end] == ':'
            &&& identity.skip(end + 1) == crate::text::hex_text(nonce)
        }),
{
    let identity = identity_text(hostname, pid, nonce);
    let end = identity.len() - 2 * nonce.len() - 1;
    crate::text::lemma_hex_digits(nonce);
    crate::text::lemma_decimal_places(pid as nat);
    crate::text::lemma_parse_reads_decimal(pid as u64);
    assert(identity.take(hostname.len() as int) =~= hostname);
    assert(identity.subrange(hostname.len() + 1int, end) =~= crate::text::decimal(pid as nat));
    assert(identity.skip(end + 1) =~= crate::text::hex_text(nonce));
}

/// Identities tell processes apart: two that differ in the host, the process id
/// or the nonce have different identities.
pub proof fn lemma_identities_are_distinct(
    hostname1: Seq<char>,
    pid1: u32,
    nonce1: Seq<u8>,
    hostname2: Seq<char>,
    pid2: u32,
    nonce2: Seq<u8>,
)
    requires
        identity_text(hostname1, pid1, nonce1) == identity_text(hostname2, pid2, nonce2),
    ensures
        hostname1 == hostname2,
        pid1 == pid2,
        nonce1 == nonce2,
{
    let hex1 = crate::text::hex_text(nonce1);
    let hex2 = crate::text::hex_text(nonce2);
    let pids1 = crate::text::decimal(pid1 as nat);
    let pids2 = crate::text::decimal(pid2 as nat);
    let id1 = identity_text(hostname1, pid1, nonce1);
    let id2 = identity_text(hostname2, pid2, nonce2);
    let colon1 = id1.len() - hex1.len() - 1;
    crate::text::lemma_decimal_is_distinct(pid1 as nat, pid2 as nat);
    crate::text::lemma_decimal_is_distinct(pid2 as nat, pid1 as nat);
    crate::text::lemma_hex_is_distinct(nonce1, nonce2);
    if hex1.len() < hex2.len() {
        assert(id1[colon1] == ':');
        assert(id2[colon1] == hex2[hex2.len() - hex1.len() - 1]);
    } else if hex2.len() < hex1.len() {
        assert(id2[id2.len() - hex2.len() - 1] == ':');
        assert(id1[id2.len() - hex2.len() - 1] == hex1[hex1.len() - hex2.len() - 1]);
    }
    assert(id1.skip(id1.len() - hex1.len()) =~= hex1);
    assert(id2.skip(id1.len() - hex1.len()) =~= hex2);
    if pids1.len() < pids2.len() {
        assert(id1[colon1 - pids1.len() - 1] == ':');
        assert(id2[colon1 - pids1.len() - 1] == pids2[pids2.len() - pids1.len() - 1]);
    } else if pids2.len() < pids1.len() {
        assert(id2[colon1 - pids2.len() - 1] == ':');
        assert(id1[colon1 - pids2.len() - 1] == pids1[pids1.len() - pids2.len() - 1]);
    }
    assert(id1.subrange(colon1 - pids1.len(), colon1) =~= pids1);
    assert(id2.subrange(colon1 - pids1.len(), colon1) =~= pids2);
    assert(id1.take(colon1 - pids1.len() - 1) =~= hostname1);
    assert(id2.take(colon1 - pids1.len() - 1) =~= hostname2);
}

} // verus!
