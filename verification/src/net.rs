//! Port assignment for the post-receive side channel between queue pairs.
use vstd::prelude::*;

verus! {

/// First TCP port used by the post-receive channel.
pub const BASE_PORT: u16 = 60000;

/// Number of ports available above `BASE_PORT` (ports 60000..=65534).
pub const PORT_RANGE: u32 = 5535;

/// Fibonacci hashing multiplier, 2^32 divided by the golden ratio.
pub const QPN_HASH_MULTIPLIER: u32 = 0x9E37_79B9;

/// The 32-bit Fibonacci hash of a queue pair number.
pub open spec fn qpn_hash(qpn: u32) -> int {
    (qpn as int * QPN_HASH_MULTIPLIER as int) % 0x1_0000_0000
}

/// The port on which the queue pair `qpn` listens for post-receive requests.
pub open spec fn spec_qpn_to_port(qpn: u32) -> int {
    BASE_PORT as int + qpn_hash(qpn) % (PORT_RANGE as int)
}

/// Maps a queue pair number to its post-receive channel port.
pub fn qpn_to_port(qpn: u32) -> (port: u16)
    ensures
        port == spec_qpn_to_port(qpn),
        port == 60000 + ((qpn as int * 0x9E37_79B9) % 0x1_0000_0000) % 5535,
        BASE_PORT <= port < BASE_PORT as int + PORT_RANGE as int,
{
    let hash = qpn.wrapping_mul(QPN_HASH_MULTIPLIER);
    let offset: u32 = hash % PORT_RANGE;
    assert(offset < 5535);
    BASE_PORT + offset as u16
}

/// The port is the Fibonacci hash of the whole queue pair number, reduced
/// into the port range: `60000 + ((qpn * 0x9E3779B9) mod 2^32) mod 5535`.
pub proof fn lemma_port_formula(qpn: u32)
    ensures
        spec_qpn_to_port(qpn) == 60000 + ((qpn as int * 0x9E37_79B9) % 0x1_0000_0000) % 5535,
        60000 <= spec_qpn_to_port(qpn) < 65535,
{
}

/// The hash can be undone: multiplying it by `0x144CBC89`, the inverse of
/// the multiplier modulo 2^32, gives the queue pair number back.
pub proof fn lemma_qpn_hash_invertible(qpn: u32)
    ensures
        (qpn_hash(qpn) * 0x144C_BC89) % 0x1_0000_0000 == qpn,
{
    let q = qpn as int;
    let p: int = 0x1_0000_0000;
    vstd::arithmetic::div_mod::lemma_mul_mod_noop_left(q * 0x9E37_79B9, 0x144C_BC89, p);
    assert(q * 0x9E37_79B9 * 0x144C_BC89 == p * (q * 210485888) + q) by (nonlinear_arith)
        requires
            p == 0x1_0000_0000,
    ;
    vstd::arithmetic::div_mod::lemma_mod_multiples_vanish(q * 210485888, q, p);
    vstd::arithmetic::div_mod::lemma_small_mod(qpn as nat, p as nat);
}

/// The hash mixes all 32 bits of the queue pair number: two different
/// queue pair numbers never have the same hash, whichever bits they differ
/// in.
pub proof fn lemma_qpn_hash_injective(a: u32, b: u32)
    ensures
        a != b ==> qpn_hash(a) != qpn_hash(b),
{
    lemma_qpn_hash_invertible(a);
    lemma_qpn_hash_invertible(b);
}

} // verus!
