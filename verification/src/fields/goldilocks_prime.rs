//! The Goldilocks number is prime, and it has a root of unity of order 2^32.

use vstd::arithmetic::power::{lemma_pow1, pow};
use vstd::arithmetic::power2::lemma2_to64;
use vstd::prelude::*;

use crate::fields::modular::{is_prime, lemma_canonical, lemma_pow_step};
use crate::fields::proth::lemma_prime_by_power;

verus! {

/// The Goldilocks prime: 2^64 - 2^32 + 1.
pub const GOLDILOCKS: u64 = 0xFFFFFFFF00000001;

/// A primitive 2^32-th root of unity.
///
/// This is g^((p-1)/2^32) where g = 7 is a generator of the multiplicative group.
pub const OMEGA_32: u64 = 1753635133440165772;

/// The root of unity to the power of 2^31 is -1.
pub proof fn lemma_omega()
    ensures
        pow(OMEGA_32 as int, 0x8000_0000) % (GOLDILOCKS as int) == GOLDILOCKS - 1,
{
    let w = OMEGA_32 as int;
    let p = GOLDILOCKS as int;
    lemma_pow1(w);
    lemma_canonical(w, p);
    lemma_pow_step(w, 1, 1, 1753635133440165772, 1753635133440165772, 166708887468903991, 4614640910117430873, p);
    lemma_pow_step(w, 2, 2, 4614640910117430873, 4614640910117430873, 1154399424049971884, 9123114210336311365, p);
    lemma_pow_step(w, 4, 4, 9123114210336311365, 9123114210336311365, 4511973093009996851, 16116352524544190054, p);
    lemma_pow_step(w, 8, 8, 16116352524544190054, 16116352524544190054, 14080361158478670879, 6414415596519834757, p);
    lemma_pow_step(w, 16, 16, 6414415596519834757, 6414415596519834757, 2230460144622294524, 1213594585890690845, p);
    lemma_pow_step(w, 32, 32, 1213594585890690845, 1213594585890690845, 79841288704448195, 17096174751763063430, p);
    lemma_pow_step(w, 64, 64, 17096174751763063430, 17096174751763063430, 15844486704156700236, 5456943929260765144, p);
    lemma_pow_step(w, 128, 128, 5456943929260765144, 5456943929260765144, 1614281465338340559, 9713644485405565297, p);
    lemma_pow_step(w, 256, 256, 9713644485405565297, 9713644485405565297, 5114988793349933654, 16905767614792059275, p);
    lemma_pow_step(w, 512, 512, 16905767614792059275, 16905767614792059275, 15493518941330557636, 5416168637041100469, p);
    lemma_pow_step(w, 1024, 1024, 5416168637041100469, 5416168637041100469, 1590247178281506213, 17654865857378133588, p);
    lemma_pow_step(w, 2048, 2048, 17654865857378133588, 17654865857378133588, 16896981237942002723, 3511170319078647661, p);
    lemma_pow_step(w, 4096, 4096, 3511170319078647661, 3511170319078647661, 668319404399374695, 18146160046829613826, p);
    lemma_pow_step(w, 8192, 8192, 18146160046829613826, 18146160046829613826, 17850473948468743512, 9306717745644682924, p);
    lemma_pow_step(w, 16384, 16384, 9306717745644682924, 9306717745644682924, 4695408299218975106, 12380578893860276750, p);
    lemma_pow_step(w, 32768, 32768, 12380578893860276750, 12380578893860276750, 8309256808156222390, 6115771955107415310, p);
    lemma_pow_step(w, 65536, 65536, 6115771955107415310, 6115771955107415310, 2027602620068516376, 17776499369601055404, p);
    lemma_pow_step(w, 131072, 131072, 17776499369601055404, 17776499369601055404, 17130607366173278638, 16207902636198568418, p);
    lemma_pow_step(w, 262144, 262144, 16207902636198568418, 16207902636198568418, 14240784545824149997, 1532612707718625687, p);
    lemma_pow_step(w, 524288, 524288, 1532612707718625687, 1532612707718625687, 127334216977357403, 17492915097719143606, p);
    lemma_pow_step(w, 1048576, 1048576, 17492915097719143606, 17492915097719143606, 16588405924890216597, 455906449640507599, p);
    lemma_pow_step(w, 2097152, 2097152, 455906449640507599, 455906449640507599, 11267608529812975, 11353340290879379826, p);
    lemma_pow_step(w, 4194304, 4194304, 11353340290879379826, 11353340290879379826, 6987592784692205430, 1803076106186727246, p);
    lemma_pow_step(w, 8388608, 8388608, 1803076106186727246, 1803076106186727246, 176241586724885086, 13797081185216407910, p);
    lemma_pow_step(w, 16777216, 16777216, 13797081185216407910, 13797081185216407910, 10319406422896923811, 17870292113338400769, p);
    lemma_pow_step(w, 33554432, 33554432, 17870292113338400769, 17870292113338400769, 17311854006015885313, 549755813888, p);
    lemma_pow_step(w, 67108864, 67108864, 549755813888, 549755813888, 16384, 70368744161280, p);
    lemma_pow_step(w, 134217728, 134217728, 70368744161280, 70368744161280, 268435455, 17293822564807737345, p);
    lemma_pow_step(w, 268435456, 268435456, 17293822564807737345, 17293822564807737345, 16212958654255595520, 18446744069397807105, p);
    lemma_pow_step(w, 536870912, 536870912, 18446744069397807105, 18446744069397807105, 18446744069381029889, 281474976710656, p);
    lemma_pow_step(w, 1073741824, 1073741824, 281474976710656, 281474976710656, 4294967296, 18446744069414584320, p);
}

/// The Goldilocks number is prime.
pub proof fn lemma_goldilocks_prime()
    ensures
        is_prime(GOLDILOCKS as int),
{
    lemma2_to64();
    lemma_omega();
    lemma_prime_by_power(OMEGA_32 as int, 32, GOLDILOCKS as int);
}

} // verus!
