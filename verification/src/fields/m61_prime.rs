//! The Mersenne number 2^61 - 1 is prime.

use vstd::arithmetic::div_mod::lemma_fundamental_div_mod;
use vstd::arithmetic::power::{lemma_pow1, lemma_pow_adds, pow};
use vstd::prelude::*;

use crate::fields::modular::{
    is_prime, lemma_both_divide, lemma_canonical, lemma_inverse_exists, lemma_multiple, lemma_order_bound,
    lemma_pow_of_one, lemma_pow_step, lemma_prime_if_divisors_large, lemma_same,
    lemma_same_divisor, same,
};

verus! {

/// The Mersenne prime 2^61 - 1.
pub const M61: u64 = 0x1FFF_FFFF_FFFF_FFFF;

/// An element of order 4027518961 = 61 * 151 * 331 * 1321.
const ELEMENT: u64 = 2254674356018424053;

/// The order of the element.
const ORDER: u64 = 4027518961;

/// The powers of the element by which its order is known.
proof fn lemma_powers()
    ensures
        pow(ELEMENT as int, ORDER as nat) % (M61 as int) == 1,
        pow(ELEMENT as int, 66024901) % (M61 as int) == 1125899906842624,
        pow(ELEMENT as int, 26672311) % (M61 as int) == 2211238755008147949,
        pow(ELEMENT as int, 12167731) % (M61 as int) == 1491285494954315879,
        pow(ELEMENT as int, 3048841) % (M61 as int) == 234060095121088422,
{
    let b = ELEMENT as int;
    let p = M61 as int;
    lemma_pow1(b);
    lemma_canonical(b, p);
    lemma_pow_step(b, 1, 1, 2254674356018424053, 2254674356018424053, 2204641179548740358, 2220181235554772351, p);
    lemma_pow_step(b, 2, 2, 2220181235554772351, 2220181235554772351, 2137701785860262619, 476423307482349532, p);
    lemma_pow_step(b, 4, 4, 476423307482349532, 476423307482349532, 98436522783839738, 43273844456594186, p);
    lemma_pow_step(b, 8, 8, 43273844456594186, 43273844456594186, 812121903603525, 1793738815294225321, p);
    lemma_pow_step(b, 16, 16, 1793738815294225321, 1793738815294225321, 1395367735199941939, 671785950602042052, p);
    lemma_pow_step(b, 32, 32, 671785950602042052, 671785950602042052, 195718599064636235, 1726855295941456219, p);
    lemma_pow_step(b, 64, 64, 1726855295941456219, 1726855295941456219, 1293249020512434568, 455081722828877793, p);
    lemma_pow_step(b, 128, 128, 455081722828877793, 455081722828877793, 89815036680889068, 19162764594923181, p);
    lemma_pow_step(b, 256, 256, 19162764594923181, 19162764594923181, 159252622773162, 272506191726615699, p);
    lemma_pow_step(b, 512, 512, 272506191726615699, 272506191726615699, 32204978497068629, 168782093784095422, p);
    lemma_pow_step(b, 1024, 1024, 168782093784095422, 168782093784095422, 12354438297973092, 697968709480191592, p);
    lemma_pow_step(b, 2048, 2048, 697968709480191592, 697968709480191592, 211272110662715338, 1164376510061974026, p);
    lemma_pow_step(b, 4096, 4096, 1164376510061974026, 1164376510061974026, 587972664126179501, 2275821530794750225, p);
    lemma_pow_step(b, 8192, 8192, 2275821530794750225, 2275821530794750225, 2246190924244731542, 2181628167993248183, p);
    lemma_pow_step(b, 16384, 16384, 2181628167993248183, 2181628167993248183, 2064104730618497029, 124705510224029910, p);
    lemma_pow_step(b, 32768, 32768, 124705510224029910, 124705510224029910, 6744372543184875, 2184739631512416975, p);
    lemma_pow_step(b, 65536, 65536, 2184739631512416975, 2184739631512416975, 2069996629618189999, 254181972913154576, p);
    lemma_pow_step(b, 131072, 131072, 254181972913154576, 254181972913154576, 28019459735923443, 314244139501546483, p);
    lemma_pow_step(b, 262144, 262144, 314244139501546483, 314244139501546483, 42825716588893676, 257977132266315413, p);
    lemma_pow_step(b, 524288, 524288, 257977132266315413, 257977132266315413, 28862416264430200, 1171770380999640369, p);
    lemma_pow_step(b, 1048576, 1048576, 1171770380999640369, 1171770380999640369, 595463706896619586, 777802445458131875, p);
    lemma_pow_step(b, 2097152, 2097152, 777802445458131875, 777802445458131875, 262366796760786767, 787065135782269208, p);
    lemma_pow_step(b, 4194304, 4194304, 787065135782269208, 787065135782269208, 268652950564576946, 783048631550693618, p);
    lemma_pow_step(b, 8388608, 8388608, 783048631550693618, 783048631550693618, 265917999154030377, 1793613575070780397, p);
    lemma_pow_step(b, 16777216, 16777216, 1793613575070780397, 1793613575070780397, 1395172890705694170, 1081639919214511939, p);
    lemma_pow_step(b, 33554432, 33554432, 1081639919214511939, 1081639919214511939, 507382727342454255, 1225983179185828216, p);
    lemma_pow_step(b, 67108864, 67108864, 1225983179185828216, 1225983179185828216, 651837418957301121, 2201348388018523585, p);
    lemma_pow_step(b, 134217728, 134217728, 2201348388018523585, 2201348388018523585, 2101589182814420899, 1762685090516970276, p);
    lemma_pow_step(b, 268435456, 268435456, 1762685090516970276, 1762685090516970276, 1347471929318529375, 1281469291614205551, p);
    lemma_pow_step(b, 536870912, 536870912, 1281469291614205551, 1281469291614205551, 712174913378079988, 98268579449461013, p);
    lemma_pow_step(b, 1073741824, 1073741824, 98268579449461013, 98268579449461013, 4187931992086498, 858335509715612571, p);
    lemma_pow_step(b, 2147483648, 1073741824, 858335509715612571, 98268579449461013, 36579858599976957, 786563159626907316, p);
    lemma_pow_step(b, 3221225472, 536870912, 786563159626907316, 1281469291614205551, 437131465997177022, 1622680407772117194, p);
    lemma_pow_step(b, 3758096384, 268435456, 1622680407772117194, 1762685090516970276, 1240446357373340480, 1966810001647089064, p);
    lemma_pow_step(b, 4026531840, 524288, 1966810001647089064, 257977132266315413, 220046205188377847, 1215776867920639935, p);
    lemma_pow_step(b, 4027056128, 262144, 1215776867920639935, 314244139501546483, 165688103725625443, 1508538739647803312, p);
    lemma_pow_step(b, 4027318272, 131072, 1508538739647803312, 254181972913154576, 166292046564938836, 541420204762574676, p);
    lemma_pow_step(b, 4027449344, 65536, 541420204762574676, 2184739631512416975, 512984697535730203, 665852686938423047, p);
    lemma_pow_step(b, 4027514880, 2048, 665852686938423047, 697968709480191592, 201550729494290123, 1139008096584274851, p);
    lemma_pow_step(b, 4027516928, 1024, 1139008096584274851, 168782093784095422, 83372619302511617, 1766998766198703355, p);
    lemma_pow_step(b, 4027517952, 512, 1766998766198703355, 272506191726615699, 208825190023078697, 1984942475241108298, p);
    lemma_pow_step(b, 4027518464, 256, 1984942475241108298, 19162764594923181, 16495912876774871, 1325252925290150617, p);
    lemma_pow_step(b, 4027518720, 128, 1325252925290150617, 455081722828877793, 261552231446455634, 1086794146680878347, p);
    lemma_pow_step(b, 4027518848, 64, 1086794146680878347, 1726855295941456219, 813904598142624057, 870476383917610786, p);
    lemma_pow_step(b, 4027518912, 32, 870476383917610786, 671785950602042052, 253605211937707582, 820399559460536390, p);
    lemma_pow_step(b, 4027518944, 16, 820399559460536390, 1793738815294225321, 638197192078772621, 2267637342567815619, p);
    lemma_pow_step(b, 4027518960, 1, 2267637342567815619, 2254674356018424053, 2217316506200875106, 1, p);
    lemma_pow_step(b, 33554432, 16777216, 1081639919214511939, 1793613575070780397, 841359986213101862, 1318256985347423021, p);
    lemma_pow_step(b, 50331648, 8388608, 1318256985347423021, 783048631550693618, 447671122571544398, 1294347436830443480, p);
    lemma_pow_step(b, 58720256, 4194304, 1294347436830443480, 787065135782269208, 441806201483673427, 1923880771779023763, p);
    lemma_pow_step(b, 62914560, 2097152, 1923880771779023763, 777802445458131875, 648959691999969988, 2163241206595603037, p);
    lemma_pow_step(b, 65011712, 524288, 2163241206595603037, 257977132266315413, 242022878681650440, 1815226717058220841, p);
    lemma_pow_step(b, 65536000, 262144, 1815226717058220841, 314244139501546483, 247382131143739860, 1533543008441265343, p);
    lemma_pow_step(b, 65798144, 131072, 1533543008441265343, 254181972913154576, 169048363602905922, 1653155611637181746, p);
    lemma_pow_step(b, 65929216, 65536, 1653155611637181746, 2184739631512416975, 1566331518394444684, 1575222976835631866, p);
    lemma_pow_step(b, 65994752, 16384, 1575222976835631866, 2181628167993248183, 1490366344717750077, 1770386375776715251, p);
    lemma_pow_step(b, 66011136, 8192, 1770386375776715251, 2275821530794750225, 1747336403961115807, 91706875326798018, p);
    lemma_pow_step(b, 66019328, 4096, 91706875326798018, 1164376510061974026, 46309020611996778, 286295887374190590, p);
    lemma_pow_step(b, 66023424, 1024, 286295887374190590, 168782093784095422, 20956161854778402, 68200609621632678, p);
    lemma_pow_step(b, 66024448, 256, 68200609621632678, 19162764594923181, 566782830482143, 327149931836691725, p);
    lemma_pow_step(b, 66024704, 128, 327149931836691725, 455081722828877793, 64566388088302918, 1760058874007113907, p);
    lemma_pow_step(b, 66024832, 64, 1760058874007113907, 1726855295941456219, 1318115316438816421, 270545683219368262, p);
    lemma_pow_step(b, 66024896, 4, 270545683219368262, 476423307482349532, 55898978685629219, 508888102782199115, p);
    lemma_pow_step(b, 66024900, 1, 508888102782199115, 2254674356018424053, 497595435093022521, 1125899906842624, p);
    lemma_pow_step(b, 16777216, 8388608, 1793613575070780397, 783048631550693618, 609098993243629404, 1505539060986871142, p);
    lemma_pow_step(b, 25165824, 1048576, 1505539060986871142, 1171770380999640369, 765076404617854274, 1537868941591034824, p);
    lemma_pow_step(b, 26214400, 262144, 1537868941591034824, 314244139501546483, 209583349900835375, 549044131823407367, p);
    lemma_pow_step(b, 26476544, 131072, 549044131823407367, 254181972913154576, 60523253354899300, 1763103248464027092, p);
    lemma_pow_step(b, 26607616, 32768, 1763103248464027092, 124705510224029910, 95352844620730530, 2056322774196297690, p);
    lemma_pow_step(b, 26640384, 16384, 2056322774196297690, 2181628167993248183, 1945549488298624466, 490006671914792104, p);
    lemma_pow_step(b, 26656768, 8192, 490006671914792104, 2275821530794750225, 483626912032073629, 1668008411978305221, p);
    lemma_pow_step(b, 26664960, 4096, 1668008411978305221, 1164376510061974026, 842290566067467269, 2121964874926399927, p);
    lemma_pow_step(b, 26669056, 2048, 2121964874926399927, 697968709480191592, 642309593236240066, 2149219496686773018, p);
    lemma_pow_step(b, 26671104, 1024, 2149219496686773018, 168782093784095422, 157317634029253834, 2226179757997565462, p);
    lemma_pow_step(b, 26672128, 128, 2226179757997565462, 455081722828877793, 439359364687094310, 1098967871702066556, p);
    lemma_pow_step(b, 26672256, 32, 1098967871702066556, 671785950602042052, 320174085322586896, 1610268314667746816, p);
    lemma_pow_step(b, 26672288, 16, 1610268314667746816, 1793738815294225321, 1252644159865382459, 316021518494522427, p);
    lemma_pow_step(b, 26672304, 4, 316021518494522427, 476423307482349532, 65294999041628909, 1489074250186924705, p);
    lemma_pow_step(b, 26672308, 2, 1489074250186924705, 2220181235554772351, 1433755331738813036, 363425101339686219, p);
    lemma_pow_step(b, 26672310, 1, 363425101339686219, 2254674356018424053, 355360383621003558, 2211238755008147949, p);
    lemma_pow_step(b, 8388608, 2097152, 783048631550693618, 777802445458131875, 264136429973376742, 1326857055955386108, p);
    lemma_pow_step(b, 10485760, 1048576, 1326857055955386108, 1171770380999640369, 674274784439505385, 1676722165332167717, p);
    lemma_pow_step(b, 11534336, 524288, 1676722165332167717, 257977132266315413, 187591251482148191, 699736599835829480, p);
    lemma_pow_step(b, 12058624, 65536, 699736599835829480, 2184739631512416975, 662986281014157938, 1290915980048189962, p);
    lemma_pow_step(b, 12124160, 32768, 1290915980048189962, 124705510224029910, 69815826708497276, 4034820668585944, p);
    lemma_pow_step(b, 12156928, 8192, 4034820668585944, 2275821530794750225, 3982288349107885, 1699399553154933765, p);
    lemma_pow_step(b, 12165120, 2048, 1699399553154933765, 697968709480191592, 514400897314878306, 90091261976576874, p);
    lemma_pow_step(b, 12167168, 512, 90091261976576874, 272506191726615699, 10647050389373065, 359975657255915111, p);
    lemma_pow_step(b, 12167680, 32, 359975657255915111, 671785950602042052, 104875565308205479, 1325175000036890243, p);
    lemma_pow_step(b, 12167712, 16, 1325175000036890243, 1793738815294225321, 1030867160134320499, 541116959456841454, p);
    lemma_pow_step(b, 12167728, 2, 541116959456841454, 2220181235554772351, 521014533437906857, 319378664027516347, p);
    lemma_pow_step(b, 12167730, 1, 319378664027516347, 2254674356018424053, 312291374896256112, 1491285494954315879, p);
    lemma_pow_step(b, 2097152, 524288, 777802445458131875, 257977132266315413, 87020340737525182, 1379154216395515293, p);
    lemma_pow_step(b, 2621440, 262144, 1379154216395515293, 314244139501546483, 187953441860262317, 1302149261760720052, p);
    lemma_pow_step(b, 2883584, 131072, 1302149261760720052, 254181972913154576, 143540937981989797, 479729336976140005, p);
    lemma_pow_step(b, 3014656, 32768, 479729336976140005, 124705510224029910, 25944911036005767, 1673791388858534133, p);
    lemma_pow_step(b, 3047424, 1024, 1673791388858534133, 168782093784095422, 122517454154725239, 1757890035674709837, p);
    lemma_pow_step(b, 3048448, 256, 1757890035674709837, 19162764594923181, 14608988037257017, 687273985314827330, p);
    lemma_pow_step(b, 3048704, 128, 687273985314827330, 455081722828877793, 135640556639281122, 1189667384706589668, p);
    lemma_pow_step(b, 3048832, 8, 1189667384706589668, 43273844456594186, 22326533573693573, 1414120064018793325, p);
    lemma_pow_step(b, 3048840, 1, 1414120064018793325, 2254674356018424053, 1382739515194298453, 234060095121088422, p);
}

proof fn lemma_prime_61()
    ensures
        is_prime(61),
{
    assert forall|q: int| 1 < q && #[trigger] (61int % q) == 0 implies 8 < q by {
        if q <= 8 {
            assert(q == 2 || q == 3 || q == 4 || q == 5 || q == 6 || q == 7 || q == 8);
        }
    }
    lemma_prime_if_divisors_large(61, 8);
}

proof fn lemma_prime_151()
    ensures
        is_prime(151),
{
    assert forall|q: int| 1 < q && #[trigger] (151int % q) == 0 implies 13 < q by {
        if q <= 13 {
            assert(q == 2 || q == 3 || q == 4 || q == 5 || q == 6 || q == 7 || q == 8 || q == 9 || q == 10 || q == 11 || q == 12 || q == 13);
        }
    }
    lemma_prime_if_divisors_large(151, 13);
}

proof fn lemma_prime_331()
    ensures
        is_prime(331),
{
    assert forall|q: int| 1 < q && #[trigger] (331int % q) == 0 implies 19 < q by {
        if q <= 19 {
            assert(q == 2 || q == 3 || q == 4 || q == 5 || q == 6 || q == 7 || q == 8 || q == 9 || q == 10 || q == 11 || q == 12 || q == 13 || q == 14 || q == 15 || q == 16 || q == 17 || q == 18 || q == 19);
        }
    }
    lemma_prime_if_divisors_large(331, 19);
}

proof fn lemma_prime_1321()
    ensures
        is_prime(1321),
{
    assert forall|q: int| 1 < q && #[trigger] (1321int % q) == 0 implies 37 < q by {
        if q <= 37 {
            assert(q == 2 || q == 3 || q == 4 || q == 5 || q == 6 || q == 7 || q == 8 || q == 9 || q == 10 || q == 11 || q == 12 || q == 13 || q == 14 || q == 15 || q == 16 || q == 17 || q == 18 || q == 19 || q == 20 || q == 21 || q == 22 || q == 23 || q == 24 || q == 25 || q == 26 || q == 27 || q == 28 || q == 29 || q == 30 || q == 31 || q == 32 || q == 33 || q == 34 || q == 35 || q == 36 || q == 37);
        }
    }
    lemma_prime_if_divisors_large(1321, 37);
}

/// A number below the order is not divided by one of its prime factors.
proof fn lemma_some_factor(e: int)
    requires
        0 < e < ORDER,
    ensures
        e % 61 != 0 || e % 151 != 0 || e % 331 != 0 || e % 1321 != 0,
{
    if e % 61 == 0 && e % 151 == 0 && e % 331 == 0 && e % 1321 == 0 {
        lemma_both_divide(e, 61, 151, 52, -21);
        lemma_both_divide(e, 9211, 331, -151, 4202);
        lemma_both_divide(e, 3048841, 1321, 636, -1467875);
        lemma_canonical(e, ORDER as int);
    }
}

/// If a power is 1 modulo a divisor of the Mersenne number and a prime factor of the order does not
/// divide its exponent, then the power to the order divided by the factor is 1, which is not so.
proof fn lemma_other_power(q: int, e: int, f: int, c: int, r: int, i: int, k: int)
    requires
        q > 1,
        (M61 as int) % q == 0,
        0 < e,
        pow(ELEMENT as int, e as nat) % q == 1,
        is_prime(f),
        e % f != 0,
        c > 0,
        f * c == ORDER,
        pow(ELEMENT as int, c as nat) % (M61 as int) == r,
        (r - 1) * i == k * M61 + 1,
    ensures
        q <= 1,
{
    let b = ELEMENT as int;
    let p = M61 as int;
    let n = ORDER as int;
    lemma_canonical(1, q);
    lemma_canonical(1, p);
    lemma_canonical(0, q);
    let s = lemma_inverse_exists(e, f);
    let t = (e * s) / f;
    lemma_fundamental_div_mod(e * s, f);
    assert(e * s > 0 && t >= 0) by (nonlinear_arith)
        requires
            e > 0,
            s > 0,
            e * s == f * t + 1,
            f > 1,
    ;
    assert(s * c >= 0) by (nonlinear_arith)
        requires
            s > 0,
            c > 0,
    ;
    assert(e * (s * c) == n * t + c) by (nonlinear_arith)
        requires
            e * s == f * t + 1,
            f * c == n,
    ;
    lemma_pow_of_one(b, e as nat, (s * c) as nat, q);
    lemma_powers();
    lemma_same_divisor(pow(b, n as nat), 1, p, q);
    lemma_pow_of_one(b, n as nat, t as nat, q);
    assert(n * t >= 0) by (nonlinear_arith)
        requires
            n > 0,
            t >= 0,
    ;
    lemma_pow_adds(b, (n * t) as nat, c as nat);
    assert((e as nat) * ((s * c) as nat) == (n * t) as nat + c as nat);
    assert((n as nat) * (t as nat) == (n * t) as nat);
    lemma_same(pow(b, (n * t) as nat), 1, pow(b, c as nat), pow(b, c as nat), q);
    assert(pow(b, c as nat) % q == 1);
    crate::fields::modular::lemma_mod_twice(pow(b, c as nat), p);
    assert(same(pow(b, c as nat), r, p));
    lemma_same_divisor(pow(b, c as nat), r, p, q);
    assert(same(r, 1, q));
    lemma_same(r, 1, 1, 1, q);
    lemma_same(r - 1, 0, i, i, q);
    assert(same((r - 1) * i, 0, q));
    lemma_fundamental_div_mod(p, q);
    let d = p / q;
    assert(k * p + 1 == 1 + q * (d * k)) by (nonlinear_arith)
        requires
            p == q * d,
    ;
    lemma_multiple(1, d * k, q);
}

/// Modulo a divisor of the Mersenne number, no power below the order is 1.
proof fn lemma_no_smaller_power(q: int, e: nat)
    requires
        q > 1,
        (M61 as int) % q == 0,
        0 < e < ORDER,
    ensures
        pow(ELEMENT as int, e) % q != 1,
{
    if pow(ELEMENT as int, e) % q == 1 {
        lemma_powers();
        let e = e as int;
        lemma_some_factor(e);
        lemma_prime_61(); lemma_prime_151(); lemma_prime_331(); lemma_prime_1321();
        if e % 61 != 0 {
            lemma_other_power(q, e, 61, 66024901, 1125899906842624, 73219245529501761, 35751584731202);
        } else if e % 151 != 0 {
            lemma_other_power(q, e, 151, 26672311, 2211238755008147949, 1896004468068488480, 1818215092141647489);
        } else if e % 331 != 0 {
            lemma_other_power(q, e, 331, 12167731, 1491285494954315879, 1881382712785867029, 1216769198433903011);
        } else if e % 1321 != 0 {
            lemma_other_power(q, e, 1321, 3048841, 234060095121088422, 828993518632009434, 84148964630484863);
        }
    }
}

/// Every divisor of the Mersenne number above 1 is above the order.
proof fn lemma_divisor_large(q: int)
    requires
        q > 1,
        (M61 as int) % q == 0,
    ensures
        ORDER < q,
{
    let b = ELEMENT as int;
    lemma_powers();
    lemma_canonical(1, M61 as int);
    lemma_canonical(1, q);
    lemma_same_divisor(pow(b, ORDER as nat), 1, M61 as int, q);
    assert forall|e: nat| 0 < e < ORDER as nat implies #[trigger] pow(b, e) % q != 1 by {
        lemma_no_smaller_power(q, e);
    }
    lemma_order_bound(b, ORDER as nat, q);
}

/// The Mersenne number is prime.
pub proof fn lemma_m61_prime()
    ensures
        is_prime(M61 as int),
{
    let p = M61 as int;
    assert forall|q: int| 1 < q && #[trigger] (p % q) == 0 implies ORDER < q by {
        lemma_divisor_large(q);
    }
    lemma_prime_if_divisors_large(p, ORDER as int);
}

} // verus!
