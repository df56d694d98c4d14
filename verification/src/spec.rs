//! The mathematical definition of SHA-256 (FIPS 180-4) over byte sequences.
use vstd::prelude::*;

verus! {

/// 2^32, the modulus of 32-bit word arithmetic.
pub open spec fn word_modulus() -> int {
    0x1_0000_0000
}

/// Addition of two 32-bit words modulo 2^32.
pub open spec fn wadd(x: u32, y: u32) -> u32 {
    ((x as int + y as int) % word_modulus()) as u32
}

/// Rotation of a 32-bit word right by `n` places, 0 < n < 32.
pub open spec fn rotr(x: u32, n: u32) -> u32 {
    (x >> n) | (x << ((32 - n) as u32))
}

/// The choice function Ch.
pub open spec fn ch_spec(x: u32, y: u32, z: u32) -> u32 {
    (x & y) ^ (!x & z)
}

/// The majority function Maj.
pub open spec fn maj_spec(x: u32, y: u32, z: u32) -> u32 {
    (x & y) ^ (x & z) ^ (y & z)
}

/// The function Σ0 of the compression rounds.
pub open spec fn big_sigma0(x: u32) -> u32 {
    rotr(x, 2) ^ rotr(x, 13) ^ rotr(x, 22)
}

/// The function Σ1 of the compression rounds.
pub open spec fn big_sigma1(x: u32) -> u32 {
    rotr(x, 6) ^ rotr(x, 11) ^ rotr(x, 25)
}

/// The function σ0 of the message schedule.
pub open spec fn small_sigma0(x: u32) -> u32 {
    rotr(x, 7) ^ rotr(x, 18) ^ (x >> 3)
}

/// The function σ1 of the message schedule.
pub open spec fn small_sigma1(x: u32) -> u32 {
    rotr(x, 17) ^ rotr(x, 19) ^ (x >> 10)
}

/// The 32-bit word whose big-endian bytes are `b[i..i + 4]`.
pub open spec fn be_word(b: Seq<u8>, i: int) -> u32 {
    (b[i] as int * 0x100_0000 + b[i + 1] as int * 0x1_0000 + b[i + 2] as int * 0x100 + b[i + 3] as int) as u32
}

/// The four big-endian bytes of a 32-bit word.
pub open spec fn word_be_bytes(x: u32) -> Seq<u8> {
    seq![(x / 0x100_0000) as u8, ((x / 0x1_0000) % 0x100) as u8, ((x / 0x100) % 0x100) as u8, (x % 0x100) as u8]
}

/// The big-endian words of a byte sequence whose length is a multiple of four.
pub open spec fn be_words(b: Seq<u8>) -> Seq<u32> {
    Seq::new(b.len() / 4, |i: int| be_word(b, 4 * i))
}

/// The bytes of a sequence of words, each in big-endian order.
pub open spec fn words_be_bytes(ws: Seq<u32>) -> Seq<u8> {
    Seq::new(4 * ws.len(), |i: int| word_be_bytes(ws[i / 4])[i % 4])
}

/// The eight big-endian bytes of a 64-bit value.
pub open spec fn u64_be_bytes(x: u64) -> Seq<u8> {
    word_be_bytes((x / 0x1_0000_0000) as u32) + word_be_bytes((x % 0x1_0000_0000) as u32)
}

/// The round constants K of SHA-256.
pub open spec fn k256() -> Seq<u32> {
    seq![
        0x428a2f98u32, 0x71374491, 0xb5c0fbcf, 0xe9b5dba5, 0x3956c25b, 0x59f111f1, 0x923f82a4, 0xab1c5ed5,
        0xd807aa98, 0x12835b01, 0x243185be, 0x550c7dc3, 0x72be5d74, 0x80deb1fe, 0x9bdc06a7, 0xc19bf174,
        0xe49b69c1, 0xefbe4786, 0x0fc19dc6, 0x240ca1cc, 0x2de92c6f, 0x4a7484aa, 0x5cb0a9dc, 0x76f988da,
        0x983e5152, 0xa831c66d, 0xb00327c8, 0xbf597fc7, 0xc6e00bf3, 0xd5a79147, 0x06ca6351, 0x14292967,
        0x27b70a85, 0x2e1b2138, 0x4d2c6dfc, 0x53380d13, 0x650a7354, 0x766a0abb, 0x81c2c92e, 0x92722c85,
        0xa2bfe8a1, 0xa81a664b, 0xc24b8b70, 0xc76c51a3, 0xd192e819, 0xd6990624, 0xf40e3585, 0x106aa070,
        0x19a4c116, 0x1e376c08, 0x2748774c, 0x34b0bcb5, 0x391c0cb3, 0x4ed8aa4a, 0x5b9cca4f, 0x682e6ff3,
        0x748f82ee, 0x78a5636f, 0x84c87814, 0x8cc70208, 0x90befffa, 0xa4506ceb, 0xbef9a3f7, 0xc67178f2,
    ]
}

/// The initial hash value H(0) of SHA-256.
pub open spec fn h256() -> Seq<u32> {
    seq![
        0x6a09e667u32, 0xbb67ae85, 0x3c6ef372, 0xa54ff53a, 0x510e527f, 0x9b05688c, 0x1f83d9ab, 0x5be0cd19,
    ]
}

/// The message schedule word W_t for the sixteen words `m` of a block.
pub open spec fn schedule(m: Seq<u32>, t: nat) -> u32
    decreases t,
{
    if t < 16 {
        m[t as int]
    } else {
        wadd(
            wadd(
                wadd(small_sigma1(schedule(m, (t - 2) as nat)), schedule(m, (t - 7) as nat)),
                small_sigma0(schedule(m, (t - 15) as nat)),
            ),
            schedule(m, (t - 16) as nat),
        )
    }
}

/// One compression round on the working variables `v` = (a, b, c, d, e, f, g, h),
/// with round constant `k` and schedule word `w`.
pub open spec fn round(v: Seq<u32>, k: u32, w: u32) -> Seq<u32> {
    let t1 = wadd(wadd(wadd(wadd(v[7], big_sigma1(v[4])), ch_spec(v[4], v[5], v[6])), k), w);
    let t2 = wadd(big_sigma0(v[0]), maj_spec(v[0], v[1], v[2]));
    seq![wadd(t1, t2), v[0], v[1], v[2], wadd(v[3], t1), v[4], v[5], v[6]]
}

/// The working variables after the first `t` rounds on the block words `m`, starting from `v`.
pub open spec fn rounds(v: Seq<u32>, m: Seq<u32>, t: nat) -> Seq<u32>
    decreases t,
{
    if t == 0 {
        v
    } else {
        let prev = rounds(v, m, (t - 1) as nat);
        round(prev, k256()[t - 1], schedule(m, (t - 1) as nat))
    }
}

/// The hash value after processing one 64-byte block on the hash value `h`.
#[verifier::opaque]
pub open spec fn compress(h: Seq<u32>, block: Seq<u8>) -> Seq<u32> {
    let v = rounds(h, be_words(block), 64);
    Seq::new(8, |i: int| wadd(h[i], v[i]))
}

/// The hash value after processing the first `n` 64-byte blocks of `data`, starting from `h`.
pub open spec fn hash_prefix(h: Seq<u32>, data: Seq<u8>, n: nat) -> Seq<u32>
    decreases n,
{
    if n == 0 {
        h
    } else {
        compress(hash_prefix(h, data, (n - 1) as nat), data.subrange(64 * (n - 1), 64 * n as int))
    }
}

/// The hash value after processing every complete 64-byte block of `data`, starting from `h`.
/// Bytes after the last complete block are not processed.
pub open spec fn hash_blocks(h: Seq<u32>, data: Seq<u8>) -> Seq<u32> {
    hash_prefix(h, data, data.len() / 64)
}

/// The bytes of `data` after its last complete 64-byte block.
pub open spec fn unprocessed(data: Seq<u8>) -> Seq<u8> {
    data.skip(64 * (data.len() / 64) as int)
}

/// The number of zero bytes that follow the 0x80 byte in the padding of a message
/// of `len` bytes, so that the padded length is a multiple of 64.
pub open spec fn zero_pad_len(len: nat) -> nat {
    if len % 64 <= 55 {
        (55 - len % 64) as nat
    } else {
        (119 - len % 64) as nat
    }
}

/// The padding appended to a message of `len` bytes: the byte 0x80, zero bytes, and the
/// message length in bits as a 64-bit big-endian value.
pub open spec fn padding(len: nat) -> Seq<u8> {
    seq![0x80u8] + Seq::new(zero_pad_len(len), |i: int| 0u8) + u64_be_bytes(
        ((8 * len) % 0x1_0000_0000_0000_0000) as u64,
    )
}

/// The SHA-256 digest of a message: the 32 bytes of the final hash value.
pub open spec fn sha256(msg: Seq<u8>) -> Seq<u8> {
    words_be_bytes(hash_blocks(h256(), msg + padding(msg.len())))
}

/// The lower-case hexadecimal digit of a value below 16.
pub open spec fn hex_digit(n: u8) -> char {
    if n < 10 {
        (48 + n) as char
    } else {
        (87 + n) as char
    }
}

/// The lower-case hexadecimal rendering of bytes: two digits per byte, the high half first.
pub open spec fn hex_string(b: Seq<u8>) -> Seq<char> {
    Seq::new(
        2 * b.len(),
        |i: int|
            if i % 2 == 0 {
                hex_digit(b[i / 2] / 16)
            } else {
                hex_digit(b[i / 2] % 16)
            },
    )
}

/// The padding brings every message to a whole number of 64-byte blocks, and is between
/// 9 and 72 bytes long.
pub proof fn law_padding_fills_blocks(len: nat)
    ensures
        (len + padding(len).len()) % 64 == 0,
        9 <= padding(len).len() <= 72,
{
}

/// The first 64 prime numbers.
pub open spec fn first_primes() -> Seq<nat> {
    seq![2, 3, 5, 7, 11, 13, 17, 19, 23, 29, 31, 37, 41, 43, 47, 53, 59, 61, 67, 71, 73, 79, 83, 89, 97, 101, 103, 107, 109, 113, 127, 131, 137, 139, 149, 151, 157, 163, 167, 173, 179, 181, 191, 193, 197, 199, 211, 223, 227, 229, 233, 239, 241, 251, 257, 263, 269, 271, 277, 281, 283, 293, 307, 311]
}

/// The low 32 bits of a number: the fractional part of `v / 2^32`, scaled by 2^32.
pub open spec fn low_word(v: nat) -> nat {
    v % 0x1_0000_0000
}

/// `w` is the first 32 bits of the fractional part of the cube root of `p`.
pub open spec fn cube_root_fraction(p: nat, w: u32) -> bool {
    exists|v: nat|
        #![trigger low_word(v)]
        low_word(v) == w && v * v * v <= p * 0x1_0000_0000_0000_0000_0000_0000 && p
            * 0x1_0000_0000_0000_0000_0000_0000 < (v + 1) * (v + 1) * (v + 1)
}

/// `w` is the first 32 bits of the fractional part of the square root of `p`.
pub open spec fn square_root_fraction(p: nat, w: u32) -> bool {
    exists|v: nat|
        #![trigger low_word(v)]
        low_word(v) == w && v * v <= p * 0x1_0000_0000_0000_0000 && p * 0x1_0000_0000_0000_0000
            < (v + 1) * (v + 1)
}

/// Round constants 0 to 15 are the first 32 bits of the fractional parts of the cube
/// roots of the corresponding primes (FIPS 180-4, 4.2.2).
pub proof fn law_round_constants_0()
    ensures
        forall|i: int| 0 <= i < 16 ==> #[trigger] cube_root_fraction(first_primes()[i], k256()[i]),
{
    assert(cube_root_fraction(2, k256()[0])) by {
        let v: nat = 5411319704;
        let u: nat = 5411319705;
        assert(v * v * v == 158456324954696271903413425664);
        assert(u * u * u == 158456325042543414736343327625);
        assert(low_word(v) == k256()[0]);
    }
    assert(cube_root_fraction(3, k256()[1])) by {
        let v: nat = 6194414737;
        let u: nat = 6194414738;
        assert(v * v * v == 237684487526634504093930213553);
        assert(u * u * u == 237684487641746825914401795272);
        assert(low_word(v) == k256()[1]);
    }
    assert(cube_root_fraction(5, k256()[2])) by {
        let v: nat = 7344290767;
        let u: nat = 7344290768;
        assert(v * v * v == 396140812421957035729610647663);
        assert(u * u * u == 396140812583772856362367864832);
        assert(low_word(v) == k256()[2]);
    }
    assert(cube_root_fraction(7, k256()[3])) by {
        let v: nat = 8215976869;
        let u: nat = 8215976870;
        assert(v * v * v == 554597137497379923456244642909);
        assert(u * u * u == 554597137699886751216721703000);
        assert(low_word(v) == k256()[3]);
    }
    assert(cube_root_fraction(11, k256()[4])) by {
        let v: nat = 9551921755;
        let u: nat = 9551921756;
        assert(v * v * v == 871509787396786137358599443875);
        assert(u * u * u == 871509787670503765028182049216);
        assert(low_word(v) == k256()[4]);
    }
    assert(cube_root_fraction(13, k256()[5])) by {
        let v: nat = 10098905585;
        let u: nat = 10098905586;
        assert(v * v * v == 1029966112467888195207366076625);
        assert(u * u * u == 1029966112773851877281895370056);
        assert(low_word(v) == k256()[5]);
    }
    assert(cube_root_fraction(17, k256()[6])) by {
        let v: nat = 11043570340;
        let u: nat = 11043570341;
        assert(v * v * v == 1346878762492238234708115304000);
        assert(u * u * u == 1346878762858119572304829161821);
        assert(low_word(v) == k256()[6]);
    }
    assert(cube_root_fraction(19, k256()[7])) by {
        let v: nat = 11460697813;
        let u: nat = 11460697814;
        assert(v * v * v == 1505335087434811949617994546797);
        assert(u * u * u == 1505335087828854732735085589144);
        assert(low_word(v) == k256()[7]);
    }
    assert(cube_root_fraction(23, k256()[8])) by {
        let v: nat = 12214315672;
        let u: nat = 12214315673;
        assert(v * v * v == 1822247737543083946400578344448);
        assert(u * u * u == 1822247737990652468443015726217);
        assert(low_word(v) == k256()[8]);
    }
    assert(cube_root_fraction(29, k256()[9])) by {
        let v: nat = 13195500289;
        let u: nat = 13195500290;
        assert(v * v * v == 2297616712771976263054090637569);
        assert(u * u * u == 2297616713294339946724674389000);
        assert(low_word(v) == k256()[9]);
    }
    assert(cube_root_fraction(31, k256()[10])) by {
        let v: nat = 13492127166;
        let u: nat = 13492127167;
        assert(v * v * v == 2456073037773895077846401410296);
        assert(u * u * u == 2456073038320007564277423366463);
        assert(low_word(v) == k256()[10]);
    }
    assert(cube_root_fraction(37, k256()[11])) by {
        let v: nat = 14311783875;
        let u: nat = 14311783876;
        assert(v * v * v == 2931442012514115135672873046875);
        assert(u * u * u == 2931442013128596608769938445376);
        assert(low_word(v) == k256()[11]);
    }
    assert(cube_root_fraction(41, k256()[12])) by {
        let v: nat = 14809980276;
        let u: nat = 14809980277;
        assert(v * v * v == 3248354662461575669626330464576);
        assert(u * u * u == 3248354663119582216997287513933);
        assert(low_word(v) == k256()[12]);
    }
    assert(cube_root_fraction(43, k256()[13])) by {
        let v: nat = 15046980094;
        let u: nat = 15046980095;
        assert(v * v * v == 3406810987956589998818146670584);
        assert(u * u * u == 3406810988635824828710984357375);
        assert(low_word(v) == k256()[13]);
    }
    assert(cube_root_fraction(47, k256()[14])) by {
        let v: nat = 15499789991;
        let u: nat = 15499789992;
        assert(v * v * v == 3723723638064066511575748969271);
        assert(u * u * u == 3723723638784796980917559679488);
        assert(low_word(v) == k256()[14]);
    }
    assert(cube_root_fraction(53, k256()[15])) by {
        let v: nat = 16133124468;
        let u: nat = 16133124469;
        assert(v * v * v == 4199092612623380290372059431232);
        assert(u * u * u == 4199092613404213405720399653709);
        assert(low_word(v) == k256()[15]);
    }
}

/// Round constants 16 to 31 are the first 32 bits of the fractional parts of the cube
/// roots of the corresponding primes (FIPS 180-4, 4.2.2).
pub proof fn law_round_constants_1()
    ensures
        forall|i: int| 16 <= i < 32 ==> #[trigger] cube_root_fraction(first_primes()[i], k256()[i]),
{
    assert(cube_root_fraction(59, k256()[16])) by {
        let v: nat = 16720292289;
        let u: nat = 16720292290;
        assert(v * v * v == 4674461587820870004658436533569);
        assert(u * u * u == 4674461588659574527397375989000);
        assert(low_word(v) == k256()[16]);
    }
    assert(cube_root_fraction(61, k256()[17])) by {
        let v: nat = 16907126662;
        let u: nat = 16907126663;
        assert(v * v * v == 4832917913181499250349606349528);
        assert(u * u * u == 4832917914039052046295061516247);
        assert(low_word(v) == k256()[17]);
    }
    assert(cube_root_fraction(67, k256()[18])) by {
        let v: nat = 17444216262;
        let u: nat = 17444216263;
        assert(v * v * v == 5308286887958071539777923296728);
        assert(u * u * u == 5308286888870973582816531703447);
        assert(low_word(v) == k256()[18]);
    }
    assert(cube_root_fraction(71, k256()[19])) by {
        let v: nat = 17784676812;
        let u: nat = 17784676813;
        assert(v * v * v == 5625199538069185881676309019328);
        assert(u * u * u == 5625199539018070069651534499797);
        assert(low_word(v) == k256()[19]);
    }
    assert(cube_root_fraction(73, k256()[20])) by {
        let v: nat = 17950125167;
        let u: nat = 17950125168;
        assert(v * v * v == 5783655863204610450286238032463);
        assert(u * u * u == 5783655864171231430872988741632);
        assert(low_word(v) == k256()[20]);
    }
    assert(cube_root_fraction(79, k256()[21])) by {
        let v: nat = 18429019306;
        let u: nat = 18429019307;
        assert(v * v * v == 6259024838186485306285295904616);
        assert(u * u * u == 6259024839205371564083345127443);
        assert(low_word(v) == k256()[21]);
    }
    assert(cube_root_fraction(83, k256()[22])) by {
        let v: nat = 18734950876;
        let u: nat = 18734950877;
        assert(v * v * v == 6575937487905473253823645821376);
        assert(u * u * u == 6575937488958468406858250176133);
        assert(low_word(v) == k256()[22]);
    }
    assert(cube_root_fraction(89, k256()[23])) by {
        let v: nat = 19175934170;
        let u: nat = 19175934171;
        assert(v * v * v == 7051306463204732176959042713000);
        assert(u * u * u == 7051306464307881530893091282211);
        assert(low_word(v) == k256()[23]);
    }
    assert(cube_root_fraction(97, k256()[24])) by {
        let v: nat = 19734090066;
        let u: nat = 19734090067;
        assert(v * v * v == 7685131762795650196248888407496);
        assert(u * u * u == 7685131763963953128507090330763);
        assert(low_word(v) == k256()[24]);
    }
    assert(cube_root_fraction(101, k256()[25])) by {
        let v: nat = 20001703533;
        let u: nat = 20001703534;
        assert(v * v * v == 8002044413726424620152753120437);
        assert(u * u * u == 8002044414926629052878832277304);
        assert(low_word(v) == k256()[25]);
    }
    assert(cube_root_fraction(103, k256()[26])) by {
        let v: nat = 20132865992;
        let u: nat = 20132865993;
        assert(v * v * v == 8160500738242569000786566271488);
        assert(u * u * u == 8160500739458565880002455301657);
        assert(low_word(v) == k256()[26]);
    }
    assert(cube_root_fraction(107, k256()[27])) by {
        let v: nat = 20390182855;
        let u: nat = 20390182856;
        assert(v * v * v == 8477413388096019738130074676375);
        assert(u * u * u == 8477413389343298408772253078016);
        assert(low_word(v) == k256()[27]);
    }
    assert(cube_root_fraction(109, k256()[28])) by {
        let v: nat = 20516441075;
        let u: nat = 20516441076;
        assert(v * v * v == 8635869713750669744294167296875);
        assert(u * u * u == 8635869715013442807507558086976);
        assert(low_word(v) == k256()[28]);
    }
    assert(cube_root_fraction(113, k256()[29])) by {
        let v: nat = 20764397895;
        let u: nat = 20764397896;
        assert(v * v * v == 8952782363368919044317202692375);
        assert(u * u * u == 8952782364662399704205137179136);
        assert(low_word(v) == k256()[29]);
    }
    assert(cube_root_fraction(127, k256()[30])) by {
        let v: nat = 21588763473;
        let u: nat = 21588763474;
        assert(v * v * v == 10061976638088049888813988504817);
        assert(u * u * u == 10061976639486274013758171860424);
        assert(low_word(v) == k256()[30]);
    }
    assert(cube_root_fraction(131, k256()[31])) by {
        let v: nat = 21813078375;
        let u: nat = 21813078376;
        assert(v * v * v == 10378889289312554866288833984375);
        assert(u * u * u == 10378889290739986030935951141376);
        assert(low_word(v) == k256()[31]);
    }
}

/// Round constants 32 to 47 are the first 32 bits of the fractional parts of the cube
/// roots of the corresponding primes (FIPS 180-4, 4.2.2).
pub proof fn law_round_constants_2()
    ensures
        forall|i: int| 32 <= i < 48 ==> #[trigger] cube_root_fraction(first_primes()[i], k256()[i]),
{
    assert(cube_root_fraction(137, k256()[32])) by {
        let v: nat = 22141143685;
        let u: nat = 22141143686;
        assert(v * v * v == 10854258264047355445693488944125);
        assert(u * u * u == 10854258265518046176799358512856);
        assert(low_word(v) == k256()[32]);
    }
    assert(cube_root_fraction(139, k256()[33])) by {
        let v: nat = 22248366392;
        let u: nat = 22248366393;
        assert(v * v * v == 11012714588948203200083055308288);
        assert(u * u * u == 11012714590433172621487825700457);
        assert(low_word(v) == k256()[33]);
    }
    assert(cube_root_fraction(149, k256()[34])) by {
        let v: nat = 22769593852;
        let u: nat = 22769593853;
        assert(v * v * v == 11804996214073923282192373686208);
        assert(u * u * u == 11804996215629286494815791061477);
        assert(low_word(v) == k256()[34]);
    }
    assert(cube_root_fraction(151, k256()[35])) by {
        let v: nat = 22871018771;
        let u: nat = 22871018772;
        assert(v * v * v == 11963452538687938460422303128011);
        assert(u * u * u == 11963452540257188959361219235648);
        assert(low_word(v) == k256()[35]);
    }
    assert(cube_root_fraction(157, k256()[36])) by {
        let v: nat = 23170020180;
        let u: nat = 23170020181;
        assert(v * v * v == 12438821513860712732341949832000);
        assert(u * u * u == 12438821515471262237836281589741);
        assert(low_word(v) == k256()[36]);
    }
    assert(cube_root_fraction(163, k256()[37])) by {
        let v: nat = 23461497531;
        let u: nat = 23461497532;
        assert(v * v * v == 12914190489435041535401953572291);
        assert(u * u * u == 12914190491086367134663695352768);
        assert(low_word(v) == k256()[37]);
    }
    assert(cube_root_fraction(167, k256()[38])) by {
        let v: nat = 23651862830;
        let u: nat = 23651862831;
        assert(v * v * v == 13231103139410610724171327187000);
        assert(u * u * u == 13231103141088842570229689602191);
        assert(low_word(v) == k256()[38]);
    }
    assert(cube_root_fraction(173, k256()[39])) by {
        let v: nat = 23931792517;
        let u: nat = 23931792518;
        assert(v * v * v == 13706472114830082916992857852413);
        assert(u * u * u == 13706472116548274996294864815832);
        assert(low_word(v) == k256()[39]);
    }
    assert(cube_root_fraction(179, k256()[40])) by {
        let v: nat = 24205322401;
        let u: nat = 24205322402;
        assert(v * v * v == 14181841089525037310759865247201);
        assert(u * u * u == 14181841091282730208441538428808);
        assert(low_word(v) == k256()[40]);
    }
    assert(cube_root_fraction(181, k256()[41])) by {
        let v: nat = 24295138891;
        let u: nat = 24295138892;
        assert(v * v * v == 14340297413779653893982671081971);
        assert(u * u * u == 14340297415550415215254498628288);
        assert(low_word(v) == k256()[41]);
    }
    assert(cube_root_fraction(191, k256()[42])) by {
        let v: nat = 24734567280;
        let u: nat = 24734567281;
        assert(v * v * v == 15132579038726266808923940352000);
        assert(u * u * u == 15132579040561663264584683849041);
        assert(low_word(v) == k256()[42]);
    }
    assert(cube_root_fraction(193, k256()[43])) by {
        let v: nat = 24820601251;
        let u: nat = 24820601252;
        assert(v * v * v == 15291035365207310435873419616251);
        assert(u * u * u == 15291035367055497175331309715008);
        assert(low_word(v) == k256()[43]);
    }
    assert(cube_root_fraction(197, k256()[44])) by {
        let v: nat = 24990902297;
        let u: nat = 24990902298;
        assert(v * v * v == 15607948013736990215356613752073);
        assert(u * u * u == 15607948015610625808286186087592);
        assert(low_word(v) == k256()[44]);
    }
    assert(cube_root_fraction(199, k256()[45])) by {
        let v: nat = 25075189284;
        let u: nat = 25075189285;
        assert(v * v * v == 15766404339709368128296646858304);
        assert(u * u * u == 15766404341595663481257157724125);
        assert(low_word(v) == k256()[45]);
    }
    assert(cube_root_fraction(211, k256()[46])) by {
        let v: nat = 25569408389;
        let u: nat = 25569408390;
        assert(v * v * v == 16717142289839825496908710767869);
        assert(u * u * u == 16717142291801209433075809719000);
        assert(low_word(v) == k256()[46]);
    }
    assert(cube_root_fraction(223, k256()[47])) by {
        let v: nat = 26045227120;
        let u: nat = 26045227121;
        assert(v * v * v == 17667880240277642050587248128000);
        assert(u * u * u == 17667880242312703617862534292561);
        assert(low_word(v) == k256()[47]);
    }
}

/// Round constants 48 to 63 are the first 32 bits of the fractional parts of the cube
/// roots of the corresponding primes (FIPS 180-4, 4.2.2).
pub proof fn law_round_constants_3()
    ensures
        forall|i: int| 48 <= i < 64 ==> #[trigger] cube_root_fraction(first_primes()[i], k256()[i]),
{
    assert(cube_root_fraction(227, k256()[48])) by {
        let v: nat = 26200031510;
        let u: nat = 26200031511;
        assert(v * v * v == 17984792889251240407145651951000);
        assert(u * u * u == 17984792891310565360599230685831);
        assert(low_word(v) == k256()[48]);
    }
    assert(cube_root_fraction(229, k256()[49])) by {
        let v: nat = 26276752392;
        let u: nat = 26276752393;
        assert(v * v * v == 18143249215109052791717222220288);
        assert(u * u * u == 18143249217180455940607485642457);
        assert(low_word(v) == k256()[49]);
    }
    assert(cube_root_fraction(233, k256()[50])) by {
        let v: nat = 26428864332;
        let u: nat = 26428864333;
        assert(v * v * v == 18460161863993683497003369202368);
        assert(u * u * u == 18460161866089138106720441214037);
        assert(low_word(v) == k256()[50]);
    }
    assert(cube_root_fraction(239, k256()[51])) by {
        let v: nat = 26653801653;
        let u: nat = 26653801654;
        assert(v * v * v == 18935530839030935455213529272077);
        assert(u * u * u == 18935530841162210882965887274264);
        assert(low_word(v) == k256()[51]);
    }
    assert(cube_root_fraction(241, k256()[52])) by {
        let v: nat = 26727943347;
        let u: nat = 26727943348;
        assert(v * v * v == 19093987164281900714371916842923);
        assert(u * u * u == 19093987166425049581133425360192);
        assert(low_word(v) == k256()[52]);
    }
    assert(cube_root_fraction(251, k256()[53])) by {
        let v: nat = 27092625994;
        let u: nat = 27092625995;
        assert(v * v * v == 19886268789125564188936235607784);
        assert(u * u * u == 19886268791327595338769806949875);
        assert(low_word(v) == k256()[53]);
    }
    assert(cube_root_fraction(257, k256()[54])) by {
        let v: nat = 27306805839;
        let u: nat = 27306805840;
        assert(v * v * v == 20361637765122676733924962804719);
        assert(u * u * u == 20361637767359661669393416704000);
        assert(low_word(v) == k256()[54]);
    }
    assert(cube_root_fraction(263, k256()[55])) by {
        let v: nat = 27517677555;
        let u: nat = 27517677556;
        assert(v * v * v == 20837006739346353544218329728875);
        assert(u * u * u == 20837006741618021278363735095616);
        assert(low_word(v) == k256()[55]);
    }
    assert(cube_root_fraction(269, k256()[56])) by {
        let v: nat = 27725365998;
        let u: nat = 27725365999;
        assert(v * v * v == 21312375715490913809224968391992);
        assert(u * u * u == 21312375717797001568477308097999);
        assert(low_word(v) == k256()[56]);
    }
    assert(cube_root_fraction(271, k256()[57])) by {
        let v: nat = 27793908591;
        let u: nat = 27793908592;
        assert(v * v * v == 21470832040758281343762818869071);
        assert(u * u * u == 21470832043075785408140791410688);
        assert(low_word(v) == k256()[57]);
    }
    assert(cube_root_fraction(277, k256()[58])) by {
        let v: nat = 27997534228;
        let u: nat = 27997534229;
        assert(v * v * v == 21946201014963658731086138220352);
        assert(u * u * u == 21946201017315244499714225490989);
        assert(low_word(v) == k256()[58]);
    }
    assert(cube_root_fraction(281, k256()[59])) by {
        let v: nat = 28131656200;
        let u: nat = 28131656201;
        assert(v * v * v == 22263113666263521305616328000000);
        assert(u * u * u == 22263113668637691547365718288601);
        assert(low_word(v) == k256()[59]);
    }
    assert(cube_root_fraction(283, k256()[60])) by {
        let v: nat = 28198240250;
        let u: nat = 28198240251;
        assert(v * v * v == 22421569991207067834370015625000);
        assert(u * u * u == 22421569993592490094044770533251);
        assert(low_word(v) == k256()[60]);
    }
    assert(cube_root_fraction(293, k256()[61])) by {
        let v: nat = 28526537963;
        let u: nat = 28526537964;
        assert(v * v * v == 23213851614557524370566207515347);
        assert(u * u * u == 23213851616998814475115227697344);
        assert(low_word(v) == k256()[61]);
    }
    assert(cube_root_fraction(307, k256()[62])) by {
        let v: nat = 28973835255;
        let u: nat = 28973835256;
        assert(v * v * v == 24323045890120415284473004206375);
        assert(u * u * u == 24323045892638864672711568457216);
        assert(low_word(v) == k256()[62]);
    }
    assert(cube_root_fraction(311, k256()[63])) by {
        let v: nat = 29099129074;
        let u: nat = 29099129075;
        assert(v * v * v == 24639958539679265501747793617224);
        assert(u * u * u == 24639958542219543440431027296875);
        assert(low_word(v) == k256()[63]);
    }
}

/// The words of the initial hash value are the first 32 bits of the fractional parts of the
/// square roots of the first eight primes (FIPS 180-4, 5.3.3).
pub proof fn law_initial_hash_value()
    ensures
        forall|i: int| 0 <= i < 8 ==> #[trigger] square_root_fraction(first_primes()[i], h256()[i]),
{
    assert(square_root_fraction(2, h256()[0])) by {
        let v: nat = 6074000999;
        let u: nat = 6074001000;
        assert(v * v == 36893488135852998001);
        assert(u * u == 36893488148001000000);
        assert(low_word(v) == h256()[0]);
    }
    assert(square_root_fraction(3, h256()[1])) by {
        let v: nat = 7439101573;
        let u: nat = 7439101574;
        assert(v * v == 55340232213411074329);
        assert(u * u == 55340232228289277476);
        assert(low_word(v) == h256()[1]);
    }
    assert(square_root_fraction(5, h256()[2])) by {
        let v: nat = 9603838834;
        let u: nat = 9603838835;
        assert(v * v == 92233720349446479556);
        assert(u * u == 92233720368654157225);
        assert(low_word(v) == h256()[2]);
    }
    assert(square_root_fraction(7, h256()[3])) by {
        let v: nat = 11363415354;
        let u: nat = 11363415355;
        assert(v * v == 129127208507522945316);
        assert(u * u == 129127208530249776025);
        assert(low_word(v) == h256()[3]);
    }
    assert(square_root_fraction(11, h256()[4])) by {
        let v: nat = 14244795007;
        let u: nat = 14244795008;
        assert(v * v == 202914184791452130049);
        assert(u * u == 202914184819941720064);
        assert(low_word(v) == h256()[4]);
    }
    assert(square_root_fraction(13, h256()[5])) by {
        let v: nat = 15485724812;
        let u: nat = 15485724813;
        assert(v * v == 239807672952992435344);
        assert(u * u == 239807672983963884969);
        assert(low_word(v) == h256()[5]);
    }
    assert(square_root_fraction(17, h256()[6])) by {
        let v: nat = 17708603819;
        let u: nat = 17708603820;
        assert(v * v == 313594649218301384761);
        assert(u * u == 313594649253718592400);
        assert(low_word(v) == h256()[6]);
    }
    assert(square_root_fraction(19, h256()[7])) by {
        let v: nat = 18721328409;
        let u: nat = 18721328410;
        assert(v * v == 350488137397630471281);
        assert(u * u == 350488137435073128100);
        assert(low_word(v) == h256()[7]);
    }
}

/// Rotation right by `n` moves bit `(i + n) mod 32` of `x` to bit `i`.
pub proof fn law_rotr_bits(x: u32, n: u32, i: u32)
    requires
        0 < n < 32,
        i < 32,
    ensures
        (rotr(x, n) >> i) & 1 == (x >> ((i + n) % 32)) & 1,
{
    assert((((x >> n) | (x << ((32 - n) as u32))) >> i) & 1 == (x >> ((i + n) % 32)) & 1)
        by (bit_vector)
        requires
            0 < n < 32,
            i < 32,
    ;
}

/// Each bit of Ch(x, y, z) is the bit of `y` where `x` has a one, and the bit of `z` where
/// `x` has a zero.
pub proof fn law_ch_bits(x: u32, y: u32, z: u32, i: u32)
    requires
        i < 32,
    ensures
        (ch_spec(x, y, z) >> i) & 1 == if (x >> i) & 1 == 1 {
            (y >> i) & 1
        } else {
            (z >> i) & 1
        },
{
    assert((((x & y) ^ (!x & z)) >> i) & 1 == if (x >> i) & 1 == 1 {
        (y >> i) & 1
    } else {
        (z >> i) & 1
    }) by (bit_vector)
        requires
            i < 32,
    ;
}

/// Each bit of Maj(x, y, z) is the bit that at least two of `x`, `y`, `z` have there.
pub proof fn law_maj_bits(x: u32, y: u32, z: u32, i: u32)
    requires
        i < 32,
    ensures
        (maj_spec(x, y, z) >> i) & 1 == if ((x >> i) & 1) + ((y >> i) & 1) + ((z >> i) & 1) >= 2 {
            1u32
        } else {
            0u32
        },
{
    assert((((x & y) ^ (x & z) ^ (y & z)) >> i) & 1 == if ((x >> i) & 1) + ((y >> i) & 1) + ((z
        >> i) & 1) >= 2 {
        1u32
    } else {
        0u32
    }) by (bit_vector)
        requires
            i < 32,
    ;
}

/// Bit `i` of Σ0(x) is the exclusive or of the bits of `x` at `i` + 2, 13 and 22, mod 32.
pub proof fn law_big_sigma0_bits(x: u32, i: u32)
    requires
        i < 32,
    ensures
        (big_sigma0(x) >> i) & 1 == ((x >> ((i + 2) % 32)) & 1) ^ ((x >> ((i + 13) % 32)) & 1) ^ ((x >> ((i + 22) % 32)) & 1),
{
    assert((big_sigma0(x) >> i) & 1 == ((x >> ((i + 2) % 32)) & 1) ^ ((x >> ((i + 13) % 32)) & 1) ^ ((x >> ((i + 22) % 32)) & 1))
        by (bit_vector)
        requires
            i < 32,
    ;
}

/// Bit `i` of Σ1(x) is the exclusive or of the bits of `x` at `i` + 6, 11 and 25, mod 32.
pub proof fn law_big_sigma1_bits(x: u32, i: u32)
    requires
        i < 32,
    ensures
        (big_sigma1(x) >> i) & 1 == ((x >> ((i + 6) % 32)) & 1) ^ ((x >> ((i + 11) % 32)) & 1) ^ ((x >> ((i + 25) % 32)) & 1),
{
    assert((big_sigma1(x) >> i) & 1 == ((x >> ((i + 6) % 32)) & 1) ^ ((x >> ((i + 11) % 32)) & 1) ^ ((x >> ((i + 25) % 32)) & 1))
        by (bit_vector)
        requires
            i < 32,
    ;
}

/// Bit `i` of σ0(x) is the exclusive or of the bits of `x` at `i` + 7 and 18, mod 32, and
/// at `i` + 3 where that is below 32.
pub proof fn law_small_sigma0_bits(x: u32, i: u32)
    requires
        i < 32,
    ensures
        (small_sigma0(x) >> i) & 1 == ((x >> ((i + 7) % 32)) & 1) ^ ((x >> ((i + 18) % 32)) & 1) ^ (if i + 3 < 32 { (x >> (i + 3)) & 1 } else { 0u32 }),
{
    assert((small_sigma0(x) >> i) & 1 == ((x >> ((i + 7) % 32)) & 1) ^ ((x >> ((i + 18) % 32)) & 1) ^ (if i + 3 < 32 { (x >> (i + 3)) & 1 } else { 0u32 }))
        by (bit_vector)
        requires
            i < 32,
    ;
}

/// Bit `i` of σ1(x) is the exclusive or of the bits of `x` at `i` + 17 and 19, mod 32, and
/// at `i` + 10 where that is below 32.
pub proof fn law_small_sigma1_bits(x: u32, i: u32)
    requires
        i < 32,
    ensures
        (small_sigma1(x) >> i) & 1 == ((x >> ((i + 17) % 32)) & 1) ^ ((x >> ((i + 19) % 32)) & 1) ^ (if i + 10 < 32 { (x >> (i + 10)) & 1 } else { 0u32 }),
{
    assert((small_sigma1(x) >> i) & 1 == ((x >> ((i + 17) % 32)) & 1) ^ ((x >> ((i + 19) % 32)) & 1) ^ (if i + 10 < 32 { (x >> (i + 10)) & 1 } else { 0u32 }))
        by (bit_vector)
        requires
            i < 32,
    ;
}

/// The four bytes of a word, read as a big-endian number, give the word back.
pub proof fn law_word_be_bytes_value(x: u32)
    ensures
        word_be_bytes(x).len() == 4,
        word_be_bytes(x)[0] * 0x100_0000 + word_be_bytes(x)[1] * 0x1_0000 + word_be_bytes(x)[2]
            * 0x100 + word_be_bytes(x)[3] == x,
{
    let q1 = x / 0x100;
    let q2 = x / 0x1_0000;
    assert(x == q1 * 0x100 + x % 0x100);
    assert(q1 == q2 * 0x100 + q1 % 0x100);
    assert(q1 % 0x100 == (x / 0x100) % 0x100);
    assert(q2 == (x / 0x100_0000) * 0x100 + q2 % 0x100);
}

/// The eight bytes of a 64-bit value, read as a big-endian number, give the value back.
pub proof fn law_u64_be_bytes_value(x: u64)
    ensures
        u64_be_bytes(x).len() == 8,
        u64_be_bytes(x)[0] * 0x100_0000_0000_0000 + u64_be_bytes(x)[1] * 0x1_0000_0000_0000
            + u64_be_bytes(x)[2] * 0x100_0000_0000 + u64_be_bytes(x)[3] * 0x1_0000_0000
            + u64_be_bytes(x)[4] * 0x100_0000 + u64_be_bytes(x)[5] * 0x1_0000 + u64_be_bytes(x)[6]
            * 0x100 + u64_be_bytes(x)[7] == x,
{
    let hi = (x / 0x1_0000_0000) as u32;
    let lo = (x % 0x1_0000_0000) as u32;
    law_word_be_bytes_value(hi);
    law_word_be_bytes_value(lo);
    let b = u64_be_bytes(x);
    assert(b[0] == word_be_bytes(hi)[0] && b[1] == word_be_bytes(hi)[1] && b[2] == word_be_bytes(
        hi,
    )[2] && b[3] == word_be_bytes(hi)[3]);
    assert(b[4] == word_be_bytes(lo)[0] && b[5] == word_be_bytes(lo)[1] && b[6] == word_be_bytes(
        lo,
    )[2] && b[7] == word_be_bytes(lo)[3]);
    assert(hi as int * 0x1_0000_0000 + lo as int == x);
}

/// The bytes of a sequence of words are the words in order, each as four big-endian bytes:
/// bytes `4i .. 4i + 4`, read as a big-endian number, give word `i`.
pub proof fn law_words_be_bytes_order(ws: Seq<u32>)
    ensures
        words_be_bytes(ws).len() == 4 * ws.len(),
        forall|i: int|
            0 <= i < ws.len() ==> #[trigger] ws[i] == words_be_bytes(ws)[4 * i] * 0x100_0000
                + words_be_bytes(ws)[4 * i + 1] * 0x1_0000 + words_be_bytes(ws)[4 * i + 2] * 0x100
                + words_be_bytes(ws)[4 * i + 3],
{
    assert forall|i: int| 0 <= i < ws.len() implies #[trigger] ws[i] == words_be_bytes(ws)[4 * i]
        * 0x100_0000 + words_be_bytes(ws)[4 * i + 1] * 0x1_0000 + words_be_bytes(ws)[4 * i + 2]
        * 0x100 + words_be_bytes(ws)[4 * i + 3] by {
        law_word_be_bytes_value(ws[i]);
        assert((4 * i) / 4 == i && (4 * i + 1) / 4 == i && (4 * i + 2) / 4 == i && (4 * i + 3) / 4
            == i);
        assert((4 * i) % 4 == 0 && (4 * i + 1) % 4 == 1 && (4 * i + 2) % 4 == 2 && (4 * i + 3) % 4
            == 3);
    }
}

/// The padding of a message of `len` bytes (FIPS 180-4, 5.1.1) is the byte 0x80, then zero
/// bytes, then the length of the message in bits, modulo 2^64, as a big-endian 64-bit number.
/// It is the shortest such sequence that brings the message to a whole number of 64-byte
/// blocks: between 9 and 72 bytes long.
pub proof fn law_padding_layout(len: nat)
    ensures
        ({
            let p = padding(len);
            let k = p.len() as int;
            &&& 9 <= k <= 72
            &&& (len + k) % 64 == 0
            &&& p[0] == 0x80
            &&& forall|i: int| 1 <= i < k - 8 ==> #[trigger] p[i] == 0
            &&& p[k - 8] * 0x100_0000_0000_0000 + p[k - 7] * 0x1_0000_0000_0000 + p[k - 6]
                * 0x100_0000_0000 + p[k - 5] * 0x1_0000_0000 + p[k - 4] * 0x100_0000 + p[k - 3]
                * 0x1_0000 + p[k - 2] * 0x100 + p[k - 1] == (8 * len) % 0x1_0000_0000_0000_0000
        }),
{
    let bits = ((8 * len) % 0x1_0000_0000_0000_0000) as u64;
    law_u64_be_bytes_value(bits);
    let p = padding(len);
    let k = p.len() as int;
    let tail = u64_be_bytes(bits);
    assert forall|j: int| 0 <= j < 8 implies p[k - 8 + j] == #[trigger] tail[j] by {}
    assert(p[k - 8] == tail[0] && p[k - 7] == tail[1] && p[k - 6] == tail[2] && p[k - 5] == tail[3]);
    assert(p[k - 4] == tail[4] && p[k - 3] == tail[5] && p[k - 2] == tail[6] && p[k - 1] == tail[7]);
}

} // verus!



