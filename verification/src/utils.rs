//! ICMP Echo Request construction: the Internet checksum and the packet
//! layout, each verified against a mathematical model of the byte sequence.

use vstd::prelude::*;
use vstd::arithmetic::div_mod::{
    lemma_fundamental_div_mod, lemma_mod_multiples_vanish, lemma_add_mod_noop, lemma_small_mod,
};

verus! {

/// Largest buffer length the checksum accepts: with at most 65535 words the
/// 32-bit accumulator cannot overflow.
pub const MAX_DELKA_CHECKSUMU: usize = 131070;

/// The big-endian 16-bit word with index `k` (byte offsets `2k` and
/// `2k + 1`); when the buffer ends after the high byte, the low byte is
/// taken as zero.
pub open spec fn slovo(data: Seq<u8>, k: int) -> int {
    if 2 * k + 1 < data.len() {
        (data[2 * k] as int) * 256 + (data[2 * k + 1] as int)
    } else {
        (data[2 * k] as int) * 256
    }
}

/// How many 16-bit words cover `delka` bytes.
pub open spec fn pocet_slov(delka: int) -> int {
    (delka + 1) / 2
}

/// Sum of the first `n` big-endian words of `data`. With `preskocit_pole`
/// the word with index 1 — the checksum field at byte offsets 2 and 3 — is
/// taken as zero.
pub open spec fn soucet_slov(data: Seq<u8>, n: int, preskocit_pole: bool) -> int
    decreases n,
{
    if n <= 0 {
        0
    } else {
        soucet_slov(data, n - 1, preskocit_pole) + if preskocit_pole && n - 1 == 1 {
            0
        } else {
            slovo(data, n - 1)
        }
    }
}

/// Folds the carries of a non-negative accumulator: adds the upper 16 bits
/// into the lower 16 until the value fits in 16 bits.
pub open spec fn slozit_prenosy(s: int) -> int
    decreases s,
{
    if s < 0x10000 {
        s
    } else {
        slozit_prenosy(s % 0x10000 + s / 0x10000)
    }
}

/// The checksum accumulator of `data`: the word sum with the checksum field
/// taken as zero.
pub open spec fn icmp_suma(data: Seq<u8>) -> int {
    soucet_slov(data, pocet_slov(data.len() as int), true)
}

/// What the checksum of `data` is: the one's complement of the folded word
/// sum, with the checksum field taken as zero.
pub open spec fn checksum_spec(data: Seq<u8>) -> int {
    0xFFFF - slozit_prenosy(icmp_suma(data))
}

/// A partial word sum of `n` words lies between 0 and `n * 0xFFFF`.
proof fn lemma_soucet_slov_mez(data: Seq<u8>, n: int, preskocit_pole: bool)
    requires
        0 <= n,
        2 * n <= data.len() + 1,
    ensures
        0 <= soucet_slov(data, n, preskocit_pole) <= n * 0xFFFF,
    decreases n,
{
    if n > 0 {
        lemma_soucet_slov_mez(data, n - 1, preskocit_pole);
    }
}

/// Computes the Internet checksum of `data`: the one's complement of the
/// end-around-carry sum of its big-endian 16-bit words, with the checksum
/// field (byte offsets 2 and 3) treated as zero, and an odd final byte
/// padded with a zero low byte.
pub fn vypocitat_checksum(data: &[u8]) -> (r: u16)
    requires
        data@.len() <= MAX_DELKA_CHECKSUMU,
    ensures
        r as int == checksum_spec(data@),
{
    let delka: usize = data.len();
    let mut suma: u32 = 0;
    let mut i: usize = 0;

    while i + 1 < delka
        invariant
            delka == data@.len() <= MAX_DELKA_CHECKSUMU,
            i % 2 == 0,
            i <= delka,
            suma as int == soucet_slov(data@, i as int / 2, true),
        decreases delka - i,
    {
        if i != 2 {
            proof {
                lemma_soucet_slov_mez(data@, i as int / 2, true);
            }
            let hodnota: u32 = (data[i] as u32) * 256 + (data[i + 1] as u32);
            suma = suma + hodnota;
        }
        i = i + 2;
    }

    if i < delka && i != 2 {
        proof {
            lemma_soucet_slov_mez(data@, i as int / 2, true);
        }
        suma = suma + (data[i] as u32) * 256;
        assert(suma as int == soucet_slov(data@, i as int / 2 + 1, true));
    }

    assert(suma as int == icmp_suma(data@));

    let ghost suma_pred: int = suma as int;
    while suma >= 0x10000
        invariant
            slozit_prenosy(suma as int) == slozit_prenosy(suma_pred),
        decreases suma,
    {
        let nova: u32 = suma % 0x10000 + suma / 0x10000;
        proof {
            lemma_fundamental_div_mod(suma as int, 0x10000);
        }
        suma = nova;
    }

    (0xFFFF - suma) as u16
}

/// The word sum of `data` with the checksum field counted as it stands.
pub open spec fn plna_suma(data: Seq<u8>) -> int {
    soucet_slov(data, pocet_slov(data.len() as int), false)
}

/// A full recomputation of the checksum over `data`, the checksum field
/// included instead of zeroed — what a receiver computes to validate.
pub open spec fn kontrola_prijemce(data: Seq<u8>) -> int {
    0xFFFF - slozit_prenosy(plna_suma(data))
}

/// The folded sum stays congruent to the accumulator modulo 0xFFFF, lies
/// within 16 bits, and vanishes only on a zero accumulator.
proof fn lemma_slozit_vlastnosti(s: int)
    requires
        0 <= s,
    ensures
        0 <= slozit_prenosy(s) <= 0xFFFF,
        slozit_prenosy(s) % 0xFFFF == s % 0xFFFF,
        slozit_prenosy(s) == 0 <==> s == 0,
    decreases s,
{
    if s >= 0x10000 {
        let q = s / 0x10000;
        let r = s % 0x10000;
        lemma_fundamental_div_mod(s, 0x10000);
        let dalsi = r + q;
        assert(s == 0xFFFF * q + dalsi);
        lemma_slozit_vlastnosti(dalsi);
        lemma_mod_multiples_vanish(q, dalsi, 0xFFFF);
    }
}

/// Word sums that skip the checksum field agree on buffers that differ
/// only at byte offsets 2 and 3.
proof fn lemma_soucet_slov_preskok(data1: Seq<u8>, data2: Seq<u8>, n: int)
    requires
        data1.len() == data2.len(),
        forall|j: int| 0 <= j < data1.len() && j != 2 && j != 3 ==> data1[j] == data2[j],
        0 <= n,
        2 * n <= data1.len() + 1,
    ensures
        soucet_slov(data1, n, true) == soucet_slov(data2, n, true),
    decreases n,
{
    if n > 0 {
        lemma_soucet_slov_preskok(data1, data2, n - 1);
    }
}

/// A full word sum of at least two words is the field-zeroed sum plus the
/// word in the checksum field.
proof fn lemma_soucet_slov_plny(data: Seq<u8>, n: int)
    requires
        2 <= n,
        2 * n <= data.len() + 1,
    ensures
        soucet_slov(data, n, false) == soucet_slov(data, n, true) + slovo(data, 1),
    decreases n,
{
    if n > 2 {
        lemma_soucet_slov_plny(data, n - 1);
    } else {
        assert(soucet_slov(data, 0, false) == 0);
        assert(soucet_slov(data, 0, true) == 0);
        assert(soucet_slov(data, 1, false) == slovo(data, 0));
        assert(soucet_slov(data, 1, true) == slovo(data, 0));
        assert(soucet_slov(data, 2, false) == slovo(data, 0) + slovo(data, 1));
        assert(soucet_slov(data, 2, true) == slovo(data, 0));
    }
}

/// The Internet checksum round trip: writing `checksum_spec(data)`
/// big-endian into the checksum field of `data` makes a full recomputation
/// over the written buffer — this time with the field included — come out
/// zero. What stood in the field beforehand does not matter, because the
/// checksum itself treats those two bytes as zero.
pub proof fn lemma_checksum_kruh(data: Seq<u8>)
    requires
        4 <= data.len(),
    ensures
        ({
            let ck = checksum_spec(data);
            let zapsano = data.update(2, (ck / 256) as u8).update(3, (ck % 256) as u8);
            kontrola_prijemce(zapsano) == 0
        }),
{
    let delka = data.len() as int;
    let n = pocet_slov(delka);
    let soucet = icmp_suma(data);
    let slozeny = slozit_prenosy(soucet);
    let ck = checksum_spec(data);
    let zapsano = data.update(2, (ck / 256) as u8).update(3, (ck % 256) as u8);

    lemma_soucet_slov_mez(data, n, true);
    lemma_slozit_vlastnosti(soucet);
    assert(0 <= ck <= 0xFFFF);

    // The field-zeroed sum ignores the two written bytes.
    lemma_soucet_slov_preskok(zapsano, data, n);
    assert(icmp_suma(zapsano) == soucet);

    // The word in the checksum field of the written buffer is the checksum.
    lemma_fundamental_div_mod(ck, 256);
    assert(slovo(zapsano, 1) == ck);

    // Hence the full sum is the field-zeroed sum plus the checksum.
    lemma_soucet_slov_plny(zapsano, n);
    let plna = plna_suma(zapsano);
    assert(plna == soucet + ck);

    // The full sum is positive and a multiple of 0xFFFF.
    assert(plna > 0) by {
        if soucet == 0 {
            assert(slozeny == 0);
        }
    }
    assert(plna % 0xFFFF == 0) by {
        let a = soucet / 0xFFFF;
        let b = slozeny / 0xFFFF;
        lemma_fundamental_div_mod(soucet, 0xFFFF);
        lemma_fundamental_div_mod(slozeny, 0xFFFF);
        assert(plna == 0xFFFF * (a - b + 1) + 0);
        lemma_mod_multiples_vanish(a - b + 1, 0, 0xFFFF);
        lemma_small_mod(0, 0xFFFF);
    }

    // A positive 16-bit fold congruent to zero can only be 0xFFFF itself.
    lemma_slozit_vlastnosti(plna);
    let slozena_plna = slozit_prenosy(plna);
    assert(slozena_plna == 0xFFFF) by {
        if slozena_plna < 0xFFFF {
            lemma_small_mod(slozena_plna as nat, 0xFFFF);
        }
    }
}

/// Largest ICMP payload the packet builder accepts; the packet itself then
/// stays within what the checksum accepts.
pub const MAX_VELIKOST_DAT: usize = 131062;

/// The fixed identifier the builder writes into byte offsets 4 and 5.
pub const IDENTIFIKATOR: u16 = 1;

/// An Echo Request of `velikost` payload bytes before the checksum is
/// written: type 8, code 0, a zeroed checksum field, identifier 1, the
/// big-endian sequence number, then the payload filler `(i % 256)`.
pub open spec fn packet_bez_checksumu(velikost: int, sekvencni_cislo: u16) -> Seq<u8> {
    Seq::new(
        (velikost + 8) as nat,
        |i: int|
            if i == 0 {
                8u8
            } else if i == 5 {
                1u8
            } else if i == 6 {
                (sekvencni_cislo / 256) as u8
            } else if i == 7 {
                (sekvencni_cislo % 256) as u8
            } else if i >= 8 {
                ((i - 8) % 256) as u8
            } else {
                0u8
            },
    )
}

/// What the packet builder returns: the zero-checksum packet with the
/// checksum of that very byte sequence written big-endian at offsets 2
/// and 3.
pub open spec fn icmp_packet_spec(velikost: int, sekvencni_cislo: u16) -> Seq<u8> {
    let bez = packet_bez_checksumu(velikost, sekvencni_cislo);
    let ck = checksum_spec(bez);
    bez.update(2, (ck / 256) as u8).update(3, (ck % 256) as u8)
}

/// Builds an ICMP Echo Request carrying `velikost` payload bytes and the
/// given sequence number, checksummed and ready to send.
pub fn vytvorit_icmp_packet(velikost: usize, sekvencni_cislo: u16) -> (r: Vec<u8>)
    requires
        velikost <= MAX_VELIKOST_DAT,
    ensures
        r@ == icmp_packet_spec(velikost as int, sekvencni_cislo),
        r@.len() == velikost + 8,
        r@[0] == 8u8,
        r@[1] == 0u8,
        r@[6] == (sekvencni_cislo / 256) as u8,
        r@[7] == (sekvencni_cislo % 256) as u8,
{
    let ghost bez: Seq<u8> = packet_bez_checksumu(velikost as int, sekvencni_cislo);
    let mut packet: Vec<u8> = Vec::new();

    // ICMP type: Echo Request (8); code 0.
    packet.push(8);
    packet.push(0);
    // Checksum field, written after the whole packet exists.
    packet.push(0);
    packet.push(0);
    // Identifier.
    packet.push(0);
    packet.push(1);
    // Sequence number, big-endian.
    packet.push((sekvencni_cislo / 256) as u8);
    packet.push((sekvencni_cislo % 256) as u8);

    let mut i: usize = 0;
    while i < velikost
        invariant
            i <= velikost <= MAX_VELIKOST_DAT,
            packet@.len() == i + 8,
            forall|j: int| 0 <= j < i + 8 ==> packet@[j] == bez[j],
            bez == packet_bez_checksumu(velikost as int, sekvencni_cislo),
        decreases velikost - i,
    {
        packet.push((i % 256) as u8);
        i = i + 1;
    }

    assert(packet@ =~= bez);

    let ck: u16 = vypocitat_checksum(packet.as_slice());
    packet[2] = (ck / 256) as u8;
    packet[3] = (ck % 256) as u8;

    assert(packet@ =~= icmp_packet_spec(velikost as int, sekvencni_cislo));
    packet
}

/// A receiver that recomputes the checksum over a built packet — its
/// checksum field included — gets zero.
pub proof fn lemma_packet_checksum_kruh(velikost: int, sekvencni_cislo: u16)
    requires
        0 <= velikost,
    ensures
        kontrola_prijemce(icmp_packet_spec(velikost, sekvencni_cislo)) == 0,
{
    let bez = packet_bez_checksumu(velikost, sekvencni_cislo);
    lemma_checksum_kruh(bez);
}

/// The packet builder is a function of its two arguments alone: two builds
/// with the same payload size and sequence number are byte-identical.
pub proof fn lemma_packet_deterministicky(
    velikost: int,
    sekvencni_cislo: u16,
    prvni: Seq<u8>,
    druhy: Seq<u8>,
)
    requires
        prvni == icmp_packet_spec(velikost, sekvencni_cislo),
        druhy == icmp_packet_spec(velikost, sekvencni_cislo),
    ensures
        prvni == druhy,
{
}

/// Whether `uplynulo_us` microseconds have reached a deadline of
/// `timeout_secs` seconds.
pub fn elapsed_timeout(uplynulo_us: u64, timeout_secs: u64) -> (r: bool)
    ensures
        r <==> uplynulo_us as int >= timeout_secs as int * 1000000,
{
    uplynulo_us / 1000000 >= timeout_secs
}

/// A single concrete IP address a run probes, v4 or v6.
#[derive(Clone, Copy, PartialEq, Eq, Debug)]
pub enum IpAdresa {
    /// An IPv4 address, octets in the order they are written.
    V4 { a: u8, b: u8, c: u8, d: u8 },
    /// An IPv6 address as its eight 16-bit groups.
    V6 { skupiny: [u16; 8] },
}

/// An ASCII decimal digit.
pub open spec fn je_cislice(b: u8) -> bool {
    48 <= b <= 57
}

/// The number a string of decimal digits denotes.
pub open spec fn hodnota_cislic(s: Seq<u8>) -> int
    decreases s.len(),
{
    if s.len() == 0 {
        0
    } else {
        hodnota_cislic(s.drop_last()) * 10 + (s.last() - 48)
    }
}

/// A valid dotted-quad part: one to three decimal digits, no leading zero
/// unless the part is exactly "0", denoting at most 255.
pub open spec fn je_platna_cast(s: Seq<u8>) -> bool {
    &&& 1 <= s.len() <= 3
    &&& (forall|t: int| 0 <= t < s.len() ==> je_cislice(#[trigger] s[t]))
    &&& hodnota_cislic(s) <= 255
    &&& (s.len() > 1 ==> s[0] != 48u8)
}

/// Dots at `i < j < k` cut `s` into four valid dotted-quad parts.
pub open spec fn platne_rozdeleni(s: Seq<u8>, i: int, j: int, k: int) -> bool {
    &&& 0 <= i < j < k < s.len()
    &&& s[i] == 46u8
    &&& s[j] == 46u8
    &&& s[k] == 46u8
    &&& je_platna_cast(s.subrange(0, i))
    &&& je_platna_cast(s.subrange(i + 1, j))
    &&& je_platna_cast(s.subrange(j + 1, k))
    &&& je_platna_cast(s.subrange(k + 1, s.len() as int))
}

/// Whether `s` is a literal IPv4 address in dotted-quad notation.
pub open spec fn je_ipv4_literal(s: Seq<u8>) -> bool {
    exists|i: int, j: int, k: int| platne_rozdeleni(s, i, j, k)
}

/// The address a valid dotted quad denotes.
pub open spec fn ipv4_z_rozdeleni(s: Seq<u8>, i: int, j: int, k: int) -> IpAdresa {
    IpAdresa::V4 {
        a: hodnota_cislic(s.subrange(0, i)) as u8,
        b: hodnota_cislic(s.subrange(i + 1, j)) as u8,
        c: hodnota_cislic(s.subrange(j + 1, k)) as u8,
        d: hodnota_cislic(s.subrange(k + 1, s.len() as int)) as u8,
    }
}

/// In a valid dotted quad the dots stand exactly at the three cut points:
/// everything else is a digit.
proof fn lemma_tecky_prave(s: Seq<u8>, i: int, j: int, k: int)
    requires
        platne_rozdeleni(s, i, j, k),
    ensures
        forall|q: int| 0 <= q < s.len() ==> ((#[trigger] s[q]) == 46u8 <==> q == i || q == j || q == k),
{
    assert forall|q: int| 0 <= q < s.len() implies ((#[trigger] s[q]) == 46u8 <==> q == i || q == j
        || q == k) by {
        if q < i {
            assert(s.subrange(0, i)[q] == s[q]);
        } else if i < q < j {
            assert(s.subrange(i + 1, j)[q - i - 1] == s[q]);
        } else if j < q < k {
            assert(s.subrange(j + 1, k)[q - j - 1] == s[q]);
        } else if k < q {
            assert(s.subrange(k + 1, s.len() as int)[q - k - 1] == s[q]);
        }
    }
}

/// A string is a valid dotted quad in at most one way.
proof fn lemma_rozdeleni_jednoznacne(s: Seq<u8>, i: int, j: int, k: int, i2: int, j2: int, k2: int)
    requires
        platne_rozdeleni(s, i, j, k),
        platne_rozdeleni(s, i2, j2, k2),
    ensures
        i == i2 && j == j2 && k == k2,
{
    lemma_tecky_prave(s, i, j, k);
    lemma_tecky_prave(s, i2, j2, k2);
}

/// Finds the first dot in `text` at or after `od`.
fn najit_tecku(text: &[u8], od: usize) -> (r: Option<usize>)
    requires
        od <= text@.len(),
    ensures
        match r {
            Some(p) => od <= p < text@.len() && text@[p as int] == 46u8 && (forall|q: int|
                od <= q < p ==> (#[trigger] text@[q]) != 46u8),
            None => forall|q: int| od <= q < text@.len() ==> (#[trigger] text@[q]) != 46u8,
        },
{
    let mut p: usize = od;
    while p < text.len()
        invariant
            od <= p <= text@.len(),
            forall|q: int| od <= q < p ==> (#[trigger] text@[q]) != 46u8,
        decreases text@.len() - p,
    {
        if text[p] == 46 {
            return Some(p);
        }
        p = p + 1;
    }
    None
}

/// Reads the dotted-quad part `text[od..konec]`: its value when the part is
/// valid, nothing when it is not.
fn zpracovat_cast(text: &[u8], od: usize, konec: usize) -> (r: Option<u8>)
    requires
        od <= konec <= text@.len(),
    ensures
        match r {
            Some(v) => je_platna_cast(text@.subrange(od as int, konec as int)) && v
                == hodnota_cislic(text@.subrange(od as int, konec as int)),
            None => !je_platna_cast(text@.subrange(od as int, konec as int)),
        },
{
    let ghost cast: Seq<u8> = text@.subrange(od as int, konec as int);
    let delka: usize = konec - od;
    if delka < 1 || delka > 3 {
        return None;
    }
    if delka > 1 && text[od] == 48 {
        proof {
            assert(cast[0] == text@[od as int]);
        }
        return None;
    }
    let mut hodnota: u16 = 0;
    let mut t: usize = od;
    while t < konec
        invariant
            od <= t <= konec <= text@.len(),
            konec - od <= 3,
            cast == text@.subrange(od as int, konec as int),
            forall|q: int| od <= q < t ==> je_cislice(#[trigger] text@[q]),
            hodnota as int == hodnota_cislic(text@.subrange(od as int, t as int)),
            hodnota < 1000,
            t - od == 0 ==> hodnota == 0,
            t - od == 1 ==> hodnota <= 9,
            t - od == 2 ==> hodnota <= 99,
        decreases konec - t,
    {
        let b: u8 = text[t];
        if b < 48 || b > 57 {
            proof {
                assert(cast[t - od] == text@[t as int]);
            }
            return None;
        }
        proof {
            let stara = text@.subrange(od as int, t as int);
            let nova = text@.subrange(od as int, t + 1);
            assert(nova.drop_last() =~= stara);
            assert(nova.last() == text@[t as int]);
        }
        hodnota = hodnota * 10 + ((b - 48) as u16);
        t = t + 1;
    }
    proof {
        assert(forall|q: int| 0 <= q < cast.len() ==> je_cislice(#[trigger] cast[q]) == je_cislice(
            text@[od + q],
        ));
    }
    if hodnota > 255 {
        return None;
    }
    Some(hodnota as u8)
}

/// Parses `text` as a literal IPv4 address in dotted-quad notation. Returns
/// the denoted address exactly when `text` is such a literal; anything else
/// — a hostname, an IPv6 literal — yields nothing and is left to a
/// resolver.
pub fn parsovat_ipv4(text: &[u8]) -> (r: Option<IpAdresa>)
    ensures
        r is Some <==> je_ipv4_literal(text@),
        forall|i: int, j: int, k: int|
            platne_rozdeleni(text@, i, j, k) ==> r == Some(ipv4_z_rozdeleni(text@, i, j, k)),
{
    let s = text;
    let delka: usize = s.len();
    let p0 = match najit_tecku(s, 0) {
        Some(p) => p,
        None => {
            proof {
                if je_ipv4_literal(s@) {
                    let (i, j, k) = choose|i: int, j: int, k: int| platne_rozdeleni(s@, i, j, k);
                    assert(s@[i] == 46u8);
                }
            }
            return None;
        }
    };
    assert(p0 < delka);
    let p1 = match najit_tecku(s, p0 + 1) {
        Some(p) => p,
        None => {
            proof {
                if je_ipv4_literal(s@) {
                    let (i, j, k) = choose|i: int, j: int, k: int| platne_rozdeleni(s@, i, j, k);
                    lemma_tecky_prave(s@, i, j, k);
                    assert(s@[j] == 46u8 && j > i >= p0);
                }
            }
            return None;
        }
    };
    assert(p1 < delka);
    let p2 = match najit_tecku(s, p1 + 1) {
        Some(p) => p,
        None => {
            proof {
                if je_ipv4_literal(s@) {
                    let (i, j, k) = choose|i: int, j: int, k: int| platne_rozdeleni(s@, i, j, k);
                    lemma_tecky_prave(s@, i, j, k);
                    assert(i == p0 && j == p1);
                    assert(s@[k] == 46u8 && k >= p1 + 1);
                }
            }
            return None;
        }
    };
    assert(p2 < delka);
    if let Some(navic) = najit_tecku(s, p2 + 1) {
        proof {
            if je_ipv4_literal(s@) {
                let (i, j, k) = choose|i: int, j: int, k: int| platne_rozdeleni(s@, i, j, k);
                lemma_tecky_prave(s@, i, j, k);
                assert(i == p0 && j == p1 && k == p2);
                assert(s@.subrange(k + 1, s@.len() as int)[navic - k - 1] == s@[navic as int]);
            }
        }
        return None;
    }
    let a = zpracovat_cast(s, 0, p0);
    let b = zpracovat_cast(s, p0 + 1, p1);
    let c = zpracovat_cast(s, p1 + 1, p2);
    let d = zpracovat_cast(s, p2 + 1, s.len());
    match (a, b, c, d) {
        (Some(a), Some(b), Some(c), Some(d)) => {
            proof {
                assert(platne_rozdeleni(s@, p0 as int, p1 as int, p2 as int));
                assert forall|i: int, j: int, k: int| platne_rozdeleni(s@, i, j, k) implies i
                    == p0 as int && j == p1 as int && k == p2 as int by {
                    lemma_rozdeleni_jednoznacne(s@, i, j, k, p0 as int, p1 as int, p2 as int);
                }
            }
            Some(IpAdresa::V4 { a, b, c, d })
        }
        _ => {
            proof {
                if je_ipv4_literal(s@) {
                    let (i, j, k) = choose|i: int, j: int, k: int| platne_rozdeleni(s@, i, j, k);
                    lemma_tecky_prave(s@, i, j, k);
                    assert(i == p0 && j == p1 && k == p2);
                }
            }
            None
        }
    }
}

} // verus!
