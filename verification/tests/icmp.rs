use ping_rs::utils::{parsovat_ipv4, vypocitat_checksum, vytvorit_icmp_packet, IpAdresa};

/// Reference receiver-side check: the one's-complement sum over the whole
/// buffer, checksum field included, folded and complemented.
fn kontrolni_soucet_vcetne_pole(data: &[u8]) -> u16 {
    let mut suma: u32 = 0;
    let mut i = 0;
    while i + 1 < data.len() {
        suma += ((data[i] as u32) << 8) + (data[i + 1] as u32);
        i += 2;
    }
    if i < data.len() {
        suma += (data[i] as u32) << 8;
    }
    while suma >> 16 > 0 {
        suma = (suma & 0xFFFF) + (suma >> 16);
    }
    !(suma as u16)
}

#[test]
fn checksum_znamy_vektor() {
    // words 0x0800, (field skipped), 0x0001, 0x0001 -> sum 0x0802
    assert_eq!(vypocitat_checksum(&[8, 0, 0, 0, 0, 1, 0, 1]), 0xF7FD);
}

#[test]
fn checksum_prazdny_buffer() {
    assert_eq!(vypocitat_checksum(&[]), 0xFFFF);
}

#[test]
fn checksum_lichy_buffer() {
    // word 0x0102; the odd byte at offset 2 belongs to the checksum field
    assert_eq!(vypocitat_checksum(&[1, 2, 3]), 0xFEFD);
}

#[test]
fn checksum_licha_data() {
    // words 0x0100, 0x0000 (field), 0x0200 and the padded tail 0x0300
    assert_eq!(vypocitat_checksum(&[1, 0, 0, 0, 2, 0, 3]), !0x0600u16);
}

#[test]
fn checksum_kruh() {
    // P1 at run time: write the computed checksum back, then a full
    // recomputation including the field comes out zero.
    let vzorky: Vec<Vec<u8>> = vec![
        vec![8, 0, 0, 0, 0, 1, 0, 7],
        vec![8, 0, 0xAB, 0xCD, 0, 1, 0, 7, 1, 2, 3],
        vec![0xFF; 40],
        vec![0, 0, 0, 0],
    ];
    for mut data in vzorky {
        let ck = vypocitat_checksum(&data);
        data[2] = (ck >> 8) as u8;
        data[3] = (ck & 0xFF) as u8;
        assert_eq!(kontrolni_soucet_vcetne_pole(&data), 0);
    }
}

#[test]
fn packet_tvar() {
    // P3: length, type, code, big-endian sequence number, filler pattern.
    let packet = vytvorit_icmp_packet(32, 7);
    assert_eq!(packet.len(), 40);
    assert_eq!(packet[0], 8);
    assert_eq!(packet[1], 0);
    assert_eq!(packet[4], 0);
    assert_eq!(packet[5], 1);
    assert_eq!(packet[6], 0);
    assert_eq!(packet[7], 7);
    for i in 0..32 {
        assert_eq!(packet[8 + i], (i % 256) as u8);
    }
}

#[test]
fn packet_sekvence_big_endian() {
    let packet = vytvorit_icmp_packet(0, 0xABCD);
    assert_eq!(packet.len(), 8);
    assert_eq!(packet[6], 0xAB);
    assert_eq!(packet[7], 0xCD);
}

#[test]
fn packet_determinismus() {
    // P2: identical arguments give byte-identical packets.
    assert_eq!(vytvorit_icmp_packet(56, 3), vytvorit_icmp_packet(56, 3));
    assert_eq!(vytvorit_icmp_packet(0, 65535), vytvorit_icmp_packet(0, 65535));
}

#[test]
fn packet_checksum_plati() {
    for velikost in [0usize, 1, 15, 32, 1000] {
        for seq in [0u16, 1, 256, 65535] {
            let packet = vytvorit_icmp_packet(velikost, seq);
            assert_eq!(kontrolni_soucet_vcetne_pole(&packet), 0);
        }
    }
}

#[test]
fn parsovat_ipv4_loopback() {
    // P4: the literal resolves by parsing alone, to that exact address.
    assert_eq!(
        parsovat_ipv4(b"127.0.0.1"),
        Some(IpAdresa::V4 { a: 127, b: 0, c: 0, d: 1 })
    );
}

#[test]
fn parsovat_ipv4_platne() {
    assert_eq!(
        parsovat_ipv4(b"255.255.255.255"),
        Some(IpAdresa::V4 { a: 255, b: 255, c: 255, d: 255 })
    );
    assert_eq!(
        parsovat_ipv4(b"0.0.0.0"),
        Some(IpAdresa::V4 { a: 0, b: 0, c: 0, d: 0 })
    );
    assert_eq!(
        parsovat_ipv4(b"192.168.10.250"),
        Some(IpAdresa::V4 { a: 192, b: 168, c: 10, d: 250 })
    );
}

#[test]
fn parsovat_ipv4_neplatne() {
    assert_eq!(parsovat_ipv4(b""), None);
    assert_eq!(parsovat_ipv4(b"localhost"), None);
    assert_eq!(parsovat_ipv4(b"this-host-does-not-exist.invalid"), None);
    assert_eq!(parsovat_ipv4(b"256.0.0.1"), None);
    assert_eq!(parsovat_ipv4(b"1.2.3"), None);
    assert_eq!(parsovat_ipv4(b"1.2.3.4.5"), None);
    assert_eq!(parsovat_ipv4(b"01.2.3.4"), None);
    assert_eq!(parsovat_ipv4(b"1.2.3."), None);
    assert_eq!(parsovat_ipv4(b".1.2.3"), None);
    assert_eq!(parsovat_ipv4(b"1..2.3"), None);
    assert_eq!(parsovat_ipv4(b"1.2.3.4 "), None);
    assert_eq!(parsovat_ipv4(b"1234.5.6.7"), None);
    assert_eq!(parsovat_ipv4(b"::1"), None);
}
