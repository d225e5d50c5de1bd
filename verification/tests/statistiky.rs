use ping_rs::cli::Args;
use ping_rs::ping::{
    ma_cekat_po_probe, vyhodnotit_chybu_prijmu, vyhodnotit_kolo, vyhodnotit_prijem, ChybaPingu,
    DuvodZtraty, PingStatistiky, VysledekPingu,
};
use ping_rs::utils::elapsed_timeout;

#[test]
fn statistiky_nove() {
    let s = PingStatistiky::nova();
    assert_eq!(s.odeslano, 0);
    assert_eq!(s.prijato, 0);
    assert_eq!(s.ztraceno, 0);
    assert_eq!(s.min_cas, None);
    assert_eq!(s.max_cas, None);
    assert_eq!(s.celkovy_cas, 0);
    assert_eq!(s.prumer(), None);
    assert_eq!(s.procento_ztraty(), 0);
}

#[test]
fn statistiky_min_max_prumer() {
    // P5 on concrete values: counters and extremes are the true ones.
    let mut s = PingStatistiky::nova();
    s.zaznamenat(&VysledekPingu::Odpoved { cas_us: 10 });
    s.zaznamenat(&VysledekPingu::Odpoved { cas_us: 5 });
    s.zaznamenat(&VysledekPingu::Ztracen { duvod: DuvodZtraty::Timeout });
    s.zaznamenat(&VysledekPingu::Odpoved { cas_us: 20 });
    assert_eq!(s.odeslano, 4);
    assert_eq!(s.prijato, 3);
    assert_eq!(s.ztraceno, 1);
    assert_eq!(s.min_cas, Some(5));
    assert_eq!(s.max_cas, Some(20));
    assert_eq!(s.celkovy_cas, 35);
    assert_eq!(s.prumer(), Some(11));
    assert_eq!(s.procento_ztraty(), 250);
}

#[test]
fn kolo_vsechny_odpovedi() {
    // P6: three replies of 10.0, 20.0, 30.0 ms.
    let vysledky = vec![
        VysledekPingu::Odpoved { cas_us: 10_000 },
        VysledekPingu::Odpoved { cas_us: 20_000 },
        VysledekPingu::Odpoved { cas_us: 30_000 },
    ];
    let s = vyhodnotit_kolo(&vysledky);
    assert_eq!(s.odeslano, 3);
    assert_eq!(s.prijato, 3);
    assert_eq!(s.ztraceno, 0);
    assert_eq!(s.min_cas, Some(10_000));
    assert_eq!(s.max_cas, Some(30_000));
    assert_eq!(s.prumer(), Some(20_000));
    assert_eq!(s.procento_ztraty(), 0);
}

#[test]
fn kolo_polovina_ztracena() {
    // P7: replies of 15 and 25 ms, two timeouts in between.
    let vysledky = vec![
        VysledekPingu::Odpoved { cas_us: 15_000 },
        VysledekPingu::Ztracen { duvod: DuvodZtraty::Timeout },
        VysledekPingu::Odpoved { cas_us: 25_000 },
        VysledekPingu::Ztracen { duvod: DuvodZtraty::Timeout },
    ];
    let s = vyhodnotit_kolo(&vysledky);
    assert_eq!(s.odeslano, 4);
    assert_eq!(s.prijato, 2);
    assert_eq!(s.ztraceno, 2);
    assert_eq!(s.procento_ztraty(), 500);
    assert_eq!(s.min_cas, Some(15_000));
    assert_eq!(s.max_cas, Some(25_000));
    assert_eq!(s.prumer(), Some(20_000));
}

#[test]
fn kolo_prazdne() {
    // P8: zero probes.
    let s = vyhodnotit_kolo(&vec![]);
    assert_eq!(s.odeslano, 0);
    assert_eq!(s.prijato, 0);
    assert_eq!(s.ztraceno, 0);
    assert_eq!(s.procento_ztraty(), 0);
    assert_eq!(s.prumer(), None);
    assert_eq!(s.min_cas, None);
    assert_eq!(s.max_cas, None);
}

#[test]
fn prijem_echo_reply() {
    let mut datagram = vec![0u8; 28];
    datagram[20] = 0;
    assert_eq!(
        vyhodnotit_prijem(&datagram, 1234, 5),
        VysledekPingu::Odpoved { cas_us: 1234 }
    );
}

#[test]
fn prijem_jiny_typ_pred_deadlinem() {
    // The documented lenient fallback: a non-reply datagram before the
    // deadline still counts as a zero-latency reply.
    let mut datagram = vec![0u8; 28];
    datagram[20] = 8;
    assert_eq!(
        vyhodnotit_prijem(&datagram, 1234, 5),
        VysledekPingu::Odpoved { cas_us: 0 }
    );
}

#[test]
fn prijem_kratky_datagram() {
    let datagram = vec![0u8; 27];
    assert_eq!(
        vyhodnotit_prijem(&datagram, 10, 5),
        VysledekPingu::Odpoved { cas_us: 0 }
    );
    assert_eq!(
        vyhodnotit_prijem(&datagram, 5_000_000, 5),
        VysledekPingu::Ztracen { duvod: DuvodZtraty::Timeout }
    );
}

#[test]
fn chyba_prijmu() {
    assert_eq!(
        vyhodnotit_chybu_prijmu(5_000_000, 5),
        VysledekPingu::Ztracen { duvod: DuvodZtraty::Timeout }
    );
    assert_eq!(
        vyhodnotit_chybu_prijmu(4_999_999, 5),
        VysledekPingu::Ztracen { duvod: DuvodZtraty::TransportError }
    );
}

#[test]
fn hranice_deadlinu() {
    assert!(elapsed_timeout(5_000_000, 5));
    assert!(!elapsed_timeout(4_999_999, 5));
    assert!(elapsed_timeout(0, 0));
}

#[test]
fn fatalni_chyby() {
    assert!(ChybaPingu::UnresolvableHost.je_fatalni());
    assert!(ChybaPingu::SocketAcquisitionFailure.je_fatalni());
    assert!(!ChybaPingu::ProbeTimeout.je_fatalni());
    assert!(!ChybaPingu::ProbeTransportError.je_fatalni());
}

#[test]
fn cekani_mezi_probami() {
    assert!(ma_cekat_po_probe(1, 4));
    assert!(ma_cekat_po_probe(3, 4));
    assert!(!ma_cekat_po_probe(4, 4));
    assert!(!ma_cekat_po_probe(1, 1));
}

#[test]
fn vychozi_konfigurace() {
    let args = Args::nova(String::from("example.com"));
    assert_eq!(args.target_addr, "example.com");
    assert_eq!(args.amount, 4);
    assert_eq!(args.timeout, 5);
    assert_eq!(args.data_size, 32);
    assert_eq!(args.interval, 1000);
}
