//! Probe outcomes and round statistics: classification of what came back
//! from one probe, and the accumulation of sent/received/lost counts and
//! latency bounds over a whole round.
//!
//! Latencies are carried as whole microseconds; the presentation layer
//! converts them to fractional milliseconds only when printing.

use vstd::prelude::*;
use crate::utils::elapsed_timeout;

verus! {

/// Whether a received datagram looks like an ICMP Echo Reply: at least
/// 28 bytes (20-byte IPv4 header plus 8-byte ICMP header) and a zero ICMP
/// type byte at offset 20.
pub open spec fn je_echo_reply(data: Seq<u8>) -> bool {
    data.len() >= 28 && data[20] == 0u8
}

/// Whether `uplynulo_us` microseconds have reached a deadline of
/// `timeout_secs` seconds.
pub open spec fn vyprsel_cas(uplynulo_us: int, timeout_secs: int) -> bool {
    uplynulo_us >= timeout_secs * 1000000
}

/// The error taxonomy of a run. The first two kinds abort the whole run
/// before or at the first probe; the last two are recorded as losses and
/// the round continues.
#[derive(Clone, Copy, PartialEq, Eq, Structural, Debug)]
pub enum ChybaPingu {
    /// The target neither parses as a literal address nor resolves.
    UnresolvableHost,
    /// The raw socket cannot be created, commonly for lack of privilege.
    SocketAcquisitionFailure,
    /// No qualifying reply arrived within the per-probe deadline.
    ProbeTimeout,
    /// A non-timeout I/O failure during send or receive.
    ProbeTransportError,
}

impl ChybaPingu {
    /// Whether this error aborts the whole run rather than costing one probe.
    pub fn je_fatalni(&self) -> (r: bool)
        ensures
            r <==> (*self is UnresolvableHost || *self is SocketAcquisitionFailure),
    {
        match self {
            ChybaPingu::UnresolvableHost => true,
            ChybaPingu::SocketAcquisitionFailure => true,
            ChybaPingu::ProbeTimeout => false,
            ChybaPingu::ProbeTransportError => false,
        }
    }
}

/// Whether the probe loop waits the inter-probe interval after this
/// sequence number: after every probe but the last.
pub fn ma_cekat_po_probe(sekvencni_cislo: u32, amount: u32) -> (r: bool)
    ensures
        r <==> sekvencni_cislo < amount,
{
    sekvencni_cislo < amount
}

/// Why a probe counted as lost.
#[derive(Clone, Copy, PartialEq, Eq, Structural, Debug)]
pub enum DuvodZtraty {
    /// No qualifying reply arrived within the deadline.
    Timeout,
    /// A non-timeout I/O failure happened during send or receive.
    TransportError,
}

/// The outcome of one probe: a reply after some latency, or a loss.
#[derive(Clone, Copy, PartialEq, Eq, Structural, Debug)]
pub enum VysledekPingu {
    /// An Echo Reply arrived; latency in whole microseconds.
    Odpoved { cas_us: u64 },
    /// The probe is counted as lost, with the reason.
    Ztracen { duvod: DuvodZtraty },
}

impl VysledekPingu {
    /// Whether this outcome is a reply.
    pub open spec fn je_odpoved(self) -> bool {
        self is Odpoved
    }

    /// The latency of a reply, in microseconds.
    pub open spec fn cas(self) -> u64 {
        self->cas_us
    }
}

/// Classifies a datagram that arrived `uplynulo_us` microseconds after the
/// send. An Echo-Reply-shaped datagram is a reply with that latency. Any
/// other shape is handled leniently, a deliberate design choice of this
/// transport: past the deadline it is a timeout loss, but before the
/// deadline it still counts as a zero-latency reply instead of waiting on.
/// Identifier and sequence number of the reply are not correlated here.
pub fn vyhodnotit_prijem(buffer: &[u8], uplynulo_us: u64, timeout_secs: u64) -> (r: VysledekPingu)
    ensures
        je_echo_reply(buffer@) ==> r == (VysledekPingu::Odpoved { cas_us: uplynulo_us }),
        !je_echo_reply(buffer@) && vyprsel_cas(uplynulo_us as int, timeout_secs as int) ==> r == (
        VysledekPingu::Ztracen { duvod: DuvodZtraty::Timeout }),
        !je_echo_reply(buffer@) && !vyprsel_cas(uplynulo_us as int, timeout_secs as int) ==> r
            == (VysledekPingu::Odpoved { cas_us: 0u64 }),
{
    if buffer.len() >= 28 && buffer[20] == 0 {
        VysledekPingu::Odpoved { cas_us: uplynulo_us }
    } else if elapsed_timeout(uplynulo_us, timeout_secs) {
        VysledekPingu::Ztracen { duvod: DuvodZtraty::Timeout }
    } else {
        VysledekPingu::Odpoved { cas_us: 0 }
    }
}

/// Classifies a receive that failed with an I/O error: past the deadline it
/// is a timeout loss, before the deadline a transport-error loss.
pub fn vyhodnotit_chybu_prijmu(uplynulo_us: u64, timeout_secs: u64) -> (r: VysledekPingu)
    ensures
        vyprsel_cas(uplynulo_us as int, timeout_secs as int) ==> r == (VysledekPingu::Ztracen {
            duvod: DuvodZtraty::Timeout,
        }),
        !vyprsel_cas(uplynulo_us as int, timeout_secs as int) ==> r == (VysledekPingu::Ztracen {
            duvod: DuvodZtraty::TransportError,
        }),
{
    if elapsed_timeout(uplynulo_us, timeout_secs) {
        VysledekPingu::Ztracen { duvod: DuvodZtraty::Timeout }
    } else {
        VysledekPingu::Ztracen { duvod: DuvodZtraty::TransportError }
    }
}

/// Running statistics of one round of probes.
#[derive(Clone, Copy, PartialEq, Eq, Debug)]
pub struct PingStatistiky {
    /// Probes sent so far.
    pub odeslano: u32,
    /// Probes that got a reply.
    pub prijato: u32,
    /// Probes counted as lost.
    pub ztraceno: u32,
    /// Smallest reply latency seen, in microseconds.
    pub min_cas: Option<u64>,
    /// Largest reply latency seen, in microseconds.
    pub max_cas: Option<u64>,
    /// Sum of all reply latencies, in microseconds.
    pub celkovy_cas: u64,
}

impl PingStatistiky {
    /// Every probe sent was either answered or lost, and the latency fields
    /// are present exactly when at least one reply arrived.
    pub open spec fn je_konzistentni(self) -> bool {
        &&& self.odeslano == self.prijato + self.ztraceno
        &&& (self.min_cas is Some <==> self.prijato > 0)
        &&& (self.max_cas is Some <==> self.prijato > 0)
        &&& (self.prijato == 0 ==> self.celkovy_cas == 0)
    }

    /// Fresh statistics: nothing sent, nothing received, nothing lost.
    pub fn nova() -> (r: Self)
        ensures
            r.odeslano == 0,
            r.prijato == 0,
            r.ztraceno == 0,
            r.min_cas is None,
            r.max_cas is None,
            r.celkovy_cas == 0,
            r.je_konzistentni(),
    {
        Self {
            odeslano: 0,
            prijato: 0,
            ztraceno: 0,
            min_cas: None,
            max_cas: None,
            celkovy_cas: 0,
        }
    }

    /// Records one reply: bumps the received count, adds the latency to the
    /// running total, and tightens the minimum and maximum bounds. The first
    /// reply initializes both bounds; later replies move a bound only when
    /// strictly better.
    pub fn pridat_odpoved(&mut self, cas_us: u64)
        requires
            old(self).prijato < u32::MAX,
            old(self).celkovy_cas + cas_us <= u64::MAX,
        ensures
            final(self).odeslano == old(self).odeslano,
            final(self).ztraceno == old(self).ztraceno,
            final(self).prijato == old(self).prijato + 1,
            final(self).celkovy_cas == old(self).celkovy_cas + cas_us,
            final(self).min_cas == match old(self).min_cas {
                None => Some(cas_us),
                Some(min) => Some(if cas_us < min { cas_us } else { min }),
            },
            final(self).max_cas == match old(self).max_cas {
                None => Some(cas_us),
                Some(max) => Some(if cas_us > max { cas_us } else { max }),
            },
    {
        self.prijato = self.prijato + 1;
        self.celkovy_cas = self.celkovy_cas + cas_us;

        match self.min_cas {
            None => {
                self.min_cas = Some(cas_us);
            }
            Some(min) => {
                if cas_us < min {
                    self.min_cas = Some(cas_us);
                }
            }
        }

        match self.max_cas {
            None => {
                self.max_cas = Some(cas_us);
            }
            Some(max) => {
                if cas_us > max {
                    self.max_cas = Some(cas_us);
                }
            }
        }
    }

    /// Records one loss.
    pub fn pridat_ztraceny(&mut self)
        requires
            old(self).ztraceno < u32::MAX,
        ensures
            final(self).odeslano == old(self).odeslano,
            final(self).prijato == old(self).prijato,
            final(self).ztraceno == old(self).ztraceno + 1,
            final(self).min_cas == old(self).min_cas,
            final(self).max_cas == old(self).max_cas,
            final(self).celkovy_cas == old(self).celkovy_cas,
    {
        self.ztraceno = self.ztraceno + 1;
    }

    /// The mean reply latency in whole microseconds (rounded down), or
    /// `None` before the first reply.
    pub fn prumer(&self) -> (r: Option<u64>)
        ensures
            self.prijato > 0 ==> r == Some((self.celkovy_cas / self.prijato as u64) as u64),
            self.prijato == 0 ==> r is None,
    {
        if self.prijato > 0 {
            Some(self.celkovy_cas / (self.prijato as u64))
        } else {
            None
        }
    }

    /// The loss rate in tenths of a percent (rounded down): 1000 means every
    /// probe was lost, 0 means none was — or nothing was sent at all.
    pub fn procento_ztraty(&self) -> (r: u64)
        ensures
            self.odeslano > 0 ==> r == (self.ztraceno as int * 1000) / (self.odeslano as int),
            self.odeslano == 0 ==> r == 0,
    {
        if self.odeslano > 0 {
            ((self.ztraceno as u64) * 1000) / (self.odeslano as u64)
        } else {
            0
        }
    }

    /// Counts one finished probe: the sent counter goes up, and the outcome
    /// is recorded as a reply or as a loss.
    pub fn zaznamenat(&mut self, vysledek: &VysledekPingu)
        requires
            old(self).je_konzistentni(),
            old(self).odeslano < u32::MAX,
            vysledek.je_odpoved() ==> old(self).celkovy_cas + vysledek.cas() <= u64::MAX,
        ensures
            *final(self) == krok_statistik(*old(self), *vysledek),
            final(self).je_konzistentni(),
    {
        self.odeslano = self.odeslano + 1;
        match *vysledek {
            VysledekPingu::Odpoved { cas_us } => {
                self.pridat_odpoved(cas_us);
            }
            VysledekPingu::Ztracen { duvod: _ } => {
                self.pridat_ztraceny();
            }
        }
    }
}

/// Statistics before anything was sent.
pub open spec fn prazdne_statistiky() -> PingStatistiky {
    PingStatistiky {
        odeslano: 0u32,
        prijato: 0u32,
        ztraceno: 0u32,
        min_cas: None,
        max_cas: None,
        celkovy_cas: 0u64,
    }
}

/// How one probe outcome moves the statistics forward.
pub open spec fn krok_statistik(st: PingStatistiky, v: VysledekPingu) -> PingStatistiky {
    if v.je_odpoved() {
        PingStatistiky {
            odeslano: (st.odeslano + 1) as u32,
            prijato: (st.prijato + 1) as u32,
            ztraceno: st.ztraceno,
            min_cas: match st.min_cas {
                None => Some(v.cas()),
                Some(min) => Some(if v.cas() < min { v.cas() } else { min }),
            },
            max_cas: match st.max_cas {
                None => Some(v.cas()),
                Some(max) => Some(if v.cas() > max { v.cas() } else { max }),
            },
            celkovy_cas: (st.celkovy_cas + v.cas()) as u64,
        }
    } else {
        PingStatistiky {
            odeslano: (st.odeslano + 1) as u32,
            prijato: st.prijato,
            ztraceno: (st.ztraceno + 1) as u32,
            min_cas: st.min_cas,
            max_cas: st.max_cas,
            celkovy_cas: st.celkovy_cas,
        }
    }
}

/// The statistics of a whole round: the empty statistics stepped once per
/// outcome, in order.
pub open spec fn agreguj(vysledky: Seq<VysledekPingu>) -> PingStatistiky
    decreases vysledky.len(),
{
    if vysledky.len() == 0 {
        prazdne_statistiky()
    } else {
        krok_statistik(agreguj(vysledky.drop_last()), vysledky.last())
    }
}

/// How many outcomes of the sequence are replies.
pub open spec fn pocet_prijatych(vysledky: Seq<VysledekPingu>) -> int
    decreases vysledky.len(),
{
    if vysledky.len() == 0 {
        0
    } else {
        pocet_prijatych(vysledky.drop_last()) + if vysledky.last().je_odpoved() {
            1int
        } else {
            0int
        }
    }
}

/// How many outcomes of the sequence are losses.
pub open spec fn pocet_ztracenych(vysledky: Seq<VysledekPingu>) -> int
    decreases vysledky.len(),
{
    if vysledky.len() == 0 {
        0
    } else {
        pocet_ztracenych(vysledky.drop_last()) + if vysledky.last().je_odpoved() {
            0int
        } else {
            1int
        }
    }
}

/// The sum of the reply latencies of the sequence, in microseconds.
pub open spec fn soucet_casu(vysledky: Seq<VysledekPingu>) -> int
    decreases vysledky.len(),
{
    if vysledky.len() == 0 {
        0
    } else {
        soucet_casu(vysledky.drop_last()) + if vysledky.last().je_odpoved() {
            vysledky.last().cas() as int
        } else {
            0int
        }
    }
}

/// The latency sum is non-negative and never smaller than the sum of any
/// prefix.
proof fn lemma_soucet_casu_prefix(vysledky: Seq<VysledekPingu>, i: int)
    requires
        0 <= i <= vysledky.len(),
    ensures
        0 <= soucet_casu(vysledky.take(i)) <= soucet_casu(vysledky),
    decreases vysledky.len(),
{
    if i == vysledky.len() {
        assert(vysledky.take(i) =~= vysledky);
        if vysledky.len() > 0 {
            lemma_soucet_casu_prefix(vysledky.drop_last(), i - 1);
        }
    } else {
        assert(vysledky.take(i) =~= vysledky.drop_last().take(i));
        lemma_soucet_casu_prefix(vysledky.drop_last(), i);
    }
}

/// For any round: every probe is counted exactly once, the counters are the
/// true counts of replies and losses, and the latency total is the true sum
/// — truncation-free as long as the counts and the sum fit their fields.
pub proof fn lemma_agregace_poctu(vysledky: Seq<VysledekPingu>)
    requires
        vysledky.len() <= u32::MAX,
        soucet_casu(vysledky) <= u64::MAX,
    ensures
        agreguj(vysledky).odeslano == vysledky.len(),
        agreguj(vysledky).prijato == pocet_prijatych(vysledky),
        agreguj(vysledky).ztraceno == pocet_ztracenych(vysledky),
        pocet_prijatych(vysledky) + pocet_ztracenych(vysledky) == vysledky.len(),
        agreguj(vysledky).celkovy_cas == soucet_casu(vysledky),
        agreguj(vysledky).je_konzistentni(),
    decreases vysledky.len(),
{
    if vysledky.len() > 0 {
        let zacatek = vysledky.drop_last();
        lemma_soucet_casu_prefix(vysledky, vysledky.len() - 1);
        assert(vysledky.take(vysledky.len() - 1) =~= zacatek);
        lemma_agregace_poctu(zacatek);
    }
}

/// For any round with at least one reply, the recorded minimum and maximum
/// are the true extremes of the reply latencies: each is attained by some
/// reply, and each bounds every reply. Without a reply neither is present.
pub proof fn lemma_agregace_extremu(vysledky: Seq<VysledekPingu>)
    ensures
        pocet_prijatych(vysledky) >= 0,
        pocet_prijatych(vysledky) == 0 ==> (forall|i: int|
            0 <= i < vysledky.len() ==> !(#[trigger] vysledky[i]).je_odpoved()),
        pocet_prijatych(vysledky) == 0 ==> agreguj(vysledky).min_cas is None && agreguj(
            vysledky,
        ).max_cas is None,
        pocet_prijatych(vysledky) > 0 ==> {
            let min = agreguj(vysledky).min_cas->Some_0;
            let max = agreguj(vysledky).max_cas->Some_0;
            &&& agreguj(vysledky).min_cas is Some
            &&& agreguj(vysledky).max_cas is Some
            &&& (exists|i: int|
                0 <= i < vysledky.len() && (#[trigger] vysledky[i]).je_odpoved() && vysledky[i].cas()
                    == min)
            &&& (exists|i: int|
                0 <= i < vysledky.len() && (#[trigger] vysledky[i]).je_odpoved() && vysledky[i].cas()
                    == max)
            &&& (forall|i: int|
                0 <= i < vysledky.len() && (#[trigger] vysledky[i]).je_odpoved() ==> min
                    <= vysledky[i].cas() <= max)
        },
    decreases vysledky.len(),
{
    if vysledky.len() > 0 {
        let zacatek = vysledky.drop_last();
        let posledni = vysledky.last();
        lemma_agregace_extremu(zacatek);
        assert(agreguj(vysledky) == krok_statistik(agreguj(zacatek), posledni));
        assert(pocet_prijatych(vysledky) == pocet_prijatych(zacatek) + if posledni.je_odpoved() {
            1int
        } else {
            0int
        });
        assert(forall|i: int|
            0 <= i < zacatek.len() ==> #[trigger] vysledky[i] == zacatek[i]);
        if pocet_prijatych(vysledky) > 0 {
            let min = agreguj(vysledky).min_cas->Some_0;
            let max = agreguj(vysledky).max_cas->Some_0;
            if posledni.je_odpoved() {
                if pocet_prijatych(zacatek) > 0 {
                    let min_pred = agreguj(zacatek).min_cas->Some_0;
                    let max_pred = agreguj(zacatek).max_cas->Some_0;
                    if min_pred <= posledni.cas() {
                        let svedek = choose|i: int|
                            0 <= i < zacatek.len() && (#[trigger] zacatek[i]).je_odpoved()
                                && zacatek[i].cas() == min_pred;
                        assert(vysledky[svedek].je_odpoved() && vysledky[svedek].cas() == min);
                    } else {
                        assert(vysledky[vysledky.len() - 1].cas() == min);
                    }
                    if max_pred >= posledni.cas() {
                        let svedek = choose|i: int|
                            0 <= i < zacatek.len() && (#[trigger] zacatek[i]).je_odpoved()
                                && zacatek[i].cas() == max_pred;
                        assert(vysledky[svedek].je_odpoved() && vysledky[svedek].cas() == max);
                    } else {
                        assert(vysledky[vysledky.len() - 1].cas() == max);
                    }
                } else {
                    assert(vysledky[vysledky.len() - 1].cas() == min);
                    assert(vysledky[vysledky.len() - 1].cas() == max);
                }
            } else {
                let svedek_min = choose|i: int|
                    0 <= i < zacatek.len() && (#[trigger] zacatek[i]).je_odpoved()
                        && zacatek[i].cas() == min;
                assert(vysledky[svedek_min].je_odpoved() && vysledky[svedek_min].cas() == min);
                let svedek_max = choose|i: int|
                    0 <= i < zacatek.len() && (#[trigger] zacatek[i]).je_odpoved()
                        && zacatek[i].cas() == max;
                assert(vysledky[svedek_max].je_odpoved() && vysledky[svedek_max].cas() == max);
            }
        }
    }
}

/// Replays a finished round: folds every outcome, in order, into fresh
/// statistics. This is the whole accumulation the probe loop performs,
/// separated from the sending and waiting.
pub fn vyhodnotit_kolo(vysledky: &Vec<VysledekPingu>) -> (r: PingStatistiky)
    requires
        vysledky@.len() <= u32::MAX,
        soucet_casu(vysledky@) <= u64::MAX,
    ensures
        r == agreguj(vysledky@),
        r.je_konzistentni(),
{
    let mut statistiky = PingStatistiky::nova();
    assert(vysledky@.take(0) =~= Seq::<VysledekPingu>::empty());

    let mut i: usize = 0;
    while i < vysledky.len()
        invariant
            i <= vysledky@.len() <= u32::MAX,
            soucet_casu(vysledky@) <= u64::MAX,
            statistiky == agreguj(vysledky@.take(i as int)),
            statistiky.je_konzistentni(),
        decreases vysledky@.len() - i,
    {
        proof {
            lemma_soucet_casu_prefix(vysledky@, i as int);
            lemma_agregace_poctu(vysledky@.take(i as int));
            lemma_soucet_casu_prefix(vysledky@, i + 1);
            assert(vysledky@.take(i + 1).drop_last() =~= vysledky@.take(i as int));
            assert(vysledky@.take(i + 1).last() == vysledky@[i as int]);
        }
        statistiky.zaznamenat(&vysledky[i]);
        i = i + 1;
    }
    assert(vysledky@.take(vysledky@.len() as int) =~= vysledky@);
    statistiky
}

} // verus!

