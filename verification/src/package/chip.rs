//! Chip package payload: the MCU's peripheral inventory and the pin to
//! capability table the resolver joins against board connector pins.

use vstd::prelude::*;
use crate::flash::{compare_text, lemma_text_order_strict, text_order};
use crate::package::PackageIdentity;
use crate::package::board::{finding, finding_if, findings, plain_errors, report};
use crate::package::device::TimingReading;
use crate::schema::{Diagnostic, is_valid_identifier, valid_identifier};
use crate::text::{
    find_text, lemma_find_text, push_str, split_at_first, split_once, str_eq,
};

verus! {

/// The `package.yaml` view of a chip package.
#[derive(Debug, Clone)]
pub struct ChipPackageFile {
    pub package: PackageIdentity,
    pub peripherals: Peripherals,
    /// Pin to capability tokens (`gpio` or `<peripheral>.<sub>`), in pin
    /// order.
    pub pin_functions: Vec<(String, Vec<String>)>,
}

#[derive(Debug, Clone, PartialEq, Eq)]
pub struct Peripherals {
    pub timers: Vec<Timer>,
    pub spi: Vec<Bus>,
    pub i2c: Vec<Bus>,
    pub uart: Vec<Bus>,
    pub adc: Vec<Adc>,
    /// Explicit DMA channels and the peripheral signal routes they support.
    pub dma: Vec<DmaChannel>,
}

#[derive(Debug, Clone, PartialEq, Eq)]
pub struct Timer {
    pub id: String,
    pub channels: u32,
}

#[derive(Debug, Clone, PartialEq, Eq)]
pub struct Bus {
    pub id: String,
    /// Quantity text (`42 MHz`).
    pub max_frequency: Option<String>,
    /// Measured upper bound for this validated target (`20 us`).
    pub worst_case_latency: Option<String>,
    /// Measured upper bound for the variation around that latency.
    pub worst_case_jitter: Option<String>,
}

#[derive(Debug, Clone, PartialEq, Eq)]
pub struct DmaChannel {
    /// Stable channel identifier (`dma1.ch0`).
    pub id: String,
    /// Routable peripheral signals (`spi1.rx`, `spi1.tx`).
    pub routes: Vec<String>,
}

#[derive(Debug, Clone, PartialEq, Eq)]
pub struct Adc {
    pub id: String,
    pub channels: Option<u32>,
}

/// SPI, then I2C, then UART buses.
pub open spec fn all_buses(p: Peripherals) -> Seq<Bus> {
    p.spi@ + p.i2c@ + p.uart@
}

/// Every declared peripheral id: timers, SPI, I2C, UART, then ADC.
pub open spec fn peripheral_ids(p: Peripherals) -> Seq<Seq<char>> {
    p.timers@.map_values(|t: Timer| t.id@) + all_buses(p).map_values(|b: Bus| b.id@)
        + p.adc@.map_values(|a: Adc| a.id@)
}

/// The channel routes the signal.
pub open spec fn routes_signal(channel: DmaChannel, route: Seq<char>) -> bool {
    exists|i: int| 0 <= i < channel.routes@.len() && #[trigger] channel.routes@[i]@ == route
}

proof fn lemma_push_views(v: Seq<&str>, x: &str)
    ensures
        v.push(x).map_values(|s: &str| s@) =~= v.map_values(|s: &str| s@).push(x@),
{
}

proof fn lemma_prefix_views<A>(s: Seq<A>, i: int, f: spec_fn(A) -> Seq<char>)
    requires
        0 <= i < s.len(),
    ensures
        s.subrange(0, i + 1).map_values(f) =~= s.subrange(0, i).map_values(f).push(f(s[i])),
{
}

proof fn lemma_push_to_set(v: Seq<Seq<char>>, x: Seq<char>)
    ensures
        v.push(x).to_set() =~= v.to_set().insert(x),
{
    assert forall|y: Seq<char>| v.push(x).to_set().contains(y) <==> v.to_set().insert(x).contains(
        y,
    ) by {
        if v.push(x).contains(y) {
            let k = choose|k: int| 0 <= k < v.len() + 1 && #[trigger] v.push(x)[k] == y;
            if k < v.len() {
                assert(v[k] == y);
            }
        }
        if v.contains(y) {
            let k = choose|k: int| 0 <= k < v.len() && #[trigger] v[k] == y;
            assert(v.push(x)[k] == y);
        }
        if y == x {
            assert(v.push(x)[v.len() as int] == x);
        }
    }
}

fn push_bus_refs<'a>(out: &mut Vec<&'a Bus>, buses: &'a Vec<Bus>)
    ensures
        final(out)@.len() == old(out)@.len() + buses@.len(),
        forall|i: int| 0 <= i < old(out)@.len() ==> *final(out)@[i] == *old(out)@[i],
        forall|i: int| 0 <= i < buses@.len() ==> *final(out)@[old(out)@.len() + i] == buses@[i],
{
    let mut i: usize = 0;
    while i < buses.len()
        invariant
            i <= buses@.len(),
            out@.len() == old(out)@.len() + i,
            forall|k: int| 0 <= k < old(out)@.len() ==> *out@[k] == *old(out)@[k],
            forall|k: int| 0 <= k < i ==> *out@[old(out)@.len() + k] == buses@[k],
        decreases buses@.len() - i,
    {
        out.push(&buses[i]);
        i = i + 1;
    }
}

fn push_ids<'a>(out: &mut Vec<&'a str>, ids: Seq<Seq<char>>, source: &'a Vec<String>)
    requires
        ids == source@.map_values(|s: String| s@),
    ensures
        final(out)@.map_values(|s: &str| s@) == old(out)@.map_values(|s: &str| s@) + ids,
{
    let mut i: usize = 0;
    while i < source.len()
        invariant
            ids == source@.map_values(|s: String| s@),
            i <= source@.len(),
            out@.map_values(|s: &str| s@) == old(out)@.map_values(|s: &str| s@) + ids.subrange(
                0,
                i as int,
            ),
        decreases source@.len() - i,
    {
        let ghost before = out@;
        let item = source[i].as_str();
        out.push(item);
        proof {
            lemma_push_views(before, item);
            lemma_prefix_views(source@, i as int, |s: String| s@);
            assert(ids.subrange(0, i + 1) =~= ids.subrange(0, i as int).push(item@));
        }
        i = i + 1;
    }
    assert(ids.subrange(0, ids.len() as int) =~= ids);
}

impl ChipPackageFile {
    /// Bus metadata across every supported bus family: SPI, I2C, UART.
    pub fn buses(&self) -> (buses: Vec<&Bus>)
        ensures
            buses@.len() == all_buses(self.peripherals).len(),
            forall|i: int| 0 <= i < buses@.len() ==> *buses@[i] == all_buses(self.peripherals)[i],
    {
        let mut buses: Vec<&Bus> = Vec::new();
        push_bus_refs(&mut buses, &self.peripherals.spi);
        push_bus_refs(&mut buses, &self.peripherals.i2c);
        push_bus_refs(&mut buses, &self.peripherals.uart);
        buses
    }

    /// The lowest-id DMA channel that routes `route` (the first of equal
    /// ids), if any does.
    pub fn dma_channel_for_route(&self, route: &str) -> (channel: Option<&DmaChannel>)
        ensures
            ({
                let dma = self.peripherals.dma@;
                match channel {
                    None => forall|j: int| 0 <= j < dma.len() ==> !routes_signal(#[trigger] dma[j], route@),
                    Some(c) => exists|k: int|
                        0 <= k < dma.len() && #[trigger] dma[k] == *c && routes_signal(*c, route@)
                            && (forall|j: int|
                            0 <= j < dma.len() && routes_signal(dma[j], route@) ==> text_order(
                                c.id@,
                                dma[j].id@,
                            ) <= 0) && (forall|j: int|
                            0 <= j < k && routes_signal(dma[j], route@) ==> text_order(
                                c.id@,
                                dma[j].id@,
                            ) < 0),
                }
            }),
    {
        let dma = &self.peripherals.dma;
        let mut best: Option<usize> = None;
        let mut i: usize = 0;
        while i < dma.len()
            invariant
                i <= dma@.len(),
                match best {
                    None => forall|j: int| 0 <= j < i ==> !routes_signal(#[trigger] dma@[j], route@),
                    Some(k) => k < i && routes_signal(dma@[k as int], route@) && (forall|j: int|
                        0 <= j < i && routes_signal(dma@[j], route@) ==> text_order(
                            dma@[k as int].id@,
                            dma@[j].id@,
                        ) <= 0) && (forall|j: int|
                        0 <= j < k && routes_signal(dma@[j], route@) ==> text_order(
                            dma@[k as int].id@,
                            dma@[j].id@,
                        ) < 0),
                },
            decreases dma@.len() - i,
        {
            if channel_routes(&dma[i], route) {
                match best {
                    None => {
                        best = Some(i);
                        proof {
                            crate::flash::lemma_text_order(dma@[i as int].id@, dma@[i as int].id@, dma@[i as int].id@);
                        }
                    },
                    Some(k) => {
                        let order = compare_text(dma[i].id.as_str(), dma[k].id.as_str());
                        if order < 0 {
                            proof {
                                let ghost ci = dma@[i as int].id@;
                                assert forall|j: int|
                                    0 <= j < i + 1 && routes_signal(dma@[j], route@) implies text_order(
                                    ci,
                                    dma@[j].id@,
                                ) <= 0 by {
                                    crate::flash::lemma_text_order(ci, dma@[k as int].id@, dma@[j].id@);
                                    crate::flash::lemma_text_order(ci, ci, ci);
                                }
                                assert forall|j: int|
                                    0 <= j < i && routes_signal(dma@[j], route@) implies text_order(
                                    ci,
                                    dma@[j].id@,
                                ) < 0 by {
                                    crate::flash::lemma_text_order(ci, dma@[k as int].id@, dma@[j].id@);
                                    crate::flash::lemma_text_order(dma@[k as int].id@, dma@[j].id@, ci);
                                    if text_order(dma@[k as int].id@, dma@[j].id@) < 0 {
                                        lemma_text_order_strict(ci, dma@[k as int].id@, dma@[j].id@);
                                    }
                                }
                            }
                            best = Some(i);
                        } else {
                            proof {
                                crate::flash::lemma_text_order(dma@[k as int].id@, dma@[i as int].id@, dma@[i as int].id@);
                            }
                        }
                    },
                }
            }
            i = i + 1;
        }
        match best {
            None => None,
            Some(k) => Some(&dma[k]),
        }
    }

    /// Every peripheral id the chip declares: timers, SPI, I2C, UART, ADC.
    pub fn declared_ids(&self) -> (ids: Vec<&str>)
        ensures
            ids@.map_values(|s: &str| s@) == peripheral_ids(self.peripherals),
    {
        let p = &self.peripherals;
        let mut ids: Vec<&str> = Vec::new();
        let mut i: usize = 0;
        while i < p.timers.len()
            invariant
                i <= p.timers@.len(),
                ids@.map_values(|s: &str| s@) == p.timers@.subrange(0, i as int).map_values(
                    |t: Timer| t.id@,
                ),
            decreases p.timers@.len() - i,
        {
            let ghost before = ids@;
            let item = p.timers[i].id.as_str();
            ids.push(item);
            proof {
                lemma_push_views(before, item);
                lemma_prefix_views(p.timers@, i as int, |t: Timer| t.id@);
            }
            i = i + 1;
        }
        assert(p.timers@.subrange(0, p.timers@.len() as int) =~= p.timers@);
        let ghost head = ids@.map_values(|s: &str| s@);
        let mut j: usize = 0;
        let ghost buses = all_buses(*p);
        let bus_list = self.buses();
        while j < bus_list.len()
            invariant
                j <= bus_list@.len(),
                bus_list@.len() == buses.len(),
                buses == all_buses(*p),
                forall|m: int| 0 <= m < bus_list@.len() ==> *bus_list@[m] == buses[m],
                ids@.map_values(|s: &str| s@) == head + buses.subrange(0, j as int).map_values(
                    |b: Bus| b.id@,
                ),
            decreases bus_list@.len() - j,
        {
            let ghost before = ids@;
            let item = bus_list[j].id.as_str();
            ids.push(item);
            proof {
                lemma_push_views(before, item);
                lemma_prefix_views(buses, j as int, |b: Bus| b.id@);
                assert(head + buses.subrange(0, j + 1).map_values(|b: Bus| b.id@) =~= (head
                    + buses.subrange(0, j as int).map_values(|b: Bus| b.id@)).push(item@));
            }
            j = j + 1;
        }
        assert(buses.subrange(0, buses.len() as int) =~= buses);
        let ghost head2 = ids@.map_values(|s: &str| s@);
        let mut k: usize = 0;
        while k < p.adc.len()
            invariant
                k <= p.adc@.len(),
                ids@.map_values(|s: &str| s@) == head2 + p.adc@.subrange(0, k as int).map_values(
                    |a: Adc| a.id@,
                ),
            decreases p.adc@.len() - k,
        {
            let ghost before = ids@;
            let item = p.adc[k].id.as_str();
            ids.push(item);
            proof {
                lemma_push_views(before, item);
                lemma_prefix_views(p.adc@, k as int, |a: Adc| a.id@);
                assert(head2 + p.adc@.subrange(0, k + 1).map_values(|a: Adc| a.id@) =~= (head2
                    + p.adc@.subrange(0, k as int).map_values(|a: Adc| a.id@)).push(item@));
            }
            k = k + 1;
        }
        assert(p.adc@.subrange(0, p.adc@.len() as int) =~= p.adc@);
        assert(ids@.map_values(|s: &str| s@) =~= peripheral_ids(*p));
        ids
    }
}

fn channel_routes(channel: &DmaChannel, route: &str) -> (routes: bool)
    ensures
        routes == routes_signal(*channel, route@),
{
    let mut i: usize = 0;
    while i < channel.routes.len()
        invariant
            i <= channel.routes@.len(),
            forall|j: int| 0 <= j < i ==> #[trigger] channel.routes@[j]@ != route@,
        decreases channel.routes@.len() - i,
    {
        if str_eq(channel.routes[i].as_str(), route) {
            return true;
        }
        i = i + 1;
    }
    false
}

// ---------------------------------------------------------------------------
// Payload checks
// ---------------------------------------------------------------------------

/// The peripheral a capability token names: the text before its first `.`.
pub open spec fn token_base(token: Seq<char>) -> Seq<char> {
    match find_text(token, "."@, 0) {
        Some(k) => token.subrange(0, k),
        None => token,
    }
}

/// Findings for the tokens of one pin that name an undeclared peripheral.
pub open spec fn token_findings(
    reference: Seq<char>,
    pin: Seq<char>,
    tokens: Seq<String>,
    ids: Seq<Seq<char>>,
) -> Seq<(Seq<char>, Seq<char>)>
    decreases tokens.len(),
{
    if tokens.len() == 0 {
        seq![]
    } else {
        let f = tokens.last()@;
        let base = token_base(f);
        token_findings(reference, pin, tokens.drop_last(), ids) + finding_if(
            base != "gpio"@ && !ids.contains(base),
            "E0653"@,
            reference + ": pin "@ + pin + " claims '"@ + f + "' but no peripheral '"@ + base
                + "' is declared"@,
        )
    }
}

/// Findings for every pin's capability tokens, in pin order.
pub open spec fn pin_function_findings(
    reference: Seq<char>,
    pins: Seq<(String, Vec<String>)>,
    ids: Seq<Seq<char>>,
) -> Seq<(Seq<char>, Seq<char>)>
    decreases pins.len(),
{
    if pins.len() == 0 {
        seq![]
    } else {
        pin_function_findings(reference, pins.drop_last(), ids) + token_findings(
            reference,
            pins.last().0@,
            pins.last().1@,
            ids,
        )
    }
}

fn contains_id(ids: &Vec<&str>, id: &str) -> (found: bool)
    ensures
        found == ids@.map_values(|s: &str| s@).contains(id@),
{
    let mut i: usize = 0;
    while i < ids.len()
        invariant
            i <= ids@.len(),
            forall|j: int| 0 <= j < i ==> #[trigger] ids@[j]@ != id@,
        decreases ids@.len() - i,
    {
        if str_eq(ids[i], id) {
            assert(ids@.map_values(|s: &str| s@)[i as int] == id@);
            return true;
        }
        i = i + 1;
    }
    proof {
        let views = ids@.map_values(|s: &str| s@);
        if views.contains(id@) {
            let j = choose|j: int| 0 <= j < views.len() && #[trigger] views[j] == id@;
            assert(ids@[j]@ != id@);
        }
    }
    false
}

fn base_of(token: &str) -> (base: &str)
    ensures
        base@ == token_base(token@),
{
    proof {
        reveal_strlit(".");
    }
    match split_once(token, ".") {
        Some((before, _)) => before,
        None => token,
    }
}

fn check_tokens(
    reference: &str,
    pin: &str,
    tokens: &Vec<String>,
    ids: &Vec<&str>,
    diags: &mut Vec<Diagnostic>,
)
    ensures
        plain_errors(old(diags)@) ==> plain_errors(final(diags)@),
        findings(final(diags)@) == findings(old(diags)@) + token_findings(
            reference@,
            pin@,
            tokens@,
            ids@.map_values(|s: &str| s@),
        ),
{
    let ghost start = findings(diags@);
    let ghost idv = ids@.map_values(|s: &str| s@);
    let mut i: usize = 0;
    while i < tokens.len()
        invariant
            i <= tokens@.len(),
            idv == ids@.map_values(|s: &str| s@),
            plain_errors(old(diags)@) ==> plain_errors(diags@),
            findings(diags@) == start + token_findings(
                reference@,
                pin@,
                tokens@.subrange(0, i as int),
                idv,
            ),
        decreases tokens@.len() - i,
    {
        proof {
            let next = tokens@.subrange(0, i + 1);
            assert(next.drop_last() =~= tokens@.subrange(0, i as int));
        }
        let f = tokens[i].as_str();
        let base = base_of(f);
        if !str_eq(base, "gpio") && !contains_id(ids, base) {
            let mut m = reference.to_owned();
            push_str(&mut m, ": pin ");
            push_str(&mut m, pin);
            push_str(&mut m, " claims '");
            push_str(&mut m, f);
            push_str(&mut m, "' but no peripheral '");
            push_str(&mut m, base);
            push_str(&mut m, "' is declared");
            report(diags, "E0653", m);
        }
        proof {
            let next = tokens@.subrange(0, i + 1);
            assert(findings(diags@) =~= start + token_findings(reference@, pin@, next, idv));
        }
        i = i + 1;
    }
    assert(tokens@.subrange(0, tokens@.len() as int) =~= tokens@);
}

/// Appends a finding for every capability token that names a peripheral
/// the chip does not declare (`gpio` is always available).
pub fn check_pin_functions(reference: &str, chip: &ChipPackageFile, diags: &mut Vec<Diagnostic>)
    ensures
        plain_errors(old(diags)@) ==> plain_errors(final(diags)@),
        findings(final(diags)@) == findings(old(diags)@) + pin_function_findings(
            reference@,
            chip.pin_functions@,
            peripheral_ids(chip.peripherals),
        ),
{
    let ghost start = findings(diags@);
    let ids = chip.declared_ids();
    let pins = &chip.pin_functions;
    let mut i: usize = 0;
    while i < pins.len()
        invariant
            i <= pins@.len(),
            ids@.map_values(|s: &str| s@) == peripheral_ids(chip.peripherals),
            plain_errors(old(diags)@) ==> plain_errors(diags@),
            findings(diags@) == start + pin_function_findings(
                reference@,
                pins@.subrange(0, i as int),
                peripheral_ids(chip.peripherals),
            ),
        decreases pins@.len() - i,
    {
        proof {
            let next = pins@.subrange(0, i + 1);
            assert(next.drop_last() =~= pins@.subrange(0, i as int));
        }
        check_tokens(reference, pins[i].0.as_str(), &pins[i].1, &ids, diags);
        proof {
            let next = pins@.subrange(0, i + 1);
            assert(findings(diags@) =~= start + pin_function_findings(
                reference@,
                next,
                peripheral_ids(chip.peripherals),
            ));
        }
        i = i + 1;
    }
    assert(pins@.subrange(0, pins@.len() as int) =~= pins@);
}

/// A DMA channel id is `<controller>.<channel>`, both identifiers.
pub open spec fn dma_id_ok(id: Seq<char>) -> bool {
    match split_at_first(id, "."@) {
        Some((controller, sub)) => is_valid_identifier(controller) && is_valid_identifier(sub),
        None => false,
    }
}

/// A route names a declared bus and a signal identifier.
pub open spec fn route_ok(route: Seq<char>, bus_ids: Seq<Seq<char>>) -> bool {
    match split_at_first(route, "."@) {
        Some((bus, signal)) => bus_ids.contains(bus) && is_valid_identifier(signal),
        None => false,
    }
}

/// The well-formed channel ids seen so far.
pub open spec fn seen_channel_ids(channels: Seq<DmaChannel>) -> Set<Seq<char>>
    decreases channels.len(),
{
    if channels.len() == 0 {
        Set::empty()
    } else {
        let seen = seen_channel_ids(channels.drop_last());
        if dma_id_ok(channels.last().id@) {
            seen.insert(channels.last().id@)
        } else {
            seen
        }
    }
}

/// Findings for one channel's routes.
pub open spec fn route_findings(
    reference: Seq<char>,
    id: Seq<char>,
    routes: Seq<String>,
    bus_ids: Seq<Seq<char>>,
) -> Seq<(Seq<char>, Seq<char>)>
    decreases routes.len(),
{
    if routes.len() == 0 {
        seq![]
    } else {
        route_findings(reference, id, routes.drop_last(), bus_ids) + finding_if(
            !route_ok(routes.last()@, bus_ids),
            "E0658"@,
            reference + ": DMA channel '"@ + id + "' route '"@ + routes.last()@
                + "' must name a declared bus signal"@,
        )
    }
}

/// Findings for every DMA channel in order: a malformed or repeated id,
/// then each route that names no declared bus signal.
pub open spec fn dma_findings(
    reference: Seq<char>,
    channels: Seq<DmaChannel>,
    bus_ids: Seq<Seq<char>>,
) -> Seq<(Seq<char>, Seq<char>)>
    decreases channels.len(),
{
    if channels.len() == 0 {
        seq![]
    } else {
        let c = channels.last();
        let seen = seen_channel_ids(channels.drop_last());
        dma_findings(reference, channels.drop_last(), bus_ids) + finding_if(
            !dma_id_ok(c.id@) || seen.contains(c.id@),
            "E0657"@,
            reference + ": DMA channel id '"@ + c.id@
                + "' must be a unique '<controller>.<channel>' identifier"@,
        ) + route_findings(reference, c.id@, c.routes@, bus_ids)
    }
}

fn dma_id_valid(id: &str) -> (ok: bool)
    ensures
        ok == dma_id_ok(id@),
{
    proof {
        reveal_strlit(".");
    }
    match split_once(id, ".") {
        Some((controller, sub)) => valid_identifier(controller) && valid_identifier(sub),
        None => false,
    }
}

fn route_valid(route: &str, bus_ids: &Vec<&str>) -> (ok: bool)
    ensures
        ok == route_ok(route@, bus_ids@.map_values(|s: &str| s@)),
{
    proof {
        reveal_strlit(".");
    }
    match split_once(route, ".") {
        Some((bus, signal)) => contains_id(bus_ids, bus) && valid_identifier(signal),
        None => false,
    }
}

fn check_routes(
    reference: &str,
    channel: &DmaChannel,
    bus_ids: &Vec<&str>,
    diags: &mut Vec<Diagnostic>,
)
    ensures
        plain_errors(old(diags)@) ==> plain_errors(final(diags)@),
        findings(final(diags)@) == findings(old(diags)@) + route_findings(
            reference@,
            channel.id@,
            channel.routes@,
            bus_ids@.map_values(|s: &str| s@),
        ),
{
    let ghost start = findings(diags@);
    let ghost bv = bus_ids@.map_values(|s: &str| s@);
    let routes = &channel.routes;
    let mut i: usize = 0;
    while i < routes.len()
        invariant
            i <= routes@.len(),
            bv == bus_ids@.map_values(|s: &str| s@),
            plain_errors(old(diags)@) ==> plain_errors(diags@),
            findings(diags@) == start + route_findings(
                reference@,
                channel.id@,
                routes@.subrange(0, i as int),
                bv,
            ),
        decreases routes@.len() - i,
    {
        proof {
            let next = routes@.subrange(0, i + 1);
            assert(next.drop_last() =~= routes@.subrange(0, i as int));
        }
        if !route_valid(routes[i].as_str(), bus_ids) {
            let mut m = reference.to_owned();
            push_str(&mut m, ": DMA channel '");
            push_str(&mut m, channel.id.as_str());
            push_str(&mut m, "' route '");
            push_str(&mut m, routes[i].as_str());
            push_str(&mut m, "' must name a declared bus signal");
            report(diags, "E0658", m);
        }
        proof {
            let next = routes@.subrange(0, i + 1);
            assert(findings(diags@) =~= start + route_findings(reference@, channel.id@, next, bv));
        }
        i = i + 1;
    }
    assert(routes@.subrange(0, routes@.len() as int) =~= routes@);
}

/// Appends a finding for every malformed or repeated DMA channel id and
/// every route that names no declared bus signal.
pub fn check_dma_channels(reference: &str, chip: &ChipPackageFile, diags: &mut Vec<Diagnostic>)
    ensures
        plain_errors(old(diags)@) ==> plain_errors(final(diags)@),
        findings(final(diags)@) == findings(old(diags)@) + dma_findings(
            reference@,
            chip.peripherals.dma@,
            all_buses(chip.peripherals).map_values(|b: Bus| b.id@),
        ),
{
    let ghost start = findings(diags@);
    let buses = chip.buses();
    let mut bus_ids: Vec<&str> = Vec::new();
    let mut b: usize = 0;
    let ghost all = all_buses(chip.peripherals);
    while b < buses.len()
        invariant
            b <= buses@.len(),
            buses@.len() == all.len(),
            all == all_buses(chip.peripherals),
            forall|m: int| 0 <= m < buses@.len() ==> *buses@[m] == all[m],
            bus_ids@.map_values(|s: &str| s@) == all.subrange(0, b as int).map_values(
                |x: Bus| x.id@,
            ),
        decreases buses@.len() - b,
    {
        let ghost before = bus_ids@;
        let item = buses[b].id.as_str();
        bus_ids.push(item);
        proof {
            lemma_push_views(before, item);
            lemma_prefix_views(all, b as int, |x: Bus| x.id@);
        }
        b = b + 1;
    }
    assert(all.subrange(0, all.len() as int) =~= all);
    let ghost bv = bus_ids@.map_values(|s: &str| s@);
    let dma = &chip.peripherals.dma;
    let mut seen: Vec<&str> = Vec::new();
    let mut i: usize = 0;
    while i < dma.len()
        invariant
            i <= dma@.len(),
            bv == bus_ids@.map_values(|s: &str| s@),
            bv == all_buses(chip.peripherals).map_values(|x: Bus| x.id@),
            seen@.map_values(|s: &str| s@).to_set() == seen_channel_ids(dma@.subrange(0, i as int)),
            plain_errors(old(diags)@) ==> plain_errors(diags@),
            findings(diags@) == start + dma_findings(reference@, dma@.subrange(0, i as int), bv),
        decreases dma@.len() - i,
    {
        proof {
            let next = dma@.subrange(0, i + 1);
            assert(next.drop_last() =~= dma@.subrange(0, i as int));
        }
        let id = dma[i].id.as_str();
        let valid = dma_id_valid(id);
        let repeated = if valid {
            contains_id(&seen, id)
        } else {
            false
        };
        proof {
            if valid {
                let sv = seen@.map_values(|s: &str| s@);
                assert(sv.contains(id@) == sv.to_set().contains(id@));
            }
        }
        if !valid || repeated {
            let mut m = reference.to_owned();
            push_str(&mut m, ": DMA channel id '");
            push_str(&mut m, id);
            push_str(&mut m, "' must be a unique '<controller>.<channel>' identifier");
            report(diags, "E0657", m);
        }
        if valid {
            let ghost before = seen@;
            seen.push(id);
            proof {
                lemma_push_views(before, id);
                lemma_push_to_set(before.map_values(|s: &str| s@), id@);
            }
        }
        check_routes(reference, &dma[i], &bus_ids, diags);
        proof {
            let next = dma@.subrange(0, i + 1);
            assert(findings(diags@) =~= start + dma_findings(reference@, next, bv));
        }
        i = i + 1;
    }
    assert(dma@.subrange(0, dma@.len() as int) =~= dma@);
}

// ---------------------------------------------------------------------------
// Bus quantities
// ---------------------------------------------------------------------------

/// What the quantity reader made of one bus's metadata: why its
/// `max_frequency` is not a frequency (if it is not), and its latency and
/// jitter budgets as times.
#[derive(Debug, Clone)]
pub struct BusReading {
    pub frequency_problem: Option<String>,
    pub latency: TimingReading,
    pub jitter: TimingReading,
}

/// The finding on a present timing budget that is negative or not a time.
pub open spec fn timing_finding(
    reference: Seq<char>,
    id: Seq<char>,
    field: Seq<char>,
    code: Seq<char>,
    raw: Option<String>,
    reading: TimingReading,
) -> Seq<(Seq<char>, Seq<char>)> {
    match raw {
        None => seq![],
        Some(_) => match reading {
            TimingReading::NonNegative => seq![],
            TimingReading::Negative => seq![
                finding(code, reference + ": bus '"@ + id + "' "@ + field + " must be non-negative"@),
            ],
            TimingReading::Unreadable(e) => seq![finding(code, reference + ": bus '"@ + id + "' "@ + field + ": "@ + e@)],
        },
    }
}

/// A bus's quantity findings: its frequency (E0654), latency (E0655) and
/// jitter (E0656).
pub open spec fn bus_quantity_findings(reference: Seq<char>, b: Bus, r: BusReading) -> Seq<(Seq<char>, Seq<char>)> {
    (match (b.max_frequency, r.frequency_problem) {
        (Some(_), Some(e)) => seq![finding("E0654"@, reference + ": bus '"@ + b.id@ + "' max_frequency: "@ + e@)],
        _ => seq![],
    }) + timing_finding(reference, b.id@, "worst_case_latency"@, "E0655"@, b.worst_case_latency, r.latency)
        + timing_finding(reference, b.id@, "worst_case_jitter"@, "E0656"@, b.worst_case_jitter, r.jitter)
}

pub open spec fn buses_quantity_findings(
    reference: Seq<char>,
    buses: Seq<Bus>,
    readings: Seq<BusReading>,
) -> Seq<(Seq<char>, Seq<char>)>
    decreases buses.len(),
{
    if buses.len() == 0 || readings.len() < buses.len() {
        seq![]
    } else {
        buses_quantity_findings(reference, buses.drop_last(), readings) + bus_quantity_findings(
            reference,
            buses.last(),
            readings[buses.len() - 1],
        )
    }
}

fn report_timing(
    diags: &mut Vec<Diagnostic>,
    reference: &str,
    id: &str,
    field: &str,
    code: &str,
    raw: &Option<String>,
    reading: &TimingReading,
)
    ensures
        plain_errors(old(diags)@) ==> plain_errors(final(diags)@),
        findings(final(diags)@) == findings(old(diags)@) + timing_finding(reference@, id@, field@, code@, *raw, *reading),
{
    let ghost before = findings(diags@);
    if raw.is_some() {
        match reading {
            TimingReading::NonNegative => {},
            TimingReading::Negative => {
                let mut message = reference.to_owned();
                push_str(&mut message, ": bus '");
                push_str(&mut message, id);
                push_str(&mut message, "' ");
                push_str(&mut message, field);
                push_str(&mut message, " must be non-negative");
                report(diags, code, message);
                return ;
            },
            TimingReading::Unreadable(e) => {
                let mut message = reference.to_owned();
                push_str(&mut message, ": bus '");
                push_str(&mut message, id);
                push_str(&mut message, "' ");
                push_str(&mut message, field);
                push_str(&mut message, ": ");
                push_str(&mut message, e.as_str());
                report(diags, code, message);
                return ;
            },
        }
    }
    assert(before + Seq::<(Seq<char>, Seq<char>)>::empty() =~= before);
}

/// Appends the findings on each bus's quantities, given what the quantity
/// reader made of them (`readings[i]` for the `i`-th bus: SPI, then I2C,
/// then UART).
pub fn check_bus_quantities(
    reference: &str,
    chip: &ChipPackageFile,
    readings: &Vec<BusReading>,
    diags: &mut Vec<Diagnostic>,
)
    requires
        readings@.len() == all_buses(chip.peripherals).len(),
    ensures
        plain_errors(old(diags)@) ==> plain_errors(final(diags)@),
        findings(final(diags)@) == findings(old(diags)@) + buses_quantity_findings(
            reference@,
            all_buses(chip.peripherals),
            readings@,
        ),
{
    let ghost start = findings(diags@);
    let ghost all = all_buses(chip.peripherals);
    let buses = chip.buses();
    let mut i: usize = 0;
    assert(start + Seq::<(Seq<char>, Seq<char>)>::empty() =~= start);
    while i < buses.len()
        invariant
            i <= buses@.len(),
            buses@.len() == all.len(),
            readings@.len() == all.len(),
            all == all_buses(chip.peripherals),
            forall|m: int| 0 <= m < buses@.len() ==> *buses@[m] == all[m],
            plain_errors(old(diags)@) ==> plain_errors(diags@),
            start == findings(old(diags)@),
            findings(diags@) == start + buses_quantity_findings(reference@, all.subrange(0, i as int), readings@),
        decreases buses@.len() - i,
    {
        let b = buses[i];
        let r = &readings[i];
        let ghost mid = findings(diags@);
        match (&b.max_frequency, &r.frequency_problem) {
            (Some(_), Some(e)) => {
                let mut message = reference.to_owned();
                push_str(&mut message, ": bus '");
                push_str(&mut message, b.id.as_str());
                push_str(&mut message, "' max_frequency: ");
                push_str(&mut message, e.as_str());
                report(diags, "E0654", message);
            },
            _ => {},
        }
        report_timing(diags, reference, b.id.as_str(), "worst_case_latency", "E0655", &b.worst_case_latency, &r.latency);
        report_timing(diags, reference, b.id.as_str(), "worst_case_jitter", "E0656", &b.worst_case_jitter, &r.jitter);
        proof {
            let prefix = all.subrange(0, i + 1);
            assert(prefix.drop_last() =~= all.subrange(0, i as int));
            assert(prefix.last() == all[i as int]);
            let bv: Bus = *b;
            let rv: BusReading = *r;
            let f = match (bv.max_frequency, rv.frequency_problem) {
                (Some(_), Some(e)) => seq![finding("E0654"@, reference@ + ": bus '"@ + b.id@ + "' max_frequency: "@ + e@)],
                _ => Seq::<(Seq<char>, Seq<char>)>::empty(),
            };
            assert(findings(diags@) =~= mid + f + timing_finding(reference@, b.id@, "worst_case_latency"@, "E0655"@, b.worst_case_latency, r.latency)
                + timing_finding(reference@, b.id@, "worst_case_jitter"@, "E0656"@, b.worst_case_jitter, r.jitter));
            assert(findings(diags@) =~= start + buses_quantity_findings(reference@, prefix, readings@));
        }
        i = i + 1;
    }
    assert(all.subrange(0, all.len() as int) =~= all);
}

} // verus!
