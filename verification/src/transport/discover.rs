//! What is plugged in right now, as rows of the interface picker.

use vstd::prelude::*;

use super::gs_usb::{describe_ids, is_known, lower, push_lower_hex, spec_describe_ids};
use super::spec::TransportSpec;
use crate::fmt::{push_bitrate, spec_fmt_bitrate};
use crate::order::{keyed, lemma_sort_commutes, lemma_sorted_items_come_from, map_vals, sort_by_key, sorted_by_key};
use crate::text::{
    chars_of, contains_text, find_text, hex_fixed, lowercase, padded_decimal, push_padded_decimal,
    push_str, starts_with, string_of, to_lowercase,
};

verus! {

/// One row of the interface picker.
pub struct Candidate {
    pub spec: TransportSpec,
    /// Left column: what the thing is.
    pub label: String,
    /// Right column: where it is, or why it might not work.
    pub detail: String,
}

/// A USB device on the bus: where it is, and its vendor and product ids when
/// its descriptor could be read.
#[derive(Clone, Copy, Debug)]
pub struct UsbDevice {
    pub bus: u8,
    pub address: u8,
    pub ids: Option<(u16, u16)>,
}

/// A serial port the system lists, with its USB details when it is a USB port.
#[derive(Clone, Debug)]
pub struct SerialPort {
    pub name: String,
    pub usb: Option<UsbSerial>,
}

#[derive(Clone, Debug)]
pub struct UsbSerial {
    pub vid: u16,
    pub pid: u16,
    pub product: Option<String>,
}

/// A network interface, with its state and, for a CAN link, its bitrate.
#[derive(Clone, Debug)]
pub struct NetIface {
    pub name: String,
    /// `up`, `down`, or whatever the kernel reports.
    pub state: String,
    pub bitrate: Option<u32>,
}

/// A picker row as (spec, label, detail) by their views.
pub open spec fn row(c: Candidate) -> (TransportSpec, Seq<char>, Seq<char>) {
    (c.spec, c.label@, c.detail@)
}

pub open spec fn rows(cs: Seq<Candidate>) -> Seq<(TransportSpec, Seq<char>, Seq<char>)> {
    cs.map_values(|c: Candidate| row(c))
}

/// The row of a gs_usb device, when its ids are ones we drive: at the given
/// bitrate, named by its ids, placed by bus and address (`usb 001:004
/// 1d50:606f`).
pub open spec fn usb_row(d: UsbDevice, bitrate: u32) -> Option<(TransportSpec, Seq<char>, Seq<char>)> {
    match d.ids {
        Some((vid, pid)) => if is_known(vid, pid) {
            Some(
                (
                    TransportSpec::GsUsb { bus: d.bus, address: d.address, vid, pid, bitrate },
                    spec_describe_ids(vid, pid),
                    "usb "@ + padded_decimal(d.bus as nat, 3) + ":"@ + padded_decimal(d.address as nat, 3)
                        + "  "@ + lower(hex_fixed(vid as nat, 4)) + ":"@ + lower(hex_fixed(pid as nat, 4)),
                ),
            )
        } else {
            None
        },
        None => None,
    }
}

/// The rows of the first `n` devices, in order, skipping any we do not drive.
pub open spec fn usb_rows(devs: Seq<UsbDevice>, bitrate: u32, n: int) -> Seq<(TransportSpec, Seq<char>, Seq<char>)>
    decreases n,
{
    if n <= 0 {
        Seq::empty()
    } else {
        let rest = usb_rows(devs, bitrate, n - 1);
        match usb_row(devs[n - 1], bitrate) {
            Some(r) => rest.push(r),
            None => rest,
        }
    }
}

/// The row of a serial port: USB ports only, and not the Bluetooth and
/// console pseudo-ports macOS always lists. Named `slcan <port>`, detailed by
/// product name or else ids.
pub open spec fn serial_row(p: SerialPort, bitrate: u32) -> Option<(TransportSpec, Seq<char>, Seq<char>)> {
    let n = lowercase(p.name@);
    match p.usb {
        Some(u) => if !contains_text(n, "bluetooth"@) && !contains_text(n, "debug-console"@) {
            Some(
                (
                    TransportSpec::Slcan { port: p.name, bitrate },
                    "slcan "@ + p.name@,
                    match u.product {
                        Some(name) => name@,
                        None => lower(hex_fixed(u.vid as nat, 4)) + ":"@ + lower(hex_fixed(u.pid as nat, 4)),
                    },
                ),
            )
        } else {
            None
        },
        None => None,
    }
}

pub open spec fn serial_rows(ports: Seq<SerialPort>, bitrate: u32, n: int) -> Seq<(TransportSpec, Seq<char>, Seq<char>)>
    decreases n,
{
    if n <= 0 {
        Seq::empty()
    } else {
        let rest = serial_rows(ports, bitrate, n - 1);
        match serial_row(ports[n - 1], bitrate) {
            Some(r) => rest.push(r),
            None => rest,
        }
    }
}

/// The row of a network interface, when it is a CAN one (`can…` or `vcan…`):
/// its state, and the bitrate it runs at or how to bring it up.
pub open spec fn net_row(i: NetIface) -> Option<(TransportSpec, Seq<char>, Seq<char>)> {
    if i.name@.len() >= 3 && i.name@.subrange(0, 3) == "can"@ || i.name@.len() >= 4 && i.name@.subrange(0, 4)
        == "vcan"@ {
        Some(
            (
                TransportSpec::SocketCan { iface: i.name },
                "socketcan "@ + i.name@,
                match i.bitrate {
                    Some(b) => i.state@ + ", "@ + spec_fmt_bitrate(b),
                    None => i.state@ + " — bring it up with `ip link`"@,
                },
            ),
        )
    } else {
        None
    }
}

pub open spec fn net_rows(ifaces: Seq<NetIface>, n: int) -> Seq<(TransportSpec, Seq<char>, Seq<char>)>
    decreases n,
{
    if n <= 0 {
        Seq::empty()
    } else {
        let rest = net_rows(ifaces, n - 1);
        match net_row(ifaces[n - 1]) {
            Some(r) => rest.push(r),
            None => rest,
        }
    }
}

/// The SocketCAN rows, sorted by label.
pub open spec fn net_rows_sorted(ifaces: Seq<NetIface>) -> Seq<(TransportSpec, Seq<char>, Seq<char>)> {
    let rs = net_rows(ifaces, ifaces.len() as int);
    sorted_by_key(rs.map_values(|r: (TransportSpec, Seq<char>, Seq<char>)| (r.1, r))).map_values(
        |p: (Seq<char>, (TransportSpec, Seq<char>, Seq<char>))| p.1,
    )
}

/// The picker's rows for what is listed: SocketCAN, then gs_usb, then slcan,
/// then the loopback.
pub open spec fn spec_scan(bitrate: u32, net: Seq<NetIface>, devs: Seq<UsbDevice>, ports: Seq<SerialPort>) -> Seq<
    (TransportSpec, Seq<char>, Seq<char>),
> {
    net_rows_sorted(net) + usb_rows(devs, bitrate, devs.len() as int) + serial_rows(ports, bitrate, ports.len() as int)
        + seq![virtual_row()]
}

/// The always-present loopback row.
pub open spec fn virtual_row() -> (TransportSpec, Seq<char>, Seq<char>) {
    (TransportSpec::Virtual, "virtual"@, "loopback — no hardware needed"@)
}

/// Whether a row offers `bitrate` when its kind takes one.
pub open spec fn at_bitrate(spec: TransportSpec, bitrate: u32) -> bool {
    match spec {
        TransportSpec::GsUsb { bitrate: b, .. } => b == bitrate,
        TransportSpec::Slcan { bitrate: b, .. } => b == bitrate,
        _ => true,
    }
}

proof fn lemma_usb_rows_kind(devs: Seq<UsbDevice>, bitrate: u32, n: int)
    ensures
        forall|i: int|
            0 <= i < usb_rows(devs, bitrate, n).len() ==> (#[trigger] usb_rows(devs, bitrate, n)[i]).0 is GsUsb
                && at_bitrate(usb_rows(devs, bitrate, n)[i].0, bitrate),
    decreases n,
{
    if n > 0 {
        lemma_usb_rows_kind(devs, bitrate, n - 1);
    }
}

proof fn lemma_serial_rows_kind(ports: Seq<SerialPort>, bitrate: u32, n: int)
    ensures
        forall|i: int|
            0 <= i < serial_rows(ports, bitrate, n).len() ==> (#[trigger] serial_rows(ports, bitrate, n)[i]).0 is Slcan
                && at_bitrate(serial_rows(ports, bitrate, n)[i].0, bitrate),
    decreases n,
{
    if n > 0 {
        lemma_serial_rows_kind(ports, bitrate, n - 1);
    }
}

proof fn lemma_net_rows_kind(ifaces: Seq<NetIface>, n: int)
    ensures
        forall|i: int| 0 <= i < net_rows(ifaces, n).len() ==> (#[trigger] net_rows(ifaces, n)[i]).0 is SocketCan,
    decreases n,
{
    if n > 0 {
        lemma_net_rows_kind(ifaces, n - 1);
    }
}

proof fn lemma_net_rows_sorted_kind(ifaces: Seq<NetIface>)
    ensures
        forall|i: int| 0 <= i < net_rows_sorted(ifaces).len() ==> (#[trigger] net_rows_sorted(ifaces)[i]).0 is SocketCan,
{
    let rs = net_rows(ifaces, ifaces.len() as int);
    let ks = rs.map_values(|r: (TransportSpec, Seq<char>, Seq<char>)| (r.1, r));
    lemma_net_rows_kind(ifaces, ifaces.len() as int);
    lemma_sorted_items_come_from(ks);
    assert forall|i: int| 0 <= i < net_rows_sorted(ifaces).len() implies (#[trigger] net_rows_sorted(ifaces)[i]).0 is SocketCan by {
        let sorted = sorted_by_key(ks);
        assert(net_rows_sorted(ifaces)[i] == sorted[i].1);
        assert(ks.contains(sorted[i]));
        let j = choose|j: int| 0 <= j < ks.len() && ks[j] == sorted[i];
        assert(ks[j].1 == rs[j]);
    }
}

/// Whatever the machine lists, the loopback is offered, once, as the last
/// row, and every adapter that takes a bitrate is offered at the default one.
pub proof fn law_the_loopback_comes_last_and_once(
    bitrate: u32,
    net: Seq<NetIface>,
    devs: Seq<UsbDevice>,
    ports: Seq<SerialPort>,
)
    ensures
        spec_scan(bitrate, net, devs, ports).len() > 0,
        spec_scan(bitrate, net, devs, ports).last() == virtual_row(),
        forall|i: int|
            0 <= i < spec_scan(bitrate, net, devs, ports).len() - 1 ==> !((#[trigger] spec_scan(
                bitrate,
                net,
                devs,
                ports,
            )[i]).0 is Virtual),
        forall|i: int|
            0 <= i < spec_scan(bitrate, net, devs, ports).len() ==> at_bitrate(
                (#[trigger] spec_scan(bitrate, net, devs, ports)[i]).0,
                bitrate,
            ),
{
    let a = net_rows_sorted(net);
    let b = usb_rows(devs, bitrate, devs.len() as int);
    let c = serial_rows(ports, bitrate, ports.len() as int);
    lemma_net_rows_sorted_kind(net);
    lemma_usb_rows_kind(devs, bitrate, devs.len() as int);
    lemma_serial_rows_kind(ports, bitrate, ports.len() as int);
    let r = spec_scan(bitrate, net, devs, ports);
    assert forall|i: int| 0 <= i < r.len() implies (i < r.len() - 1 ==> !((#[trigger] r[i]).0 is Virtual)) && at_bitrate(
        r[i].0,
        bitrate,
    ) by {
        if i < a.len() {
            assert(r[i] == a[i]);
        } else if i < a.len() + b.len() {
            assert(r[i] == b[i - a.len()]);
        } else if i < a.len() + b.len() + c.len() {
            assert(r[i] == c[i - a.len() - b.len()]);
        } else {
            assert(r[i] == virtual_row());
        }
    }
}

fn push_row(out: &mut Vec<Candidate>, c: Candidate)
    ensures
        rows(final(out)@) == rows(old(out)@).push(row(c)),
{
    out.push(c);
    proof {
        assert(rows(out@) =~= rows(old(out)@).push(row(c)));
    }
}

/// The gs_usb rows of the listed devices (see [`usb_rows`]).
pub fn usb_candidates(devs: &Vec<UsbDevice>, bitrate: u32) -> (cs: Vec<Candidate>)
    ensures
        rows(cs@) == usb_rows(devs@, bitrate, devs@.len() as int),
{
    let mut cs: Vec<Candidate> = Vec::new();
    let mut i: usize = 0;
    while i < devs.len()
        invariant
            0 <= i <= devs@.len(),
            rows(cs@) == usb_rows(devs@, bitrate, i as int),
        decreases devs@.len() - i,
    {
        let d = devs[i];
        if let Some((vid, pid)) = d.ids {
            if super::gs_usb::known_ids(vid, pid) {
                let mut t: Vec<char> = Vec::new();
                push_str(&mut t, "usb ");
                push_padded_decimal(&mut t, d.bus as u64, 3);
                push_str(&mut t, ":");
                push_padded_decimal(&mut t, d.address as u64, 3);
                push_str(&mut t, "  ");
                push_lower_hex(&mut t, vid);
                push_str(&mut t, ":");
                push_lower_hex(&mut t, pid);
                let c = Candidate {
                    spec: TransportSpec::GsUsb { bus: d.bus, address: d.address, vid, pid, bitrate },
                    label: describe_ids(vid, pid),
                    detail: string_of(&t),
                };
                proof {
                    assert(t@ =~= "usb "@ + padded_decimal(d.bus as nat, 3) + ":"@ + padded_decimal(
                        d.address as nat,
                        3,
                    ) + "  "@ + lower(hex_fixed(vid as nat, 4)) + ":"@ + lower(hex_fixed(pid as nat, 4)));
                }
                push_row(&mut cs, c);
            }
        }
        i = i + 1;
    }
    cs
}

/// The slcan rows of the listed serial ports (see [`serial_rows`]).
pub fn serial_candidates(ports: &Vec<SerialPort>, bitrate: u32) -> (cs: Vec<Candidate>)
    ensures
        rows(cs@) == serial_rows(ports@, bitrate, ports@.len() as int),
{
    let mut cs: Vec<Candidate> = Vec::new();
    let mut i: usize = 0;
    while i < ports.len()
        invariant
            0 <= i <= ports@.len(),
            rows(cs@) == serial_rows(ports@, bitrate, i as int),
        decreases ports@.len() - i,
    {
        let p = &ports[i];
        if let Some(u) = &p.usb {
            let n = chars_of(to_lowercase(p.name.as_str()).as_str());
            if !find_text(&n, "bluetooth") && !find_text(&n, "debug-console") {
                let mut label: Vec<char> = Vec::new();
                push_str(&mut label, "slcan ");
                push_str(&mut label, p.name.as_str());
                let detail = match &u.product {
                    Some(name) => name.clone(),
                    None => {
                        let mut t: Vec<char> = Vec::new();
                        push_lower_hex(&mut t, u.vid);
                        push_str(&mut t, ":");
                        push_lower_hex(&mut t, u.pid);
                        string_of(&t)
                    },
                };
                let c = Candidate {
                    spec: TransportSpec::Slcan { port: p.name.clone(), bitrate },
                    label: string_of(&label),
                    detail,
                };
                push_row(&mut cs, c);
            }
        }
        i = i + 1;
    }
    cs
}

/// The SocketCAN rows of the listed interfaces, sorted by label (see
/// [`net_rows_sorted`]).
pub fn net_candidates(ifaces: &Vec<NetIface>) -> (cs: Vec<Candidate>)
    ensures
        rows(cs@) == net_rows_sorted(ifaces@),
{
    let mut found: Vec<Candidate> = Vec::new();
    let mut i: usize = 0;
    while i < ifaces.len()
        invariant
            0 <= i <= ifaces@.len(),
            rows(found@) == net_rows(ifaces@, i as int),
        decreases ifaces@.len() - i,
    {
        let f = &ifaces[i];
        let name = chars_of(f.name.as_str());
        proof {
            reveal_strlit("can");
            reveal_strlit("vcan");
        }
        if starts_with(&name, "can") || starts_with(&name, "vcan") {
            let mut label: Vec<char> = Vec::new();
            push_str(&mut label, "socketcan ");
            push_str(&mut label, f.name.as_str());
            let mut detail: Vec<char> = Vec::new();
            push_str(&mut detail, f.state.as_str());
            match f.bitrate {
                Some(b) => {
                    push_str(&mut detail, ", ");
                    push_bitrate(&mut detail, b);
                },
                None => {
                    push_str(&mut detail, " — bring it up with `ip link`");
                },
            }
            let c = Candidate {
                spec: TransportSpec::SocketCan { iface: f.name.clone() },
                label: string_of(&label),
                detail: string_of(&detail),
            };
            push_row(&mut found, c);
        }
        i = i + 1;
    }
    let ghost rs = rows(found@);
    let ghost as_row = |c: Candidate| row(c);
    let ghost by_label = rs.map_values(|r: (TransportSpec, Seq<char>, Seq<char>)| (r.1, r));
    // Pair each row with its label, sort, and take the rows back out.
    let mut pairs: Vec<(Vec<char>, Candidate)> = Vec::new();
    let mut rest = found;
    while rest.len() > 0
        invariant
            pairs@.len() + rest@.len() == rs.len(),
            rows(rest@) == rs.subrange(pairs@.len() as int, rs.len() as int),
            map_vals(keyed(pairs@), as_row) == by_label.subrange(0, pairs@.len() as int),
            by_label == rs.map_values(|r: (TransportSpec, Seq<char>, Seq<char>)| (r.1, r)),
            as_row == (|c: Candidate| row(c)),
        decreases rest@.len(),
    {
        let ghost before = rows(rest@);
        let ghost n = pairs@.len() as int;
        let c = rest.remove(0);
        let k = chars_of(c.label.as_str());
        let ghost cv = row(c);
        pairs.push((k, c));
        proof {
            assert(before[0] == cv);
            assert(rows(rest@) =~= before.subrange(1, before.len() as int));
            assert(rs[n] == cv);
            assert(map_vals(keyed(pairs@), as_row) =~= by_label.subrange(0, n + 1));
        }
    }
    proof {
        assert(by_label.subrange(0, rs.len() as int) =~= by_label);
        lemma_sort_commutes(keyed(pairs@), as_row);
    }
    let sorted = sort_by_key(pairs);
    let ghost order = map_vals(keyed(sorted@), as_row);
    let mut cs: Vec<Candidate> = Vec::new();
    let mut rest2 = sorted;
    while rest2.len() > 0
        invariant
            cs@.len() + rest2@.len() == order.len(),
            map_vals(keyed(rest2@), as_row) == order.subrange(cs@.len() as int, order.len() as int),
            rows(cs@) == order.subrange(0, cs@.len() as int).map_values(
                |p: (Seq<char>, (TransportSpec, Seq<char>, Seq<char>))| p.1,
            ),
            as_row == (|c: Candidate| row(c)),
        decreases rest2@.len(),
    {
        let ghost before = map_vals(keyed(rest2@), as_row);
        let ghost n = cs@.len() as int;
        let p = rest2.remove(0);
        proof {
            assert(before[0] == (p.0@, row(p.1)));
            assert(map_vals(keyed(rest2@), as_row) =~= before.subrange(1, before.len() as int));
        }
        push_row(&mut cs, p.1);
        proof {
            assert(rows(cs@) =~= order.subrange(0, n + 1).map_values(
                |p: (Seq<char>, (TransportSpec, Seq<char>, Seq<char>))| p.1,
            ));
        }
    }
    proof {
        assert(order.subrange(0, order.len() as int) =~= order);
    }
    cs
}

/// Everything we can see, best guess first: the SocketCAN interfaces listed
/// (sorted by name), then each gs_usb adapter and slcan port among those the
/// system lists, then the loopback.
pub fn scan(default_bitrate: u32, net: &Vec<NetIface>, devs: &Vec<UsbDevice>, ports: &Vec<SerialPort>) -> (cs: Vec<Candidate>)
    ensures
        rows(cs@) == spec_scan(default_bitrate, net@, devs@, ports@),
{
    let mut out = net_candidates(net);
    let mut usb = usb_candidates(devs, default_bitrate);
    let mut serial = serial_candidates(ports, default_bitrate);
    let ghost a = rows(out@);
    let ghost b = rows(usb@);
    let ghost c = rows(serial@);
    out.append(&mut usb);
    out.append(&mut serial);
    let v = Candidate {
        spec: TransportSpec::Virtual,
        label: String::from_str("virtual"),
        detail: String::from_str("loopback — no hardware needed"),
    };
    proof {
        reveal_strlit("virtual");
        reveal_strlit("loopback — no hardware needed");
    }
    push_row(&mut out, v);
    proof {
        assert(rows(out@) =~= a + b + c + seq![virtual_row()]);
    }
    out
}

} // verus!
