//! Choosing the serial port of the display: every port gets a score by how
//! likely it is to be the ESP32-C3, and ports are tried best first.
use vstd::prelude::*;
use vstd::multiset::Multiset;
use crate::text::{
    contains, contains_exec, push_str, to_ascii_lowercase, ascii_lowercase, to_chars,
};

verus! {

/// What the system reports of a USB serial port.
pub struct UsbPortInfo {
    pub vid: u16,
    pub pid: u16,
    pub serial_number: Option<String>,
    pub manufacturer: Option<String>,
    pub product: Option<String>,
}

/// How a serial port is connected.
pub enum PortType {
    UsbPort(UsbPortInfo),
    PciPort,
    BluetoothPort,
    Unknown,
}

/// A serial port that the system lists.
pub struct PortInfo {
    pub port_name: String,
    pub port_type: PortType,
}

/// Espressif's USB vendor id.
pub const ESPRESSIF_VID: u16 = 0x303a;

/// Silicon Labs (CP210x bridges).
pub const SILICON_LABS_VID: u16 = 0x10c4;

/// WCH (CH34x bridges).
pub const WCH_VID: u16 = 0x1a86;

pub open spec fn text_or_empty(s: Option<String>) -> Seq<char> {
    match s {
        Some(t) => t@,
        None => Seq::empty(),
    }
}

/// `"{manufacturer} {product} {serial_number}"` in ASCII lower case.
pub open spec fn usb_description(usb: UsbPortInfo) -> Seq<char> {
    to_ascii_lowercase(
        text_or_empty(usb.manufacturer) + seq![' '] + text_or_empty(usb.product) + seq![' ']
            + text_or_empty(usb.serial_number),
    )
}

/// The port is most likely the display: Espressif's vendor id or name.
pub open spec fn is_espressif(usb: UsbPortInfo) -> bool {
    let t = usb_description(usb);
    usb.vid == ESPRESSIF_VID || contains(t, "espressif"@) || contains(t, "esp32"@)
}

/// The port is a common USB serial bridge.
pub open spec fn is_serial_bridge(usb: UsbPortInfo) -> bool {
    let t = usb_description(usb);
    ||| usb.vid == SILICON_LABS_VID
    ||| usb.vid == WCH_VID
    ||| contains(t, "usb jtag"@)
    ||| contains(t, "usb serial"@)
    ||| contains(t, "cp210"@)
    ||| contains(t, "ch34"@)
}

/// 0 for the display's own USB device, 1 for a common USB serial bridge,
/// 2 for another USB port, 3 for a port that is not on USB.
pub open spec fn score_of(info: PortInfo) -> u8 {
    match info.port_type {
        PortType::UsbPort(usb) => if is_espressif(usb) {
            0
        } else if is_serial_bridge(usb) {
            1
        } else {
            2
        },
        _ => 3,
    }
}

pub open spec fn has_score(k: u8) -> spec_fn(PortInfo) -> bool {
    |p: PortInfo| score_of(p) == k
}

/// The ports in ascending order of score, ports of one score in their listed order.
pub open spec fn ranked(ports: Seq<PortInfo>) -> Seq<PortInfo> {
    ports.filter(has_score(0)) + ports.filter(has_score(1)) + ports.filter(has_score(2))
        + ports.filter(has_score(3))
}

/// The ports worth opening, best first: all but those not on USB.
pub open spec fn candidates(ports: Seq<PortInfo>) -> Seq<PortInfo> {
    ports.filter(has_score(0)) + ports.filter(has_score(1)) + ports.filter(has_score(2))
}

fn push_text(s: &mut Vec<char>, t: &Option<String>)
    ensures
        final(s)@ == old(s)@ + text_or_empty(*t),
{
    match t {
        Some(text) => {
            let chars = to_chars(text.as_str());
            let mut i: usize = 0;
            let ghost start = s@;
            while i < chars.len()
                invariant
                    i <= chars.len(),
                    s@ == start + chars@.take(i as int),
                decreases chars.len() - i,
            {
                s.push(chars[i]);
                proof {
                    assert(chars@.take(i + 1) =~= chars@.take(i as int).push(chars@[i as int]));
                }
                i = i + 1;
            }
            proof {
                assert(chars@.take(i as int) =~= chars@);
            }
        },
        None => {
            proof {
                assert(old(s)@ + Seq::<char>::empty() =~= old(s)@);
            }
        },
    }
}

fn description(usb: &UsbPortInfo) -> (r: Vec<char>)
    ensures
        r@ == usb_description(*usb),
{
    let mut raw: Vec<char> = Vec::new();
    push_text(&mut raw, &usb.manufacturer);
    raw.push(' ');
    push_text(&mut raw, &usb.product);
    raw.push(' ');
    push_text(&mut raw, &usb.serial_number);
    proof {
        assert(raw@ =~= text_or_empty(usb.manufacturer) + seq![' '] + text_or_empty(usb.product)
            + seq![' '] + text_or_empty(usb.serial_number));
    }
    ascii_lowercase(&raw)
}

fn has_text(t: &Vec<char>, pattern: &str) -> (b: bool)
    ensures
        b == contains(t@, pattern@),
{
    let p = to_chars(pattern);
    contains_exec(t, &p)
}

/// How likely `info` is to be the display's port: 0 (best) to 3.
pub fn port_score(info: &PortInfo) -> (r: u8)
    ensures
        r == score_of(*info),
{
    match &info.port_type {
        PortType::UsbPort(usb) => {
            let text = description(usb);
            if usb.vid == ESPRESSIF_VID || has_text(&text, "espressif") || has_text(&text, "esp32") {
                0
            } else if usb.vid == SILICON_LABS_VID || usb.vid == WCH_VID || has_text(&text, "usb jtag")
                || has_text(&text, "usb serial") || has_text(&text, "cp210") || has_text(
                &text,
                "ch34",
            ) {
                1
            } else {
                2
            }
        },
        _ => 3,
    }
}

/// How a port scores, stated from what the system reports of it. Let the
/// description be `"{manufacturer} {product} {serial_number}"` in ASCII lower
/// case, a missing field giving the empty text. A USB port whose vendor id is
/// Espressif's (0x303a), or whose description names "espressif" or "esp32",
/// scores 0 whatever else the description says. Any other USB port scores 1
/// when its vendor id is Silicon Labs' (0x10c4) or WCH's (0x1a86) or its
/// description names "usb jtag", "usb serial", "cp210" or "ch34", and 2
/// otherwise. A port that is not on USB scores 3.
pub proof fn lemma_score_classes(info: PortInfo)
    ensures
        (match info.port_type {
            PortType::UsbPort(usb) => {
                let d = to_ascii_lowercase(
                    (match usb.manufacturer {
                        Some(t) => t@,
                        None => Seq::<char>::empty(),
                    }) + seq![' '] + (match usb.product {
                        Some(t) => t@,
                        None => Seq::<char>::empty(),
                    }) + seq![' '] + (match usb.serial_number {
                        Some(t) => t@,
                        None => Seq::<char>::empty(),
                    }),
                );
                let espressif = usb.vid == 0x303a || contains(d, "espressif"@) || contains(
                    d,
                    "esp32"@,
                );
                let bridge = usb.vid == 0x10c4 || usb.vid == 0x1a86 || contains(d, "usb jtag"@)
                    || contains(d, "usb serial"@) || contains(d, "cp210"@) || contains(d, "ch34"@);
                &&& (score_of(info) == 0 <==> espressif)
                &&& (score_of(info) == 1 <==> !espressif && bridge)
                &&& (score_of(info) == 2 <==> !espressif && !bridge)
            },
            _ => score_of(info) == 3,
        }),
{
    match info.port_type {
        PortType::UsbPort(usb) => {
            assert(text_or_empty(usb.manufacturer) == (match usb.manufacturer {
                Some(t) => t@,
                None => Seq::<char>::empty(),
            }));
            assert(text_or_empty(usb.product) == (match usb.product {
                Some(t) => t@,
                None => Seq::<char>::empty(),
            }));
            assert(text_or_empty(usb.serial_number) == (match usb.serial_number {
                Some(t) => t@,
                None => Seq::<char>::empty(),
            }));
        },
        _ => {},
    }
}

proof fn lemma_score_bound(info: PortInfo)
    ensures
        score_of(info) <= 3,
{
}

/// Puts `ports` in the order in which they are tried: a stable sort by score.
pub fn rank_ports(ports: Vec<PortInfo>) -> (r: Vec<PortInfo>)
    ensures
        r@ == ranked(ports@),
{
    let ghost all = ports@;
    let mut b0: Vec<PortInfo> = Vec::new();
    let mut b1: Vec<PortInfo> = Vec::new();
    let mut b2: Vec<PortInfo> = Vec::new();
    let mut b3: Vec<PortInfo> = Vec::new();
    proof {
        assert(all.take(0) =~= Seq::<PortInfo>::empty());
        reveal_with_fuel(Seq::filter, 1);
    }
    for p in it: ports
        invariant
            it.seq() == all,
            b0@ == all.take(it.index() as int).filter(has_score(0)),
            b1@ == all.take(it.index() as int).filter(has_score(1)),
            b2@ == all.take(it.index() as int).filter(has_score(2)),
            b3@ == all.take(it.index() as int).filter(has_score(3)),
    {
        let ghost i = it.index() as int;
        proof {
            assert(all.take(i + 1) =~= all.take(i).push(p));
            all.take(i).lemma_filter_push(p, has_score(0));
            all.take(i).lemma_filter_push(p, has_score(1));
            all.take(i).lemma_filter_push(p, has_score(2));
            all.take(i).lemma_filter_push(p, has_score(3));
            lemma_score_bound(p);
        }
        let s = port_score(&p);
        if s == 0 {
            b0.push(p);
        } else if s == 1 {
            b1.push(p);
        } else if s == 2 {
            b2.push(p);
        } else {
            b3.push(p);
        }
    }
    proof {
        assert(all.take(all.len() as int) =~= all);
    }
    b0.append(&mut b1);
    b0.append(&mut b2);
    b0.append(&mut b3);
    b0
}

pub open spec fn worth_trying() -> spec_fn(PortInfo) -> bool {
    |p: PortInfo| score_of(p) < 3
}

/// The ports to try opening, in order: the ranked ports without those not on USB.
pub fn connection_candidates(ports: Vec<PortInfo>) -> (r: Vec<PortInfo>)
    ensures
        r@ == ranked(ports@).filter(worth_trying()),
{
    let ranked_ports = rank_ports(ports);
    let ghost all = ranked_ports@;
    let mut r: Vec<PortInfo> = Vec::new();
    proof {
        reveal_with_fuel(Seq::filter, 1);
    }
    for p in it: ranked_ports
        invariant
            it.seq() == all,
            r@ == all.take(it.index() as int).filter(worth_trying()),
    {
        proof {
            assert(all.take(it.index() + 1) =~= all.take(it.index() as int).push(p));
            all.take(it.index() as int).lemma_filter_push(p, worth_trying());
        }
        if port_score(&p) < 3 {
            r.push(p);
        }
    }
    proof {
        assert(all.take(all.len() as int) =~= all);
    }
    r
}

/// A message for a failed write to the port `port_name` (`unknown` when no name
/// was kept).
pub fn write_error_message(port_name: Option<String>, error: &str) -> (m: String)
    ensures
        m@ == (match port_name {
            Some(name) => name@,
            None => "unknown"@,
        }) + ": "@ + error@,
{
    let mut m = String::new();
    match &port_name {
        Some(name) => push_str(&mut m, name.as_str()),
        None => push_str(&mut m, "unknown"),
    }
    push_str(&mut m, ": ");
    push_str(&mut m, error);
    proof {
        assert(m@ =~= (match port_name {
            Some(name) => name@,
            None => "unknown"@,
        }) + ": "@ + error@);
    }
    m
}

// ---------------------------------------------------------------------
// Laws of the ranking
// ---------------------------------------------------------------------
proof fn lemma_filter_all(s: Seq<PortInfo>, q: spec_fn(PortInfo) -> bool)
    requires
        forall|i: int| 0 <= i < s.len() ==> q(#[trigger] s[i]),
    ensures
        s.filter(q) == s,
    decreases s.len(),
{
    reveal(Seq::filter);
    if s.len() > 0 {
        lemma_filter_all(s.drop_last(), q);
        assert(s.drop_last().push(s.last()) =~= s);
    }
}

proof fn lemma_filter_none(s: Seq<PortInfo>, q: spec_fn(PortInfo) -> bool)
    requires
        forall|i: int| 0 <= i < s.len() ==> !q(#[trigger] s[i]),
    ensures
        s.filter(q) == Seq::<PortInfo>::empty(),
    decreases s.len(),
{
    reveal(Seq::filter);
    if s.len() > 0 {
        lemma_filter_none(s.drop_last(), q);
    }
}

proof fn lemma_bucket_scores(s: Seq<PortInfo>, k: u8)
    ensures
        forall|i: int|
            0 <= i < s.filter(has_score(k)).len() ==> score_of(#[trigger] s.filter(has_score(k))[i])
                == k,
{
    assert forall|i: int| 0 <= i < s.filter(has_score(k)).len() implies score_of(
        #[trigger] s.filter(has_score(k))[i],
    ) == k by {
        s.lemma_filter_pred(has_score(k), i);
    }
}

/// The ports worth trying are exactly the USB ports, best first and in
/// listed order within one score.
pub proof fn lemma_candidates_are_usb_ports(ports: Seq<PortInfo>)
    ensures
        ranked(ports).filter(worth_trying()) == candidates(ports),
{
    let f0 = ports.filter(has_score(0));
    let f1 = ports.filter(has_score(1));
    let f2 = ports.filter(has_score(2));
    let f3 = ports.filter(has_score(3));
    let q = worth_trying();
    lemma_bucket_scores(ports, 0);
    lemma_bucket_scores(ports, 1);
    lemma_bucket_scores(ports, 2);
    lemma_bucket_scores(ports, 3);
    Seq::filter_distributes_over_add(f0 + f1 + f2, f3, q);
    Seq::filter_distributes_over_add(f0 + f1, f2, q);
    Seq::filter_distributes_over_add(f0, f1, q);
    lemma_filter_all(f0, q);
    lemma_filter_all(f1, q);
    lemma_filter_all(f2, q);
    lemma_filter_none(f3, q);
    assert(f0 + f1 + f2 + Seq::<PortInfo>::empty() =~= candidates(ports));
}

/// Ranking keeps every port: the ranked list is as long as the listed one.
pub proof fn lemma_ranked_len(ports: Seq<PortInfo>)
    ensures
        ranked(ports).len() == ports.len(),
    decreases ports.len(),
{
    if ports.len() > 0 {
        let s = ports.drop_last();
        let x = ports.last();
        lemma_ranked_len(s);
        assert(s.push(x) =~= ports);
        s.lemma_filter_push(x, has_score(0));
        s.lemma_filter_push(x, has_score(1));
        s.lemma_filter_push(x, has_score(2));
        s.lemma_filter_push(x, has_score(3));
        lemma_score_bound(x);
    } else {
        reveal(Seq::filter);
    }
}

/// Ranked ports come in ascending order of score.
pub proof fn lemma_ranked_sorted(ports: Seq<PortInfo>)
    ensures
        forall|i: int, j: int|
            0 <= i < j < ranked(ports).len() ==> score_of(#[trigger] ranked(ports)[i]) <= score_of(
                #[trigger] ranked(ports)[j],
            ),
{
    let f0 = ports.filter(has_score(0));
    let f1 = ports.filter(has_score(1));
    let f2 = ports.filter(has_score(2));
    let f3 = ports.filter(has_score(3));
    let r = ranked(ports);
    lemma_bucket_scores(ports, 0);
    lemma_bucket_scores(ports, 1);
    lemma_bucket_scores(ports, 2);
    lemma_bucket_scores(ports, 3);
    let l0 = f0.len() as int;
    let l1 = l0 + f1.len();
    let l2 = l1 + f2.len();
    assert forall|i: int| 0 <= i < r.len() implies score_of(#[trigger] r[i]) == (if i < l0 {
        0u8
    } else if i < l1 {
        1u8
    } else if i < l2 {
        2u8
    } else {
        3u8
    }) by {
        if i < l0 {
            assert(r[i] == f0[i]);
        } else if i < l1 {
            assert(r[i] == f1[i - l0]);
        } else if i < l2 {
            assert(r[i] == f2[i - l1]);
        } else {
            assert(r[i] == f3[i - l2]);
        }
    }
}

pub open spec fn bucket_multisets(ports: Seq<PortInfo>) -> Multiset<PortInfo> {
    ports.filter(has_score(0)).to_multiset().add(ports.filter(has_score(1)).to_multiset()).add(
        ports.filter(has_score(2)).to_multiset(),
    ).add(ports.filter(has_score(3)).to_multiset())
}

proof fn lemma_buckets_multiset(ports: Seq<PortInfo>)
    ensures
        bucket_multisets(ports) =~= ports.to_multiset(),
    decreases ports.len(),
{
    broadcast use vstd::multiset::group_multiset_axioms;
    broadcast use vstd::seq_lib::to_multiset_build;

    if ports.len() == 0 {
        reveal(Seq::filter);
        broadcast use vstd::seq_lib::group_to_multiset_ensures;

        assert(ports.to_multiset() =~= Multiset::<PortInfo>::empty()) by {
            assert forall|a: PortInfo| ports.to_multiset().count(a) == 0 by {
                assert(!ports.contains(a));
            }
        }
        assert(Seq::<PortInfo>::empty().to_multiset() =~= Multiset::<PortInfo>::empty()) by {
            assert forall|a: PortInfo| Seq::<PortInfo>::empty().to_multiset().count(a) == 0 by {
                assert(!Seq::<PortInfo>::empty().contains(a));
            }
        }
    } else {
        let p = ports.drop_last();
        let x = ports.last();
        lemma_buckets_multiset(p);
        assert(p.push(x) =~= ports);
        p.lemma_filter_push(x, has_score(0));
        p.lemma_filter_push(x, has_score(1));
        p.lemma_filter_push(x, has_score(2));
        p.lemma_filter_push(x, has_score(3));
        lemma_score_bound(x);
        assert(bucket_multisets(ports) =~= bucket_multisets(p).insert(x));
    }
}

/// Ranking only reorders: the ranked ports are the listed ones, each as often.
pub proof fn lemma_ranked_permutation(ports: Seq<PortInfo>)
    ensures
        ranked(ports).to_multiset() == ports.to_multiset(),
{
    let f0 = ports.filter(has_score(0));
    let f1 = ports.filter(has_score(1));
    let f2 = ports.filter(has_score(2));
    let f3 = ports.filter(has_score(3));
    vstd::seq_lib::lemma_multiset_commutative(f0 + f1 + f2, f3);
    vstd::seq_lib::lemma_multiset_commutative(f0 + f1, f2);
    vstd::seq_lib::lemma_multiset_commutative(f0, f1);
    lemma_buckets_multiset(ports);
}

} // verus!
