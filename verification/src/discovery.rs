//! Port discovery: enumeration, classification and alias de-duplication.
//!
//! The host may expose two names for the same physical USB serial device:
//! a callout alias (marked by the `"cu."` substring in the port name) and
//! a dial-in alias (the same name with the marker replaced by `"tty."`).
//! Discovery keeps only USB-class ports and drops a callout alias exactly
//! when its dial-in counterpart is present in the same enumeration —
//! never both aliases, and never the only name a device has.

use vstd::prelude::*;
use vstd::string::StrSliceExecFns;
use vstd::string::StringExecFns;

use crate::errors::AdapterError;

verus! {

/// Vendor metadata of a USB-class port.
pub struct UsbMeta {
    pub vid: u16,
    pub pid: u16,
    pub serial_number: Option<String>,
}

/// The hardware class a port was enumerated with.
pub enum TransportClass {
    /// A USB serial device, with its vendor metadata.
    Usb(UsbMeta),
    /// Any other transport (PCI, Bluetooth, unknown): not a candidate.
    Other,
}

/// One enumerated serial port: its host name and its class. Produced
/// fresh on every discovery call, never persisted.
pub struct PortDescriptor {
    pub name: String,
    pub class: TransportClass,
}

impl UsbMeta {
    /// A field-for-field copy.
    pub fn duplicate(&self) -> (r: UsbMeta)
        ensures
            r == *self,
    {
        UsbMeta {
            vid: self.vid,
            pid: self.pid,
            serial_number: match &self.serial_number {
                Some(s) => Some(s.clone()),
                None => None,
            },
        }
    }
}

impl TransportClass {
    /// A field-for-field copy.
    pub fn duplicate(&self) -> (r: TransportClass)
        ensures
            r == *self,
    {
        match self {
            TransportClass::Usb(m) => TransportClass::Usb(m.duplicate()),
            TransportClass::Other => TransportClass::Other,
        }
    }
}

impl PortDescriptor {
    /// A field-for-field copy.
    pub fn duplicate(&self) -> (r: PortDescriptor)
        ensures
            r == *self,
    {
        PortDescriptor { name: self.name.clone(), class: self.class.duplicate() }
    }
}

/// Whether the callout marker `"cu."` sits at position `i` of `s`.
pub open spec fn marker_at(s: Seq<char>, i: int) -> bool {
    0 <= i && i + 3 <= s.len() && s[i] == 'c' && s[i + 1] == 'u' && s[i + 2] == '.'
}

/// Position of the first callout marker of `s`; `s.len()` or beyond the
/// last possible window when there is none.
pub open spec fn first_marker(s: Seq<char>) -> int
    decreases s.len(),
{
    if s.len() < 3 {
        s.len() as int
    } else if s[0] == 'c' && s[1] == 'u' && s[2] == '.' {
        0
    } else {
        1 + first_marker(s.drop_first())
    }
}

/// Whether the name carries the callout marker anywhere.
pub open spec fn has_callout_marker(s: Seq<char>) -> bool {
    first_marker(s) + 3 <= s.len()
}

pub proof fn lemma_first_marker_bounds(s: Seq<char>)
    ensures
        0 <= first_marker(s) <= s.len(),
        has_callout_marker(s) ==> marker_at(s, first_marker(s)),
        forall|j: int| 0 <= j < first_marker(s) ==> !marker_at(s, j),
        forall|j: int| marker_at(s, j) ==> first_marker(s) <= j,
    decreases s.len(),
{
    if s.len() < 3 {
    } else if s[0] == 'c' && s[1] == 'u' && s[2] == '.' {
    } else {
        lemma_first_marker_bounds(s.drop_first());
        assert forall|j: int| marker_at(s, j) implies first_marker(s) <= j by {
            assert(j >= 1);
            assert(marker_at(s.drop_first(), j - 1));
        }
        assert forall|j: int| 0 <= j < first_marker(s) implies !marker_at(s, j) by {
            if j >= 1 {
                assert(!marker_at(s.drop_first(), j - 1));
            }
        }
        if has_callout_marker(s) {
            assert(marker_at(s.drop_first(), first_marker(s.drop_first())));
        }
    }
}

/// The dial-in replacement of the marker: `"tty."`.
pub open spec fn tty_marker() -> Seq<char> {
    seq!['t', 't', 'y', '.']
}

/// The dial-in form of a callout name: the first `"cu."` replaced by
/// `"tty."`.
pub open spec fn dial_in_of(s: Seq<char>) -> Seq<char> {
    s.take(first_marker(s)) + tty_marker() + s.skip(first_marker(s) + 3)
}

/// Find the first callout marker of a port name.
pub fn find_callout_marker(name: &str) -> (r: Option<usize>)
    ensures
        r matches Some(i) ==> first_marker(name@) == i && marker_at(name@, i as int),
        r is None ==> !has_callout_marker(name@),
{
    let len = name.unicode_len();
    let mut i: usize = 0;
    while len >= 3 && i <= len - 3
        invariant
            len == name@.len(),
            i <= len,
            forall|j: int| 0 <= j < i ==> !marker_at(name@, j),
        decreases len - i,
    {
        if name.get_char(i) == 'c' && name.get_char(i + 1) == 'u' && name.get_char(i + 2) == '.' {
            proof {
                lemma_first_marker_bounds(name@);
                assert(marker_at(name@, i as int));
                if first_marker(name@) < i {
                    assert(marker_at(name@, first_marker(name@)));
                }
            }
            return Some(i);
        }
        proof {
            assert(!marker_at(name@, i as int));
        }
        i = i + 1;
    }
    proof {
        lemma_first_marker_bounds(name@);
        if has_callout_marker(name@) {
            let f = first_marker(name@);
            assert(marker_at(name@, f));
            assert(f < i);
        }
    }
    None
}

/// Build the dial-in counterpart name of a callout name.
pub fn dial_in_name(name: &str, k: usize) -> (r: String)
    requires
        marker_at(name@, k as int),
        first_marker(name@) == k,
    ensures
        r@ == dial_in_of(name@),
{
    let len = name.unicode_len();
    let prefix = name.substring_char(0, k);
    let suffix = name.substring_char(k + 3, len);
    let mut out = prefix.to_owned();
    out.append("tty.");
    out.append(suffix);
    proof {
        reveal_strlit("tty.");
        assert("tty."@ =~= tty_marker());
        assert(name@.subrange(0, k as int) =~= name@.take(k as int));
        assert(name@.subrange(k + 3, len as int) =~= name@.skip(k + 3));
        assert(out@ =~= dial_in_of(name@));
    }
    out
}

/// Whether some enumerated port bears exactly the given name.
pub fn has_port_named(ports: &Vec<PortDescriptor>, target: &String) -> (r: bool)
    ensures
        r == exists|j: int| 0 <= j < ports@.len() && (#[trigger] ports@[j]).name@ == target@,
{
    let mut i: usize = 0;
    while i < ports.len()
        invariant
            i <= ports@.len(),
            forall|j: int| 0 <= j < i ==> (#[trigger] ports@[j]).name@ != target@,
        decreases ports@.len() - i,
    {
        if ports[i].name == *target {
            return true;
        }
        i = i + 1;
    }
    false
}

/// Whether `p` survives discovery against the full enumeration `all`:
/// it is USB-class, and if its name is a callout alias, its dial-in
/// counterpart is absent.
pub open spec fn keep_port(p: PortDescriptor, all: Seq<PortDescriptor>) -> bool {
    &&& p.class is Usb
    &&& (has_callout_marker(p.name@) ==> !(exists|j: int|
        0 <= j < all.len() && (#[trigger] all[j]).name@ == dial_in_of(p.name@)))
}

/// The ports of `rem` that survive discovery against `all`, in order.
pub open spec fn filter_ports_from(all: Seq<PortDescriptor>, rem: Seq<PortDescriptor>) -> Seq<
    PortDescriptor,
>
    decreases rem.len(),
{
    if rem.len() == 0 {
        Seq::empty()
    } else if keep_port(rem[0], all) {
        seq![rem[0]] + filter_ports_from(all, rem.drop_first())
    } else {
        filter_ports_from(all, rem.drop_first())
    }
}

/// The candidate ports of an enumeration: host order kept, non-USB
/// classes dropped, callout aliases dropped when their dial-in
/// counterpart is present.
pub open spec fn candidate_ports(all: Seq<PortDescriptor>) -> Seq<PortDescriptor> {
    filter_ports_from(all, all)
}

/// Every candidate is USB-class.
pub proof fn lemma_candidates_usb(all: Seq<PortDescriptor>, rem: Seq<PortDescriptor>)
    ensures
        forall|j: int|
            0 <= j < filter_ports_from(all, rem).len() ==> (#[trigger] filter_ports_from(
                all,
                rem,
            )[j]).class is Usb,
    decreases rem.len(),
{
    if rem.len() == 0 {
    } else {
        lemma_candidates_usb(all, rem.drop_first());
    }
}

/// Keep only the candidate ports of an enumeration.
pub fn filter_candidate_ports(ports: &Vec<PortDescriptor>) -> (r: Vec<PortDescriptor>)
    ensures
        r@ == candidate_ports(ports@),
{
    let mut out: Vec<PortDescriptor> = Vec::new();
    let mut i: usize = 0;
    proof {
        assert(ports@.skip(0) =~= ports@);
        assert(out@ + filter_ports_from(ports@, ports@) =~= filter_ports_from(ports@, ports@));
    }
    while i < ports.len()
        invariant
            i <= ports@.len(),
            candidate_ports(ports@) == out@ + filter_ports_from(ports@, ports@.skip(i as int)),
        decreases ports@.len() - i,
    {
        let p = &ports[i];
        let keep: bool = match &p.class {
            TransportClass::Usb(_) => {
                match find_callout_marker(p.name.as_str()) {
                    None => true,
                    Some(k) => {
                        let counterpart = dial_in_name(p.name.as_str(), k);
                        !has_port_named(ports, &counterpart)
                    },
                }
            },
            TransportClass::Other => false,
        };
        proof {
            assert(keep == keep_port(ports@[i as int], ports@));
            let rem = ports@.skip(i as int);
            assert(rem[0] == ports@[i as int]);
            assert(rem.drop_first() =~= ports@.skip(i + 1));
        }
        if keep {
            let ghost out_before = out@;
            out.push(p.duplicate());
            proof {
                assert(out@ =~= out_before + seq![ports@[i as int]]);
                assert(out_before + (seq![ports@[i as int]] + filter_ports_from(
                    ports@,
                    ports@.skip(i + 1),
                )) =~= out@ + filter_ports_from(ports@, ports@.skip(i + 1)));
            }
        }
        i = i + 1;
    }
    proof {
        assert(ports@.skip(ports@.len() as int) =~= Seq::<PortDescriptor>::empty());
        assert(out@ + Seq::<PortDescriptor>::empty() =~= out@);
    }
    out
}

/// How many enumerated ports are USB-class.
pub open spec fn usb_count(s: Seq<PortDescriptor>) -> int
    decreases s.len(),
{
    if s.len() == 0 {
        0
    } else {
        (if s[0].class is Usb {
            1int
        } else {
            0int
        }) + usb_count(s.drop_first())
    }
}

/// Count the USB-class ports of an enumeration.
pub fn get_usb_port_count(ports: &Vec<PortDescriptor>) -> (r: usize)
    ensures
        r == usb_count(ports@),
{
    let mut count: usize = 0;
    let mut i: usize = 0;
    proof {
        assert(ports@.skip(0) =~= ports@);
    }
    while i < ports.len()
        invariant
            i <= ports@.len(),
            count <= i,
            count + usb_count(ports@.skip(i as int)) == usb_count(ports@),
        decreases ports@.len() - i,
    {
        proof {
            let rem = ports@.skip(i as int);
            assert(rem[0] == ports@[i as int]);
            assert(rem.drop_first() =~= ports@.skip(i + 1));
        }
        let is_usb: bool = match &ports[i].class {
            TransportClass::Usb(_) => true,
            TransportClass::Other => false,
        };
        if is_usb {
            count = count + 1;
        }
        i = i + 1;
    }
    proof {
        assert(ports@.skip(ports@.len() as int) =~= Seq::<PortDescriptor>::empty());
    }
    count
}

/// Two entries differing only by the alias marker — a callout name and
/// its dial-in counterpart — yield exactly the dial-in form; a callout
/// with no counterpart present is kept as it is.
pub proof fn lemma_alias_dedup(callout: PortDescriptor, dial_in: PortDescriptor)
    requires
        callout.class is Usb,
        dial_in.class is Usb,
        has_callout_marker(callout.name@),
        dial_in.name@ == dial_in_of(callout.name@),
        !has_callout_marker(dial_in.name@),
    ensures
        candidate_ports(seq![callout, dial_in]) == seq![dial_in],
        candidate_ports(seq![callout]) == seq![callout],
{
    lemma_first_marker_bounds(callout.name@);
    let pair = seq![callout, dial_in];
    assert(pair[1].name@ == dial_in_of(callout.name@));
    assert(!keep_port(callout, pair));
    assert(keep_port(dial_in, pair));
    assert(pair.drop_first() =~= seq![dial_in]);
    assert(seq![dial_in].drop_first() =~= Seq::<PortDescriptor>::empty());
    assert(filter_ports_from(pair, pair) == filter_ports_from(pair, seq![dial_in]));
    assert(seq![dial_in][0] == dial_in);
    assert(filter_ports_from(pair, seq![dial_in]) == seq![dial_in] + filter_ports_from(
        pair,
        Seq::<PortDescriptor>::empty(),
    ));
    assert(filter_ports_from(pair, Seq::<PortDescriptor>::empty())
        == Seq::<PortDescriptor>::empty());
    assert(candidate_ports(pair) =~= seq![dial_in]);
    let single = seq![callout];
    assert(dial_in_of(callout.name@).len() == callout.name@.len() + 1);
    assert forall|j: int| 0 <= j < single.len() implies (#[trigger] single[j]).name@
        != dial_in_of(callout.name@) by {
        assert(single[j] == callout);
    }
    assert(keep_port(callout, single));
    assert(single.drop_first() =~= Seq::<PortDescriptor>::empty());
    assert(single[0] == callout);
    assert(filter_ports_from(single, single) == seq![callout] + filter_ports_from(
        single,
        Seq::<PortDescriptor>::empty(),
    ));
    assert(filter_ports_from(single, Seq::<PortDescriptor>::empty())
        == Seq::<PortDescriptor>::empty());
    assert(candidate_ports(single) =~= seq![callout]);
}

/// Relies on `tokio_serial::available_ports` (serialport's host
/// enumeration): each entry yields the port's name and hardware class,
/// USB entries carrying vendor id, product id and serial number. What
/// comes back depends on the machine, so nothing is promised of the
/// list itself.
#[verifier::external_body]
fn enumerate_host_ports() -> (r: Result<Vec<PortDescriptor>, AdapterError>)
    ensures
        r matches Err(e) ==> e == AdapterError::DiscoveryFailed,
{
    match tokio_serial::available_ports() {
        Err(_) => Err(AdapterError::DiscoveryFailed),
        Ok(ports) => Ok(ports.into_iter().map(|p| PortDescriptor {
            name: p.port_name,
            class: match p.port_type {
                tokio_serial::SerialPortType::UsbPort(u) => TransportClass::Usb(
                    UsbMeta { vid: u.vid, pid: u.pid, serial_number: u.serial_number },
                ),
                tokio_serial::SerialPortType::PciPort => TransportClass::Other,
                tokio_serial::SerialPortType::BluetoothPort => TransportClass::Other,
                tokio_serial::SerialPortType::Unknown => TransportClass::Other,
            },
        }).collect()),
    }
}

/// Enumerate the host's serial ports and keep only the candidates: one
/// logical port per physical USB device, in host enumeration order.
///
/// Fails only when the host enumeration itself cannot be queried.
pub fn list_candidate_ports() -> (r: Result<Vec<PortDescriptor>, AdapterError>)
    ensures
        r matches Ok(v) ==> exists|raw: Seq<PortDescriptor>| v@ == candidate_ports(raw),
        r matches Ok(v) ==> forall|j: int| 0 <= j < v@.len() ==> (#[trigger] v@[j]).class is Usb,
        r matches Err(e) ==> e == AdapterError::DiscoveryFailed,
{
    match enumerate_host_ports() {
        Err(e) => Err(e),
        Ok(raw) => {
            let v = filter_candidate_ports(&raw);
            proof {
                lemma_candidates_usb(raw@, raw@);
                assert(v@ == candidate_ports(raw@));
            }
            Ok(v)
        },
    }
}

} // verus!
