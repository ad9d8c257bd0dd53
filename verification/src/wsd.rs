//! WS-Discovery (WSD): the messages sent, and what is read out of the answers.
//!
//! A Probe goes out by UDP multicast; every responder's ProbeMatch tells its
//! device kind and a metadata URL, where a WS-Transfer Get over HTTP asks for
//! its friendly name. The sockets are the caller's; the messages and the
//! reading of the answers are here.

use vstd::prelude::*;
use vstd::utf8::encode_utf8;
use crate::network_discovery::Device;
use crate::network_discovery::DeviceKind;
use crate::table::KeyedTable;
use crate::table::lookup;
use crate::table::upsert;
use crate::table::map_entries;
use crate::table::lemma_map_lookup;
use crate::table::lemma_map_upsert;
use crate::text::chars_of;
use crate::text::chars_eq;
use crate::text::string_of;
use crate::text::to_lower;
use crate::text::lower;
use crate::text::has_infix;
use crate::text::has_prefix;
use crate::text::str_has_infix;
use crate::text::str_has_prefix;
use crate::text::has_char;
use crate::text::trim;
use crate::text::trim_chars;
use crate::text::is_blank;
use crate::text::words;
use crate::text::words_chars;
use crate::text::views;
use crate::text::utf8_lossy;
use crate::text::lossy_string;
use crate::text::push_str_chars;
use crate::text::push_chars;
use crate::text::chars_range;
use crate::text::find;
use crate::text::split_once;
use crate::text::find_first;
use crate::text::is_first_occurrence;
use crate::text::occurs_at;
use crate::text::lines_of;
use crate::text::lines_chars;
use crate::text::starts_with_chars;
use crate::text::contains_chars;
use crate::digits::base_digits;
use crate::digits::zero_padded;
use crate::digits::padded_digits;
use crate::digits::digits_of;
use crate::digits::utf8_len;
use crate::digits::char_width;
use crate::digits::char_width_exec;
use crate::digits::lemma_utf8_len_monotone;
use crate::digits::parse_hex;
use crate::digits::parse_hex_usize;
use crate::digits::is_lower_hex;
use crate::digits::hex_bound;
use crate::digits::hex_number;
use crate::digits::hex_val;
use crate::digits::lemma_hex_field;
use crate::digits::lemma_hex_number_four;

verus! {

// ---------------------------------------------------------------------------
// XML
// ---------------------------------------------------------------------------

/// One node of a parsed XML document, as far as the answers are read.
pub struct XmlNode {
    pub is_element: bool,
    /// The local name of an element; empty for other nodes.
    pub name: String,
    /// The text of the node: for an element, that of its first child if that is a
    /// text node.
    pub text: Option<String>,
}

pub open spec fn opt_view(o: Option<String>) -> Option<Seq<char>> {
    match o {
        Some(s) => Some(s@),
        None => None,
    }
}

pub open spec fn node_view(n: XmlNode) -> (bool, Seq<char>, Option<Seq<char>>) {
    (n.is_element, n.name@, opt_view(n.text))
}

pub open spec fn node_views(ns: Seq<XmlNode>) -> Seq<(bool, Seq<char>, Option<Seq<char>>)> {
    ns.map_values(|n: XmlNode| node_view(n))
}

/// What `roxmltree` makes of a text: `None` where `Document::parse` refuses it,
/// else all its nodes in document order (`Document::descendants`), each as
/// (is an element, local tag name, text).
pub uninterp spec fn xml_descendants(text: Seq<char>) -> Option<Seq<(bool, Seq<char>, Option<Seq<char>>)>>;

/// Parses `text` with `roxmltree::Document::parse` and lists its nodes from
/// `Document::descendants`. The contract only names the result.
#[verifier::external_body]
fn xml_nodes(text: &str) -> (r: Option<Vec<XmlNode>>)
    ensures
        match xml_descendants(text@) {
            None => r is None,
            Some(ns) => r matches Some(v) && node_views(v@) == ns,
        },
{
    let doc = roxmltree::Document::parse(text).ok()?;
    Some(
        doc.descendants().map(
            |n| XmlNode {
                is_element: n.is_element(),
                name: n.tag_name().name().to_string(),
                text: n.text().map(|t| t.to_string()),
            },
        ).collect(),
    )
}

/// The text of the first element named `tag` (`None` if there is none, or if it
/// has no text).
pub open spec fn element_text(nodes: Seq<(bool, Seq<char>, Option<Seq<char>>)>, tag: Seq<char>) -> Option<
    Seq<char>,
>
    decreases nodes.len(),
{
    if nodes.len() == 0 {
        None
    } else if nodes[0].0 && nodes[0].1 == tag {
        nodes[0].2
    } else {
        element_text(nodes.drop_first(), tag)
    }
}

fn clone_opt(o: &Option<String>) -> (r: Option<String>)
    ensures
        opt_view(r) == opt_view(*o),
{
    match o {
        Some(s) => Some(s.clone()),
        None => None,
    }
}

fn find_element_text(nodes: &Vec<XmlNode>, tag: &str) -> (r: Option<String>)
    ensures
        opt_view(r) == element_text(node_views(nodes@), tag@),
{
    let t = chars_of(tag);
    let ghost ns = node_views(nodes@);
    let mut i: usize = 0;
    proof {
        assert(ns.skip(0) == ns);
    }
    while i < nodes.len()
        invariant
            i <= nodes@.len(),
            ns == node_views(nodes@),
            t@ == tag@,
            element_text(ns, tag@) == element_text(ns.skip(i as int), tag@),
        decreases nodes@.len() - i,
    {
        let n = &nodes[i];
        proof {
            assert(ns.skip(i as int)[0] == node_view(*n));
            assert(ns.skip(i as int).drop_first() == ns.skip(i + 1));
            assert(element_text(ns.skip(i as int), tag@) == if n.is_element && n.name@ == tag@ {
                opt_view(n.text)
            } else {
                element_text(ns.skip(i + 1), tag@)
            });
        }
        if n.is_element {
            let name = chars_of(n.name.as_str());
            if chars_eq(&name, &t) {
                return clone_opt(&n.text);
            }
        }
        i = i + 1;
    }
    None
}

// ---------------------------------------------------------------------------
// ProbeMatch
// ---------------------------------------------------------------------------

/// The first address of the list that is an http(s) URL without an IPv6 literal.
pub open spec fn first_http(ws: Seq<Seq<char>>) -> Option<Seq<char>>
    decreases ws.len(),
{
    if ws.len() == 0 {
        None
    } else if has_prefix(ws[0], "http"@) && !ws[0].contains('[') {
        Some(ws[0])
    } else {
        first_http(ws.drop_first())
    }
}

/// The transport URL picked out of a (space-separated) XAddrs list: the first
/// http(s) one, else the first of all.
pub open spec fn pick_xaddr(text: Seq<char>) -> Option<Seq<char>> {
    let ws = words(trim(text));
    match first_http(ws) {
        Some(u) => Some(u),
        None => if ws.len() > 0 {
            Some(ws[0])
        } else {
            None
        },
    }
}

/// Pick a usable http(s) transport URL out of a (space-separated) XAddrs list.
pub fn pick_http_xaddr(text: &str) -> (r: Option<String>)
    ensures
        opt_view(r) == pick_xaddr(text@),
{
    let t = trim_chars(&chars_of(text));
    let ws = words_chars(&t);
    let ghost wv = views(ws@);
    let mut i: usize = 0;
    proof {
        assert(wv.skip(0) == wv);
    }
    while i < ws.len()
        invariant
            i <= ws@.len(),
            wv == views(ws@),
            wv == words(trim(text@)),
            first_http(wv) == first_http(wv.skip(i as int)),
        decreases ws@.len() - i,
    {
        proof {
            assert(wv.skip(i as int)[0] == ws@[i as int]@);
            assert(wv.skip(i as int).drop_first() == wv.skip(i + 1));
        }
        if str_has_prefix(&ws[i], "http") && !has_char(&ws[i], '[') {
            return Some(string_of(ws[i].as_slice()));
        }
        i = i + 1;
    }
    if ws.len() > 0 {
        proof {
            assert(wv[0] == ws@[0]@);
        }
        Some(string_of(ws[0].as_slice()))
    } else {
        None
    }
}

/// The kind that a ProbeMatch's `<Types>` (lower case) announces; print is checked
/// before scan so that a print+scan MFP is a printer.
pub open spec fn probe_kind(types: Seq<char>) -> DeviceKind {
    if has_infix(types, "print"@) {
        DeviceKind::Printer
    } else if has_infix(types, "scan"@) {
        DeviceKind::Scanner
    } else {
        DeviceKind::Computer
    }
}

/// What the nodes of a ProbeMatch say: its metadata transport URL and the device
/// kind.
pub open spec fn probe_match_of(nodes: Seq<(bool, Seq<char>, Option<Seq<char>>)>) -> (
    Option<Seq<char>>,
    DeviceKind,
) {
    let xaddr = match element_text(nodes, "XAddrs"@) {
        Some(t) => pick_xaddr(t),
        None => None,
    };
    let types = match element_text(nodes, "Types"@) {
        Some(t) => lower(t),
        None => Seq::<char>::empty(),
    };
    (xaddr, probe_kind(types))
}

/// What a ProbeMatch says: its metadata transport URL and the device kind.
pub open spec fn probe_match(body: Seq<char>) -> (Option<Seq<char>>, DeviceKind) {
    match xml_descendants(body) {
        None => (None, DeviceKind::Computer),
        Some(nodes) => probe_match_of(nodes),
    }
}

/// The metadata transport URL (from `<XAddrs>`) and the device kind (from
/// `<Types>`) that the parsed nodes of a ProbeMatch announce.
pub fn probe_match_from_nodes(nodes: &Vec<XmlNode>) -> (r: (Option<String>, DeviceKind))
    ensures
        (opt_view(r.0), r.1) == probe_match_of(node_views(nodes@)),
{
    let xaddr = match find_element_text(nodes, "XAddrs") {
        Some(t) => pick_http_xaddr(t.as_str()),
        None => None,
    };
    let types = match find_element_text(nodes, "Types") {
        Some(t) => to_lower(&chars_of(t.as_str())),
        None => Vec::new(),
    };
    let kind = if str_has_infix(&types, "print") {
        DeviceKind::Printer
    } else if str_has_infix(&types, "scan") {
        DeviceKind::Scanner
    } else {
        DeviceKind::Computer
    };
    proof {
        assert(types@ == match element_text(node_views(nodes@), "Types"@) {
            Some(t) => lower(t),
            None => Seq::<char>::empty(),
        });
    }
    (xaddr, kind)
}

/// Parse a WSD ProbeMatch/ResolveMatch for its metadata transport URL and device
/// kind (from `<Types>`: a printer advertises PrintDeviceType, a scanner
/// ScanDeviceType, a PC pub:Computer). Parses the document once.
pub fn parse_probe_match(body: &str) -> (r: (Option<String>, DeviceKind))
    ensures
        (opt_view(r.0), r.1) == probe_match(body@),
{
    match xml_nodes(body) {
        None => (None, DeviceKind::Computer),
        Some(nodes) => probe_match_from_nodes(&nodes),
    }
}

// ---------------------------------------------------------------------------
// Responders
// ---------------------------------------------------------------------------

/// A responder's slot after one more answer from it: a metadata URL fills in a
/// missing one, and a specific kind (printer, scanner) replaces the generic
/// `Computer`.
pub open spec fn slot_after(existing: Option<(Option<Seq<char>>, DeviceKind)>, answer: (
    Option<Seq<char>>,
    DeviceKind,
)) -> (Option<Seq<char>>, DeviceKind) {
    let s = match existing {
        None => (None, DeviceKind::Computer),
        Some(s) => s,
    };
    let xaddr = if s.0 is None {
        answer.0
    } else {
        s.0
    };
    let kind = if s.1 == DeviceKind::Computer && answer.1 != DeviceKind::Computer {
        answer.1
    } else {
        s.1
    };
    (xaddr, kind)
}

/// A device that announces both printing and scanning is a printer.
pub proof fn lemma_print_and_scan_is_printer(types: Seq<char>)
    requires
        has_infix(types, "print"@),
        has_infix(types, "scan"@),
    ensures
        probe_kind(types) == DeviceKind::Printer,
{
}

/// A responder's metadata URL, once known, and a specific kind, once announced,
/// are kept through later answers.
pub proof fn lemma_slot_keeps_what_it_has(s: (Option<Seq<char>>, DeviceKind), answer: (
    Option<Seq<char>>,
    DeviceKind,
))
    ensures
        s.0 is Some ==> slot_after(Some(s), answer).0 == s.0,
        s.1 != DeviceKind::Computer ==> slot_after(Some(s), answer).1 == s.1,
        s.0 is None ==> slot_after(Some(s), answer).0 == answer.0,
{
}

/// The responders, keyed by IPv4 address, after one more answer.
pub open spec fn responders_after(
    t: Seq<(Seq<char>, (Option<Seq<char>>, DeviceKind))>,
    ip: Seq<char>,
    answer: (Option<Seq<char>>, DeviceKind),
) -> Seq<(Seq<char>, (Option<Seq<char>>, DeviceKind))> {
    upsert(t, ip, slot_after(lookup(t, ip), answer))
}

/// One answer from an address: a new address takes the answer as its slot; a
/// known one keeps the metadata URL it has (the answer's fills in a missing one)
/// and trades a generic `Computer` for a specific kind; every other address keeps
/// its slot.
pub proof fn lemma_responders_after(
    t: Seq<(Seq<char>, (Option<Seq<char>>, DeviceKind))>,
    ip: Seq<char>,
    answer: (Option<Seq<char>>, DeviceKind),
    q: Seq<char>,
)
    ensures
        lookup(t, ip) is None ==> lookup(responders_after(t, ip, answer), ip) == Some(answer),
        lookup(t, ip) matches Some(s) ==> lookup(responders_after(t, ip, answer), ip) matches Some(n) && (
        n.0 == if s.0 is Some {
            s.0
        } else {
            answer.0
        }) && (n.1 == if s.1 == DeviceKind::Computer {
            answer.1
        } else {
            s.1
        }),
        q != ip ==> lookup(responders_after(t, ip, answer), q) == lookup(t, q),
{
    crate::network_discovery::lemma_lookup_after_upsert(t, ip, slot_after(lookup(t, ip), answer), ip);
    crate::network_discovery::lemma_lookup_after_upsert(t, ip, slot_after(lookup(t, ip), answer), q);
}

pub open spec fn slot_view(v: (String, Option<String>, DeviceKind)) -> (Option<Seq<char>>, DeviceKind) {
    (opt_view(v.1), v.2)
}

/// The answers to one Probe, one slot per responding IPv4 address.
pub struct Responders {
    table: KeyedTable<(String, Option<String>, DeviceKind)>,
}

impl View for Responders {
    type V = Seq<(Seq<char>, (Option<Seq<char>>, DeviceKind))>;

    /// Per address: the metadata URL and the device kind, in ascending order of
    /// address.
    closed spec fn view(&self) -> Seq<(Seq<char>, (Option<Seq<char>>, DeviceKind))> {
        map_entries(self.table@, |v: (String, Option<String>, DeviceKind)| slot_view(v))
    }
}

impl Responders {
    /// Every slot is stored under the address it keeps.
    #[verifier::type_invariant]
    closed spec fn keyed(self) -> bool {
        forall|i: int|
            0 <= i < self.table@.len() ==> (#[trigger] self.table@[i]).0 == self.table@[i].1.0@
    }

    pub fn new() -> (r: Self)
        ensures
            r@ == Seq::<(Seq<char>, (Option<Seq<char>>, DeviceKind))>::empty(),
    {
        let r = Responders { table: KeyedTable::new() };
        proof {
            assert(r@ =~= Seq::<(Seq<char>, (Option<Seq<char>>, DeviceKind))>::empty());
        }
        r
    }

    /// Takes in one answer: the IPv4 address it came from and the datagram.
    pub fn record(&mut self, ip: String, datagram: &[u8])
        ensures
            final(self)@ == responders_after(old(self)@, ip@, probe_match(utf8_lossy(datagram@))),
    {
        proof {
            use_type_invariant(&*self);
        }
        let body = lossy_string(datagram);
        let (xaddr, kind) = parse_probe_match(body.as_str());
        let ghost answer = (opt_view(xaddr), kind);
        let ghost f = |v: (String, Option<String>, DeviceKind)| slot_view(v);
        let ghost t = self.table@;
        let key = chars_of(ip.as_str());
        proof {
            lemma_map_lookup(t, ip@, f);
        }
        let v = match self.table.get(&key) {
            Some(slot) => {
                let new_xaddr = match &slot.1 {
                    None => xaddr,
                    Some(x) => Some(x.clone()),
                };
                let new_kind = if slot.2 == DeviceKind::Computer && kind != DeviceKind::Computer {
                    kind
                } else {
                    slot.2
                };
                (ip, new_xaddr, new_kind)
            },
            None => (ip, xaddr, kind),
        };
        proof {
            lemma_map_upsert(t, key@, v, f);
            assert(f(v) == slot_after(lookup(map_entries(t, f), key@), answer));
            lemma_keyed_upsert(t, key@, v);
        }
        let mut table = KeyedTable::new();
        std::mem::swap(&mut table, &mut self.table);
        table.set(key, v);
        self.table = table;
    }

    /// The responders, in ascending order of address: address, metadata URL, kind.
    pub fn into_list(self) -> (r: Vec<(String, Option<String>, DeviceKind)>)
        ensures
            r@.len() == self@.len(),
            forall|i: int|
                0 <= i < r@.len() ==> (#[trigger] r@[i]).0@ == self@[i].0 && slot_view(r@[i])
                    == self@[i].1,
    {
        proof {
            use_type_invariant(&self);
        }
        let ghost t = self.table@;
        let ghost me = self@;
        let r = self.table.into_values();
        proof {
            assert forall|i: int| 0 <= i < r@.len() implies (#[trigger] r@[i]).0@ == me[i].0
                && slot_view(r@[i]) == me[i].1 by {
                assert(r@[i] == t[i].1);
                assert(t[i].0 == t[i].1.0@);
            }
        }
        r
    }
}

/// Storing a slot under its own address keeps every slot under its address.
proof fn lemma_keyed_upsert(t: Seq<(Seq<char>, (String, Option<String>, DeviceKind))>, k: Seq<char>, v: (
    String,
    Option<String>,
    DeviceKind,
))
    requires
        forall|i: int| 0 <= i < t.len() ==> (#[trigger] t[i]).0 == t[i].1.0@,
        v.0@ == k,
    ensures
        forall|i: int| 0 <= i < upsert(t, k, v).len() ==> (#[trigger] upsert(t, k, v)[i]).0 == upsert(
            t,
            k,
            v,
        )[i].1.0@,
    decreases t.len(),
{
    if t.len() > 0 && t[0].0 != k && !crate::table::text_lt(k, t[0].0) {
        let r = t.drop_first();
        assert forall|i: int| 0 <= i < r.len() implies (#[trigger] r[i]).0 == r[i].1.0@ by {
            assert(r[i] == t[i + 1]);
        }
        lemma_keyed_upsert(r, k, v);
        let u = upsert(t, k, v);
        assert forall|i: int| 0 <= i < u.len() implies (#[trigger] u[i]).0 == u[i].1.0@ by {
            if i > 0 {
                assert(u[i] == upsert(r, k, v)[i - 1]);
            }
        }
    } else if t.len() > 0 && t[0].0 == k {
        let u = upsert(t, k, v);
        assert forall|i: int| 0 <= i < u.len() implies (#[trigger] u[i]).0 == u[i].1.0@ by {
            if i > 0 {
                assert(u[i] == t[i]);
            }
        }
    } else if t.len() > 0 {
        let u = upsert(t, k, v);
        assert forall|i: int| 0 <= i < u.len() implies (#[trigger] u[i]).0 == u[i].1.0@ by {
            if i > 0 {
                assert(u[i] == t[i - 1]);
            }
        }
    }
}

/// The device for a responder: its friendly name where one was read and it is
/// not blank, else its address.
pub open spec fn responder_name(ip: Seq<char>, friendly: Option<Seq<char>>) -> Seq<char> {
    match friendly {
        Some(n) => if trim(n).len() > 0 {
            n
        } else {
            ip
        },
        None => ip,
    }
}

pub fn responder_device(ip: String, kind: DeviceKind, friendly: Option<String>) -> (r: Device)
    ensures
        r.name@ == responder_name(ip@, opt_view(friendly)),
        r.addr@ == ip@,
        r.kind == kind,
{
    let name = match friendly {
        Some(n) => {
            if !is_blank(&chars_of(n.as_str())) {
                n
            } else {
                ip.clone()
            }
        },
        None => ip.clone(),
    };
    Device { name, addr: ip, kind }
}

// ---------------------------------------------------------------------------
// Messages
// ---------------------------------------------------------------------------

/// The Probe envelope up to its MessageID.
pub const PROBE_HEAD: &'static str = "<?xml version=\"1.0\" encoding=\"utf-8\"?>\n<soap:Envelope xmlns:soap=\"http://www.w3.org/2003/05/soap-envelope\" xmlns:wsa=\"http://schemas.xmlsoap.org/ws/2004/08/addressing\" xmlns:wsd=\"http://schemas.xmlsoap.org/ws/2005/04/discovery\">\n<soap:Header>\n<wsa:To>urn:schemas-xmlsoap-org:ws:2005:04:discovery</wsa:To>\n<wsa:Action>http://schemas.xmlsoap.org/ws/2005/04/discovery/Probe</wsa:Action>\n<wsa:MessageID>";

/// The Probe envelope after its MessageID.
pub const PROBE_TAIL: &'static str = "</wsa:MessageID>\n</soap:Header>\n<soap:Body><wsd:Probe/></soap:Body>\n</soap:Envelope>";

/// The WS-Transfer Get envelope up to its MessageID.
pub const GET_HEAD: &'static str = "<?xml version=\"1.0\" encoding=\"utf-8\"?>\n<soap:Envelope xmlns:soap=\"http://www.w3.org/2003/05/soap-envelope\" xmlns:wsa=\"http://schemas.xmlsoap.org/ws/2004/08/addressing\" xmlns:wst=\"http://schemas.xmlsoap.org/ws/2004/09/transfer\">\n<soap:Header>\n<wsa:Action>http://schemas.xmlsoap.org/ws/2004/09/transfer/Get</wsa:Action>\n<wsa:MessageID>";

/// The WS-Transfer Get envelope after its MessageID.
pub const GET_TAIL: &'static str = "</wsa:MessageID>\n</soap:Header>\n<soap:Body/>\n</soap:Envelope>";

/// The WS-Discovery Probe with the given MessageID.
pub fn wsd_probe_envelope(message_id: &str) -> (r: String)
    ensures
        r@ == PROBE_HEAD@ + message_id@ + PROBE_TAIL@,
{
    let mut v: Vec<char> = Vec::new();
    push_str_chars(&mut v, PROBE_HEAD);
    push_str_chars(&mut v, message_id);
    push_str_chars(&mut v, PROBE_TAIL);
    string_of(v.as_slice())
}

/// The WS-Transfer Get for a device's metadata, with the given MessageID.
pub fn wsd_get_envelope(message_id: &str) -> (r: String)
    ensures
        r@ == GET_HEAD@ + message_id@ + GET_TAIL@,
{
    let mut v: Vec<char> = Vec::new();
    push_str_chars(&mut v, GET_HEAD);
    push_str_chars(&mut v, message_id);
    push_str_chars(&mut v, GET_TAIL);
    string_of(v.as_slice())
}

/// `{:0w$x}`: `x` in lower-case hexadecimal, padded with zeros to `w` digits.
pub open spec fn hex_field(x: nat, w: nat) -> Seq<char> {
    zero_padded(base_digits(x, 16), w)
}

/// The five fields of a MessageID made of a time in nanoseconds, a counter and a
/// process id: the version-4 nibble goes into the third, the variant bits into
/// the fourth.
pub open spec fn message_id_fields(nanos: u64, counter: u64, pid: u32) -> (nat, nat, nat, nat, nat) {
    let p = pid as u64;
    let a = (nanos >> 32u64) as u32;
    let b = nanos as u16;
    let c = (0x4000u16 | ((counter & 0x0fffu64) as u16)) as u16;
    let d = (0x8000u16 | ((p & 0x3fffu64) as u16)) as u16;
    let e = ((p << 20u64) ^ nanos ^ (counter << 8u64)) & 0xffff_ffff_ffffu64;
    (a as nat, b as nat, c as nat, d as nat, e as nat)
}

/// The `urn:uuid:` MessageID made of a time in nanoseconds, a counter and a process
/// id: `urn:uuid:{a:08x}-{b:04x}-{c:04x}-{d:04x}-{e:012x}` over its fields.
pub open spec fn message_id_text(nanos: u64, counter: u64, pid: u32) -> Seq<char> {
    let f = message_id_fields(nanos, counter, pid);
    "urn:uuid:"@ + hex_field(f.0, 8) + "-"@ + hex_field(f.1, 4) + "-"@ + hex_field(f.2, 4) + "-"@
        + hex_field(f.3, 4) + "-"@ + hex_field(f.4, 12)
}

/// Shaped like a version-4 UUID URN: `urn:uuid:`, then groups of 8, 4, 4, 4 and
/// 12 lower-case hexadecimal digits joined by `-`, the third group starting with
/// the version `4` and the fourth with a variant digit (`8`, `9`, `a` or `b`).
pub open spec fn uuid_urn_shaped(t: Seq<char>) -> bool {
    &&& t.len() == 45
    &&& t.take(9) == "urn:uuid:"@
    &&& t[17] == '-' && t[22] == '-' && t[27] == '-' && t[32] == '-'
    &&& forall|i: int|
        9 <= i < 45 && i != 17 && i != 22 && i != 27 && i != 32 ==> is_lower_hex(#[trigger] t[i])
    &&& t[23] == '4'
    &&& t[28] == '8' || t[28] == '9' || t[28] == 'a' || t[28] == 'b'
}

/// Where the fields stand in a MessageID.
proof fn lemma_message_id_layout(nanos: u64, counter: u64, pid: u32)
    ensures
        ({
            let t = message_id_text(nanos, counter, pid);
            let f = message_id_fields(nanos, counter, pid);
            &&& t.len() == 45
            &&& t.take(9) == "urn:uuid:"@
            &&& t.subrange(9, 17) == hex_field(f.0, 8)
            &&& t.subrange(18, 22) == hex_field(f.1, 4)
            &&& t.subrange(23, 27) == hex_field(f.2, 4)
            &&& t.subrange(28, 32) == hex_field(f.3, 4)
            &&& t.subrange(33, 45) == hex_field(f.4, 12)
            &&& t[17] == '-' && t[22] == '-' && t[27] == '-' && t[32] == '-'
            &&& forall|i: int| 0 <= i < 8 ==> is_lower_hex(#[trigger] hex_field(f.0, 8)[i])
            &&& forall|i: int| 0 <= i < 4 ==> is_lower_hex(#[trigger] hex_field(f.1, 4)[i])
            &&& forall|i: int| 0 <= i < 4 ==> is_lower_hex(#[trigger] hex_field(f.2, 4)[i])
            &&& forall|i: int| 0 <= i < 4 ==> is_lower_hex(#[trigger] hex_field(f.3, 4)[i])
            &&& forall|i: int| 0 <= i < 12 ==> is_lower_hex(#[trigger] hex_field(f.4, 12)[i])
            &&& hex_number(hex_field(f.2, 4)) == f.2
            &&& hex_number(hex_field(f.3, 4)) == f.3
            &&& f.2 == 0x4000 + counter % 4096
            &&& 0x8000 <= f.3 <= 0xbfff
        }),
{
    let p = pid as u64;
    let a = (nanos >> 32u64) as u32;
    let b = nanos as u16;
    let c = (0x4000u16 | ((counter & 0x0fffu64) as u16)) as u16;
    let d = (0x8000u16 | ((p & 0x3fffu64) as u16)) as u16;
    let e = ((p << 20u64) ^ nanos ^ (counter << 8u64)) & 0xffff_ffff_ffffu64;
    assert(c == 0x4000 + counter % 4096) by (bit_vector)
        requires
            c == (0x4000u16 | ((counter & 0x0fffu64) as u16)) as u16,
    ;
    assert(0x8000 <= d <= 0xbfff) by (bit_vector)
        requires
            d == (0x8000u16 | ((p & 0x3fffu64) as u16)) as u16,
    ;
    assert(e <= 0xffff_ffff_ffff) by (bit_vector)
        requires
            e == ((p << 20u64) ^ nanos ^ (counter << 8u64)) & 0xffff_ffff_ffffu64,
    ;
    reveal_with_fuel(hex_bound, 13);
    assert(hex_bound(4) == 0x10000);
    assert(hex_bound(8) == 0x1_0000_0000);
    assert(hex_bound(12) == 0x1_0000_0000_0000);
    lemma_hex_field(a as nat, 8);
    lemma_hex_field(b as nat, 4);
    lemma_hex_field(c as nat, 4);
    lemma_hex_field(d as nat, 4);
    lemma_hex_field(e as nat, 12);
    reveal_strlit("urn:uuid:");
    reveal_strlit("-");
    let t = message_id_text(nanos, counter, pid);
    let ha = hex_field(a as nat, 8);
    let hb = hex_field(b as nat, 4);
    let hc = hex_field(c as nat, 4);
    let hd = hex_field(d as nat, 4);
    let he = hex_field(e as nat, 12);
    assert(t == "urn:uuid:"@ + ha + "-"@ + hb + "-"@ + hc + "-"@ + hd + "-"@ + he);
    assert(t.take(9) =~= "urn:uuid:"@);
    assert(t.subrange(9, 17) =~= ha);
    assert(t.subrange(18, 22) =~= hb);
    assert(t.subrange(23, 27) =~= hc);
    assert(t.subrange(28, 32) =~= hd);
    assert(t.subrange(33, 45) =~= he);
}

/// Every MessageID is shaped like a version-4 UUID URN.
pub proof fn lemma_message_id_shape(nanos: u64, counter: u64, pid: u32)
    ensures
        uuid_urn_shaped(message_id_text(nanos, counter, pid)),
{
    lemma_message_id_layout(nanos, counter, pid);
    let t = message_id_text(nanos, counter, pid);
    let f = message_id_fields(nanos, counter, pid);
    let hc = hex_field(f.2, 4);
    let hd = hex_field(f.3, 4);
    assert forall|i: int|
        9 <= i < 45 && i != 17 && i != 22 && i != 27 && i != 32 implies is_lower_hex(#[trigger] t[i]) by {
        if i < 17 {
            assert(t[i] == t.subrange(9, 17)[i - 9]);
        } else if i < 22 {
            assert(t[i] == t.subrange(18, 22)[i - 18]);
        } else if i < 27 {
            assert(t[i] == t.subrange(23, 27)[i - 23]);
        } else if i < 32 {
            assert(t[i] == t.subrange(28, 32)[i - 28]);
        } else {
            assert(t[i] == t.subrange(33, 45)[i - 33]);
        }
    }
    lemma_hex_number_four(hc);
    lemma_hex_number_four(hd);
    assert(t[23] == hc[0]);
    assert(t[28] == hd[0]);
    assert(is_lower_hex(hc[0]) && is_lower_hex(hd[0]));
}

/// Two MessageIDs whose counters differ modulo 4096 differ, whatever the time and
/// the process: of calls that read successive counters, no two among 4096 in a
/// row share an id.
pub proof fn lemma_message_ids_differ(
    nanos1: u64,
    counter1: u64,
    pid1: u32,
    nanos2: u64,
    counter2: u64,
    pid2: u32,
)
    requires
        counter1 % 4096 != counter2 % 4096,
    ensures
        message_id_text(nanos1, counter1, pid1) != message_id_text(nanos2, counter2, pid2),
{
    lemma_message_id_layout(nanos1, counter1, pid1);
    lemma_message_id_layout(nanos2, counter2, pid2);
    let t1 = message_id_text(nanos1, counter1, pid1);
    let t2 = message_id_text(nanos2, counter2, pid2);
    if t1 == t2 {
        assert(t1.subrange(23, 27) == t2.subrange(23, 27));
    }
}

/// A unique `urn:uuid:` MessageID for a WSD message. WSD only requires uniqueness,
/// not a canonical UUID, so this is made of the time, the process id and a
/// counter that the caller reads.
pub fn message_id(nanos: u64, counter: u64, pid: u32) -> (r: String)
    ensures
        r@ == message_id_text(nanos, counter, pid),
{
    let p = pid as u64;
    let a = (nanos >> 32u64) as u32;
    let b = nanos as u16;
    let c = (0x4000u16 | ((counter & 0x0fffu64) as u16)) as u16;
    let d = (0x8000u16 | ((p & 0x3fffu64) as u16)) as u16;
    let e = ((p << 20u64) ^ nanos ^ (counter << 8u64)) & 0xffff_ffff_ffffu64;
    let mut v: Vec<char> = Vec::new();
    push_str_chars(&mut v, "urn:uuid:");
    push_chars(&mut v, &padded_digits(a as u64, 16, 8));
    push_str_chars(&mut v, "-");
    push_chars(&mut v, &padded_digits(b as u64, 16, 4));
    push_str_chars(&mut v, "-");
    push_chars(&mut v, &padded_digits(c as u64, 16, 4));
    push_str_chars(&mut v, "-");
    push_chars(&mut v, &padded_digits(d as u64, 16, 4));
    push_str_chars(&mut v, "-");
    push_chars(&mut v, &padded_digits(e, 16, 12));
    string_of(v.as_slice())
}

// ---------------------------------------------------------------------------
// The WS-Transfer Get over HTTP
// ---------------------------------------------------------------------------

/// Whether an authority names its port: after the closing `]` of a bracketed IPv6
/// host (whose own colons are part of the address), anywhere in any other host.
pub open spec fn names_port(authority: Seq<char>) -> bool {
    if authority.len() > 0 && authority[0] == '[' {
        has_infix(authority, "]:"@)
    } else {
        authority.contains(':')
    }
}

/// `http://host[:port]/path...` split into (`host:port`, `/path...`), the port
/// defaulting to the scheme's.
pub open spec fn split_url(url: Seq<char>) -> Option<(Seq<char>, Seq<char>)> {
    let http = has_prefix(url, "http://"@);
    let https = has_prefix(url, "https://"@);
    if !http && !https {
        None
    } else {
        let rest = if http {
            url.skip("http://"@.len() as int)
        } else {
            url.skip("https://"@.len() as int)
        };
        let port = if http {
            "80"@
        } else {
            "443"@
        };
        let (authority, path) = match split_once(rest, seq!['/']) {
            Some((a, p)) => (a, seq!['/'] + p),
            None => (rest, seq!['/']),
        };
        if names_port(authority) {
            Some((authority, path))
        } else {
            Some((authority + seq![':'] + port, path))
        }
    }
}

/// Split `http://host[:port]/path...` into (`host:port`, `/path...`), defaulting the
/// port to the scheme's default when absent (`to_socket_addrs` needs `host:port`).
pub fn split_http_url(url: &str) -> (r: Option<(String, String)>)
    ensures
        match split_url(url@) {
            None => r is None,
            Some((a, p)) => r matches Some(x) && x.0@ == a && x.1@ == p,
        },
{
    let u = chars_of(url);
    let http = chars_of("http://");
    let https = chars_of("https://");
    let is_http = starts_with_chars(&u, &http);
    let (rest, port) = if is_http {
        (chars_range(&u, http.len(), u.len()), "80")
    } else if starts_with_chars(&u, &https) {
        (chars_range(&u, https.len(), u.len()), "443")
    } else {
        return None;
    };
    proof {
        assert(u@.subrange(http@.len() as int, u@.len() as int) == u@.skip(http@.len() as int));
        assert(u@.subrange(https@.len() as int, u@.len() as int) == u@.skip(https@.len() as int));
    }
    let mut slash: Vec<char> = Vec::new();
    slash.push('/');
    proof {
        assert(slash@ =~= seq!['/']);
    }
    let (mut authority, path) = match find(&rest, &slash) {
        Some(i) => {
            let a = chars_range(&rest, 0, i);
            let mut p: Vec<char> = Vec::new();
            p.push('/');
            let tail = chars_range(&rest, i + 1, rest.len());
            push_chars(&mut p, &tail);
            proof {
                assert(a@ == rest@.take(i as int));
                assert(tail@ == rest@.skip(i + 1));
                assert(p@ =~= seq!['/'] + rest@.skip(i + 1));
            }
            (a, p)
        },
        None => {
            let mut p: Vec<char> = Vec::new();
            p.push('/');
            proof {
                assert(p@ =~= seq!['/']);
            }
            (chars_range(&rest, 0, rest.len()), p)
        },
    };
    proof {
        assert(rest@.subrange(0, rest@.len() as int) == rest@);
    }
    let named = if authority.len() > 0 && authority[0] == '[' {
        str_has_infix(&authority, "]:")
    } else {
        has_char(&authority, ':')
    };
    if !named {
        authority.push(':');
        push_str_chars(&mut authority, port);
    }
    Some((string_of(authority.as_slice()), string_of(path.as_slice())))
}

/// The HTTP request that posts `envelope` to `path` on `authority`.
pub open spec fn get_request_text(path: Seq<char>, authority: Seq<char>, envelope: Seq<char>) -> Seq<char> {
    "POST "@ + path + " HTTP/1.1\r\nHost: "@ + authority
        + "\r\nContent-Type: application/soap+xml; charset=utf-8\r\nContent-Length: "@ + base_digits(
        encode_utf8(envelope).len(),
        10,
    ) + "\r\nConnection: close\r\n\r\n"@ + envelope
}

/// The HTTP/1.1 POST that carries the WS-Transfer Get; the Content-Length is the
/// envelope's length in bytes.
pub fn get_request(path: &str, authority: &str, envelope: &str) -> (r: String)
    requires
        encode_utf8(envelope@).len() <= usize::MAX,
    ensures
        r@ == get_request_text(path@, authority@, envelope@),
{
    let n = envelope.len();
    let mut v: Vec<char> = Vec::new();
    push_str_chars(&mut v, "POST ");
    push_str_chars(&mut v, path);
    push_str_chars(&mut v, " HTTP/1.1\r\nHost: ");
    push_str_chars(&mut v, authority);
    push_str_chars(&mut v, "\r\nContent-Type: application/soap+xml; charset=utf-8\r\nContent-Length: ");
    push_chars(&mut v, &digits_of(n as u64, 10));
    push_str_chars(&mut v, "\r\nConnection: close\r\n\r\n");
    push_str_chars(&mut v, envelope);
    string_of(v.as_slice())
}

// ---------------------------------------------------------------------------
// Reading the answer to the Get
// ---------------------------------------------------------------------------

pub open spec fn crlf() -> Seq<char> {
    seq!['\r', '\n']
}

/// The size field of a chunk-size line: what comes before any `;` extension,
/// trimmed.
pub open spec fn size_field(line: Seq<char>) -> Seq<char> {
    trim(
        match split_once(line, seq![';']) {
            Some(p) => p.0,
            None => line,
        },
    )
}

/// The number of characters at the front of `s` that take exactly `n` bytes in
/// UTF-8, if a character boundary lies there.
pub open spec fn byte_prefix(s: Seq<char>, n: nat) -> Option<int> {
    if exists|k: int| 0 <= k <= s.len() && utf8_len(s.take(k)) == n {
        Some(choose|k: int| 0 <= k <= s.len() && utf8_len(s.take(k)) == n)
    } else {
        None
    }
}

/// An HTTP/1.1 `Transfer-Encoding: chunked` body decoded: the chunks in order,
/// up to a zero or unreadable size, or a size larger than what is left. `None`
/// where a chunk of `n` bytes would end inside a character, on which slicing the
/// text panics.
pub open spec fn dechunked(s: Seq<char>) -> Option<Seq<char>>
    decreases s.len(),
{
    match split_once(s, crlf()) {
        None => Some(Seq::<char>::empty()),
        Some((line, rest)) => {
            proof {
                let i = choose|i: int| is_first_occurrence(s, crlf(), i);
                assert(rest.len() < s.len());
            }
            match parse_hex_usize(size_field(line)) {
                None => Some(Seq::<char>::empty()),
                Some(n) => if n == 0 || utf8_len(rest) < n {
                    Some(Seq::<char>::empty())
                } else {
                    match byte_prefix(rest, n) {
                        None => None,
                        Some(k) => {
                            let after = rest.skip(k);
                            let next = if has_prefix(after, crlf()) {
                                after.skip(2)
                            } else {
                                Seq::<char>::empty()
                            };
                            match dechunked(next) {
                                None => None,
                                Some(o) => Some(rest.take(k) + o),
                            }
                        },
                    }
                },
            }
        },
    }
}

pub open spec fn prepend(p: Seq<char>, o: Option<Seq<char>>) -> Option<Seq<char>> {
    match o {
        None => None,
        Some(x) => Some(p + x),
    }
}

proof fn lemma_utf8_len_take_monotone(s: Seq<char>, a: int, b: int)
    requires
        0 <= a <= b <= s.len(),
    ensures
        utf8_len(s.take(a)) <= utf8_len(s.take(b)),
        a < b ==> utf8_len(s.take(a)) < utf8_len(s.take(b)),
{
    lemma_utf8_len_monotone(s.take(b), a);
    assert(s.take(b).take(a) == s.take(a));
}

/// The size field of a chunk-size line.
fn size_field_exec(line: &Vec<char>) -> (r: Vec<char>)
    ensures
        r@ == size_field(line@),
{
    let mut semi: Vec<char> = Vec::new();
    semi.push(';');
    proof {
        assert(semi@ =~= seq![';']);
    }
    match find(line, &semi) {
        Some(i) => {
            let head = chars_range(line, 0, i);
            proof {
                assert(head@ == line@.take(i as int));
            }
            trim_chars(&head)
        },
        None => trim_chars(line),
    }
}

/// Where `n` bytes of `rest` end: `None` inside a character, `Some(None)` past its
/// end, else the number of characters they take.
fn bytes_to_chars(rest: &Vec<char>, n: usize) -> (r: Option<Option<usize>>)
    ensures
        match r {
            None => utf8_len(rest@) >= n && byte_prefix(rest@, n as nat) is None,
            Some(None) => utf8_len(rest@) < n,
            Some(Some(k)) => utf8_len(rest@) >= n && byte_prefix(rest@, n as nat) == Some(k as int)
                && k <= rest@.len(),
        },
{
    let mut acc: usize = 0;
    let mut k: usize = 0;
    while acc < n && k < rest.len()
        invariant
            k <= rest@.len(),
            acc <= n,
            acc as nat == utf8_len(rest@.take(k as int)),
        decreases rest@.len() - k,
    {
        let w = char_width_exec(rest[k]);
        proof {
            assert(rest@.take(k + 1).drop_last() == rest@.take(k as int));
            assert(rest@.take(k + 1).last() == rest@[k as int]);
        }
        if w > n - acc {
            proof {
                assert(utf8_len(rest@.take(k + 1)) > n);
                lemma_utf8_len_take_monotone(rest@, k + 1, rest@.len() as int);
                assert(rest@.take(rest@.len() as int) == rest@);
                assert forall|j: int| 0 <= j <= rest@.len() implies utf8_len(rest@.take(j)) != n by {
                    if j <= k {
                        lemma_utf8_len_take_monotone(rest@, j, k as int);
                    } else {
                        lemma_utf8_len_take_monotone(rest@, k + 1, j);
                    }
                }
            }
            return None;
        }
        acc = acc + w;
        k = k + 1;
    }
    if acc < n {
        proof {
            assert(rest@.take(rest@.len() as int) == rest@);
        }
        return Some(None);
    }
    proof {
        lemma_utf8_len_take_monotone(rest@, k as int, rest@.len() as int);
        assert(rest@.take(rest@.len() as int) == rest@);
        assert forall|j: int| 0 <= j <= rest@.len() && utf8_len(rest@.take(j)) == n implies j == k by {
            if j < k {
                lemma_utf8_len_take_monotone(rest@, j, k as int);
            } else if j > k {
                lemma_utf8_len_take_monotone(rest@, k as int, j);
            }
        }
    }
    Some(Some(k))
}

/// One step of dechunking.
enum ChunkStep {
    /// The body ends here.
    Done,
    /// The next chunk would end inside a character.
    Cut,
    /// One chunk, and the text after it.
    Chunk(Vec<char>, Vec<char>),
}

fn chunk_step(cur: &Vec<char>) -> (r: ChunkStep)
    ensures
        match r {
            ChunkStep::Done => dechunked(cur@) == Some(Seq::<char>::empty()),
            ChunkStep::Cut => dechunked(cur@) is None,
            ChunkStep::Chunk(c, next) => next@.len() < cur@.len() && dechunked(cur@) == prepend(
                c@,
                dechunked(next@),
            ),
        },
{
    let mut nl: Vec<char> = Vec::new();
    nl.push('\r');
    nl.push('\n');
    proof {
        assert(nl@ =~= crlf());
    }
    let i = match find(cur, &nl) {
        None => return ChunkStep::Done,
        Some(i) => i,
    };
    let ghost c = cur@;
    proof {
        assert(is_first_occurrence(c, crlf(), i as int));
        assert(occurs_at(c, crlf(), i as int));
        assert(i + 2 <= c.len());
    }
    let len = cur.len();
    let rest = chars_range(cur, i + 2, len);
    let line = chars_range(cur, 0, i);
    proof {
        assert(rest@ == c.skip(i + 2));
        assert(line@ == c.take(i as int));
    }
    let field = size_field_exec(&line);
    let n = match parse_hex(&field) {
        None => return ChunkStep::Done,
        Some(n) => n,
    };
    if n == 0 {
        return ChunkStep::Done;
    }
    let k = match bytes_to_chars(&rest, n) {
        None => return ChunkStep::Cut,
        Some(None) => return ChunkStep::Done,
        Some(Some(k)) => k,
    };
    let chunk = chars_range(&rest, 0, k);
    let after = chars_range(&rest, k, rest.len());
    let next = if starts_with_chars(&after, &nl) {
        chars_range(&after, 2, after.len())
    } else {
        Vec::new()
    };
    proof {
        assert(chunk@ == rest@.take(k as int));
        assert(after@ == rest@.skip(k as int));
        assert(has_prefix(after@, crlf()) ==> next@ == after@.skip(2));
        assert(!has_prefix(after@, crlf()) ==> next@ =~= Seq::<char>::empty());
    }
    ChunkStep::Chunk(chunk, next)
}

/// Decode an HTTP/1.1 `Transfer-Encoding: chunked` body. `None` where a chunk
/// would end inside a character.
pub fn dechunk(s: &Vec<char>) -> (r: Option<Vec<char>>)
    ensures
        match dechunked(s@) {
            None => r is None,
            Some(d) => r matches Some(v) && v@ == d,
        },
{
    let mut cur = chars_range(s, 0, s.len());
    let mut out: Vec<char> = Vec::new();
    proof {
        assert(s@.subrange(0, s@.len() as int) == s@);
        match dechunked(cur@) {
            Some(x) => {
                assert(out@ + x =~= x);
            },
            None => {},
        }
    }
    loop
        invariant
            dechunked(s@) == prepend(out@, dechunked(cur@)),
        decreases cur@.len(),
    {
        match chunk_step(&cur) {
            ChunkStep::Done => {
                proof {
                    assert(out@ + Seq::<char>::empty() == out@);
                }
                return Some(out);
            },
            ChunkStep::Cut => {
                return None;
            },
            ChunkStep::Chunk(chunk, next) => {
                proof {
                    match dechunked(next@) {
                        Some(o) => {
                            assert(out@ + (chunk@ + o) =~= (out@ + chunk@) + o);
                        },
                        None => {},
                    }
                }
                push_chars(&mut out, &chunk);
                cur = next;
            },
        }
    }
}

/// The text of the first `<FriendlyName>` among the nodes of a WSD device
/// metadata response, trimmed, unless that is empty.
pub open spec fn friendly_name_of(nodes: Seq<(bool, Seq<char>, Option<Seq<char>>)>) -> Option<Seq<char>> {
    match element_text(nodes, "FriendlyName"@) {
        None => None,
        Some(t) => if trim(t).len() > 0 {
            Some(trim(t))
        } else {
            None
        },
    }
}

/// The text of the first `<FriendlyName>` of a WSD device metadata response,
/// trimmed, unless that is empty.
pub open spec fn friendly_name(body: Seq<char>) -> Option<Seq<char>> {
    match xml_descendants(body) {
        None => None,
        Some(nodes) => friendly_name_of(nodes),
    }
}

/// The trimmed `<FriendlyName>` among the parsed nodes of a metadata response.
pub fn friendly_name_from_nodes(nodes: &Vec<XmlNode>) -> (r: Option<String>)
    ensures
        opt_view(r) == friendly_name_of(node_views(nodes@)),
{
    match find_element_text(nodes, "FriendlyName") {
        None => None,
        Some(t) => {
            let trimmed = trim_chars(&chars_of(t.as_str()));
            if trimmed.len() > 0 {
                Some(string_of(trimmed.as_slice()))
            } else {
                None
            }
        },
    }
}

/// Read `<FriendlyName>` from a WSD device metadata (ThisDevice) response.
pub fn extract_friendly_name(body: &str) -> (r: Option<String>)
    ensures
        opt_view(r) == friendly_name(body@),
{
    match xml_nodes(body) {
        None => None,
        Some(nodes) => friendly_name_from_nodes(&nodes),
    }
}

/// A header line announcing `Transfer-Encoding: chunked`.
pub open spec fn chunked_line(line: Seq<char>) -> bool {
    has_prefix(lower(line), "transfer-encoding:"@) && has_infix(lower(line), "chunked"@)
}

/// The headers announce a chunked body.
pub open spec fn is_chunked(headers: Seq<char>) -> bool {
    exists|i: int| 0 <= i < lines_of(headers).len() && chunked_line(#[trigger] lines_of(headers)[i])
}

/// The body of the decoded answer to the Get: `Some(None)` when it has no
/// head/body split, the body (dechunked when the headers say so) otherwise, and
/// `None` where its chunked body would be cut inside a character.
pub open spec fn response_body(text: Seq<char>) -> Option<Option<Seq<char>>> {
    match split_once(text, "\r\n\r\n"@) {
        None => Some(None),
        Some((headers, body)) => if is_chunked(headers) {
            match dechunked(body) {
                None => None,
                Some(d) => Some(Some(d)),
            }
        } else {
            Some(Some(body))
        },
    }
}

/// What the answer to the Get says the device is called: `Ok(None)` when it has
/// no head/body split or no friendly name, `Err` where its chunked body would
/// be cut inside a character.
pub open spec fn response_friendly_name(response: Seq<u8>) -> Option<Option<Seq<char>>> {
    match response_body(utf8_lossy(response)) {
        None => None,
        Some(None) => Some(None),
        Some(Some(body)) => Some(friendly_name(body)),
    }
}

/// A chunk of the body ends inside a character.
#[derive(Clone, Copy, Debug, PartialEq, Eq, Structural)]
pub struct ChunkSplitsCharacter;

/// Whether the header lines announce `Transfer-Encoding: chunked`, in either case.
pub fn headers_chunked(headers: &Vec<char>) -> (r: bool)
    ensures
        r == is_chunked(headers@),
{
    let lines = lines_chars(headers);
    let ghost ls = views(lines@);
    let mut i: usize = 0;
    while i < lines.len()
        invariant
            i <= lines@.len(),
            ls == views(lines@),
            ls == lines_of(headers@),
            forall|j: int| 0 <= j < i ==> !chunked_line(#[trigger] ls[j]),
        decreases lines@.len() - i,
    {
        let l = to_lower(&lines[i]);
        proof {
            assert(ls[i as int] == lines@[i as int]@);
        }
        if str_has_prefix(&l, "transfer-encoding:") && str_has_infix(&l, "chunked") {
            return true;
        }
        i = i + 1;
    }
    false
}

/// Splits the decoded answer to the WS-Transfer Get at its first blank line and
/// returns the body, dechunked when the headers say so; `Ok(None)` when there is
/// no blank line.
pub fn split_response(text: &Vec<char>) -> (r: Result<Option<Vec<char>>, ChunkSplitsCharacter>)
    ensures
        match response_body(text@) {
            None => r is Err,
            Some(None) => r matches Ok(x) && x is None,
            Some(Some(b)) => r matches Ok(x) && x matches Some(v) && v@ == b,
        },
{
    let sep = chars_of("\r\n\r\n");
    let i = match find(text, &sep) {
        None => return Ok(None),
        Some(i) => i,
    };
    proof {
        assert(is_first_occurrence(text@, sep@, i as int));
        assert(occurs_at(text@, sep@, i as int));
        assert(i + sep@.len() <= text@.len());
    }
    let headers = chars_range(text, 0, i);
    let len = text.len();
    let seplen = sep.len();
    let body = chars_range(text, i + seplen, len);
    proof {
        assert(headers@ == text@.take(i as int));
        assert(body@ == text@.skip(i + sep@.len()));
    }
    if headers_chunked(&headers) {
        match dechunk(&body) {
            None => Err(ChunkSplitsCharacter),
            Some(d) => Ok(Some(d)),
        }
    } else {
        Ok(Some(body))
    }
}

/// Reads the raw answer to the WS-Transfer Get: head and body split at the first
/// blank line, the body dechunked when the headers say so, then its friendly
/// name.
pub fn friendly_name_from_response(response: &[u8]) -> (r: Result<Option<String>, ChunkSplitsCharacter>)
    ensures
        match response_friendly_name(response@) {
            None => r is Err,
            Some(n) => r matches Ok(x) && opt_view(x) == n,
        },
{
    let text = chars_of(lossy_string(response).as_str());
    match split_response(&text) {
        Err(e) => Err(e),
        Ok(None) => Ok(None),
        Ok(Some(body)) => Ok(extract_friendly_name(string_of(body.as_slice()).as_str())),
    }
}

} // verus!
