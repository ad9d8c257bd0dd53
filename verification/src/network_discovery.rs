//! LAN devices for the `network:///` view: what a discovered device is, how the
//! findings of the two sources are folded into one entry per address, and how
//! the mDNS / DNS-SD listing of the system Avahi daemon is read.
//!
//! The sockets, the child process and the threads that gather the raw data are
//! the caller's; everything they hand over is read and decided here.

use vstd::prelude::*;
use crate::table::KeyedTable;
use crate::table::lookup;
use crate::table::upsert;
use crate::table::sorted;
use crate::table::text_lt;
use crate::table::lemma_upsert_sorted;
use crate::table::lemma_upsert_keys;
use crate::text::chars_of;
use crate::text::to_lower;
use crate::text::lower;
use crate::text::lower_char;
use crate::text::has_infix;
use crate::text::str_has_infix;
use crate::text::utf8_lossy;
use crate::text::lossy_string;
use crate::text::utf8_of_char;
use crate::text::views;
use crate::text::split_on;
use crate::text::split_char;
use crate::text::lines_of;
use crate::text::lines_chars;
use crate::text::trim_end_by;
use crate::text::trim_end_char;
use crate::text::char_pred;
use crate::text::string_of;
use crate::text::chars_eq;
use crate::text::trim;
use crate::text::trim_chars;
use vstd::utf8::encode_utf8;
use vstd::utf8::encode_scalar;

verus! {

/// Kind of a discovered device, ordered by display priority (a device that offers
/// several services is shown as the highest-priority kind: a file server that also
/// advertises a web UI stays a `Computer`).
#[derive(Clone, Copy, Debug, PartialEq, Eq, Structural, PartialOrd, Ord, Hash)]
pub enum DeviceKind {
    Computer,
    Printer,
    Scanner,
    Other,
}

/// Display priority of a kind: lower is shown in preference.
pub open spec fn rank(k: DeviceKind) -> nat {
    match k {
        DeviceKind::Computer => 0,
        DeviceKind::Printer => 1,
        DeviceKind::Scanner => 2,
        DeviceKind::Other => 3,
    }
}

/// Display priority of a kind: lower is shown in preference.
pub fn kind_rank(k: DeviceKind) -> (r: u8)
    ensures
        r == rank(k),
{
    match k {
        DeviceKind::Computer => 0,
        DeviceKind::Printer => 1,
        DeviceKind::Scanner => 2,
        DeviceKind::Other => 3,
    }
}

/// The kind that is shown when a device offers both.
pub open spec fn preferred(a: DeviceKind, b: DeviceKind) -> DeviceKind {
    if rank(a) < rank(b) {
        a
    } else {
        b
    }
}

#[derive(Clone, Debug)]
pub struct Device {
    /// Display label (host or friendly name).
    pub name: String,
    /// IPv4 address, used both as the dedup key and for the `smb://` link.
    pub addr: String,
    pub kind: DeviceKind,
}

// ---------------------------------------------------------------------------
// Merging the sources
// ---------------------------------------------------------------------------

/// The entry for an address after one more finding for it. The flag beside a
/// device says whether its name is a bare IP address.
pub open spec fn merge_entry(existing: Option<(Device, bool)>, device: Device, name_is_addr: bool) -> (
    Device,
    bool,
) {
    match existing {
        None => (device, name_is_addr),
        Some(e) => {
            let kind = preferred(device.kind, e.0.kind);
            if e.0.name@.len() == 0 || (e.1 && !name_is_addr) {
                (Device { name: device.name, addr: e.0.addr, kind }, name_is_addr)
            } else {
                (Device { name: e.0.name, addr: e.0.addr, kind }, e.1)
            }
        },
    }
}

/// The table after folding in one finding: one without an address is ignored.
pub open spec fn merge_step(
    t: Seq<(Seq<char>, (Device, bool))>,
    device: Device,
    name_is_addr: bool,
) -> Seq<(Seq<char>, (Device, bool))> {
    if device.addr@.len() == 0 {
        t
    } else {
        upsert(t, device.addr@, merge_entry(lookup(t, device.addr@), device, name_is_addr))
    }
}

/// The table, keyed by address, after folding in all findings in order.
pub open spec fn merged(found: Seq<(Device, bool)>) -> Seq<(Seq<char>, (Device, bool))>
    decreases found.len(),
{
    if found.len() == 0 {
        seq![]
    } else {
        merge_step(merged(found.drop_last()), found.last().0, found.last().1)
    }
}

/// The devices of a merged table, in ascending order of address.
pub open spec fn merged_devices(found: Seq<(Device, bool)>) -> Seq<Device> {
    merged(found).map_values(|e: (Seq<char>, (Device, bool))| e.1.0)
}

/// Every entry is stored under its device's address.
pub open spec fn keyed_by_addr(t: Seq<(Seq<char>, (Device, bool))>) -> bool {
    forall|i: int| 0 <= i < t.len() ==> (#[trigger] t[i]).0 == t[i].1.0.addr@
}

proof fn lemma_lookup_key(t: Seq<(Seq<char>, (Device, bool))>, k: Seq<char>)
    requires
        keyed_by_addr(t),
    ensures
        lookup(t, k) matches Some(e) ==> e.0.addr@ == k,
    decreases t.len(),
{
    if t.len() > 0 && t[0].0 != k {
        let r = t.drop_first();
        assert(keyed_by_addr(r)) by {
            assert forall|i: int| 0 <= i < r.len() implies (#[trigger] r[i]).0 == r[i].1.0.addr@ by {
                assert(r[i] == t[i + 1]);
            }
        }
        lemma_lookup_key(r, k);
    }
}

/// Every entry of `upsert(t, k, v)` is either an entry of `t` or `(k, v)`.
proof fn lemma_upsert_entries<V>(t: Seq<(Seq<char>, V)>, k: Seq<char>, v: V)
    ensures
        forall|i: int|
            0 <= i < upsert(t, k, v).len() ==> #[trigger] upsert(t, k, v)[i] == (k, v) || exists|
                m: int,
            | 0 <= m < t.len() && t[m] == upsert(t, k, v)[i],
    decreases t.len(),
{
    if t.len() > 0 && t[0].0 != k && !text_lt(k, t[0].0) {
        let r = t.drop_first();
        lemma_upsert_entries(r, k, v);
        let u = upsert(t, k, v);
        assert forall|i: int| 0 <= i < u.len() implies #[trigger] u[i] == (k, v) || exists|m: int|
            0 <= m < t.len() && t[m] == u[i] by {
            if i == 0 {
                assert(t[0] == u[0]);
            } else {
                let x = upsert(r, k, v)[i - 1];
                assert(u[i] == x);
                if x != (k, v) {
                    let m = choose|m: int| 0 <= m < r.len() && r[m] == x;
                    assert(t[m + 1] == x);
                }
            }
        }
    } else if t.len() > 0 && t[0].0 == k {
        let u = upsert(t, k, v);
        assert forall|i: int| 0 <= i < u.len() implies #[trigger] u[i] == (k, v) || exists|m: int|
            0 <= m < t.len() && t[m] == u[i] by {
            if i != 0 {
                assert(t[i] == u[i]);
            }
        }
    } else if t.len() > 0 {
        let u = upsert(t, k, v);
        assert forall|i: int| 0 <= i < u.len() implies #[trigger] u[i] == (k, v) || exists|m: int|
            0 <= m < t.len() && t[m] == u[i] by {
            if i != 0 {
                assert(t[i - 1] == u[i]);
            }
        }
    }
}

proof fn lemma_keyed_after_upsert(t: Seq<(Seq<char>, (Device, bool))>, k: Seq<char>, v: (Device, bool))
    requires
        keyed_by_addr(t),
        v.0.addr@ == k,
    ensures
        keyed_by_addr(upsert(t, k, v)),
{
    lemma_upsert_entries(t, k, v);
    let u = upsert(t, k, v);
    assert forall|i: int| 0 <= i < u.len() implies (#[trigger] u[i]).0 == u[i].1.0.addr@ by {
        if u[i] != (k, v) {
            let m = choose|m: int| 0 <= m < t.len() && t[m] == u[i];
            assert(t[m].0 == t[m].1.0.addr@);
        }
    }
}

pub proof fn lemma_merged_invariants(found: Seq<(Device, bool)>)
    ensures
        keyed_by_addr(merged(found)),
        sorted(merged(found)),
    decreases found.len(),
{
    if found.len() > 0 {
        let t = merged(found.drop_last());
        lemma_merged_invariants(found.drop_last());
        let d = found.last().0;
        if d.addr@.len() > 0 {
            let k = d.addr@;
            let v = merge_entry(lookup(t, k), d, found.last().1);
            lemma_upsert_sorted(t, k, v);
            lemma_lookup_key(t, k);
            lemma_keyed_after_upsert(t, k, v);
        }
    }
}

/// Folding in one finding: one without an address leaves the table as it was;
/// otherwise its address holds the merged entry (the finding itself where the
/// address is new), every other address keeps what it held, the table stays in
/// ascending order of address, and every entry stays under its device's address.
pub proof fn lemma_merge_step(t: Seq<(Seq<char>, (Device, bool))>, device: Device, name_is_addr: bool)
    requires
        keyed_by_addr(t),
        sorted(t),
    ensures
        device.addr@.len() == 0 ==> merge_step(t, device, name_is_addr) == t,
        device.addr@.len() > 0 ==> lookup(merge_step(t, device, name_is_addr), device.addr@) == Some(
            merge_entry(lookup(t, device.addr@), device, name_is_addr),
        ),
        device.addr@.len() > 0 && lookup(t, device.addr@) is None ==> lookup(
            merge_step(t, device, name_is_addr),
            device.addr@,
        ) == Some((device, name_is_addr)),
        forall|q: Seq<char>|
            q != device.addr@ ==> #[trigger] lookup(merge_step(t, device, name_is_addr), q) == lookup(t, q),
        sorted(merge_step(t, device, name_is_addr)),
        keyed_by_addr(merge_step(t, device, name_is_addr)),
{
    if device.addr@.len() > 0 {
        let k = device.addr@;
        let v = merge_entry(lookup(t, k), device, name_is_addr);
        lemma_lookup_after_upsert(t, k, v, k);
        assert forall|q: Seq<char>| q != k implies #[trigger] lookup(merge_step(t, device, name_is_addr), q)
            == lookup(t, q) by {
            lemma_lookup_after_upsert(t, k, v, q);
        }
        lemma_upsert_sorted(t, k, v);
        lemma_lookup_key(t, k);
        lemma_keyed_after_upsert(t, k, v);
    }
}

/// Folds one finding into the table kept by address.
fn merge(table: &mut KeyedTable<(Device, bool)>, device: Device, name_is_addr: bool)
    requires
        keyed_by_addr(old(table)@),
    ensures
        final(table)@ == merge_step(old(table)@, device, name_is_addr),
        keyed_by_addr(final(table)@),
{
    let ghost t = table@;
    let ghost d = device;
    if device.addr.as_str().is_empty() {
        return;
    }
    let key = chars_of(device.addr.as_str());
    let entry = match table.get(&key) {
        Some(existing) => {
            let existing_kind = existing.0.kind;
            let kind = if kind_rank(device.kind) < kind_rank(existing_kind) {
                device.kind
            } else {
                existing_kind
            };
            let addr = existing.0.addr.clone();
            let replace_name = existing.0.name.as_str().is_empty() || (existing.1 && !name_is_addr);
            if replace_name {
                (Device { name: device.name, addr, kind }, name_is_addr)
            } else {
                (Device { name: existing.0.name.clone(), addr, kind }, existing.1)
            }
        },
        None => (device, name_is_addr),
    };
    proof {
        assert(entry == merge_entry(lookup(t, d.addr@), d, name_is_addr));
        lemma_lookup_key(t, d.addr@);
        lemma_keyed_after_upsert(t, d.addr@, entry);
    }
    table.set(key, entry);
}

/// Merges the findings of all sources, in the order given, into one device per
/// address, in ascending order of address. Each finding comes with whether its
/// name is a bare IP address (`IpAddr` parses it).
///
/// For an address found more than once the device keeps the highest-priority
/// kind, and a real name replaces an empty one or a bare IP address.
pub fn merge_devices(found: Vec<(Device, bool)>) -> (r: Vec<Device>)
    ensures
        r@ == merged_devices(found@),
{
    let ghost all = found@;
    let n = found.len();
    let mut table: KeyedTable<(Device, bool)> = KeyedTable::new();
    let mut rest: Vec<(Device, bool)> = Vec::new();
    let mut found = found;
    // Reverse, so that popping hands the findings out in the order they came.
    while found.len() > 0
        invariant
            found@.len() + rest@.len() == all.len(),
            forall|j: int| 0 <= j < found@.len() ==> #[trigger] found@[j] == all[j],
            forall|j: int|
                0 <= j < rest@.len() ==> #[trigger] rest@[j] == all[all.len() - 1 - j],
        decreases found@.len(),
    {
        let x = found.pop().unwrap();
        rest.push(x);
    }
    let mut done: usize = 0;
    proof {
        assert(all.take(0) == Seq::<(Device, bool)>::empty());
    }
    while rest.len() > 0
        invariant
            done + rest@.len() == all.len(),
            all.len() == n,
            forall|j: int|
                0 <= j < rest@.len() ==> #[trigger] rest@[j] == all[all.len() - 1 - j],
            keyed_by_addr(table@),
            table@ == merged(all.take(done as int)),
        decreases rest@.len(),
    {
        let (device, flag) = rest.pop().unwrap();
        proof {
            assert(all.take(done + 1).drop_last() == all.take(done as int));
            assert(all.take(done + 1).last() == all[done as int]);
        }
        merge(&mut table, device, flag);
        done = done + 1;
    }
    proof {
        assert(all.take(done as int) == all);
    }
    table.into_values_first()
}

impl KeyedTable<(Device, bool)> {
    /// The devices, in ascending order of address.
    fn into_values_first(self) -> (r: Vec<Device>)
        ensures
            r@ == self@.map_values(|e: (Seq<char>, (Device, bool))| e.1.0),
    {
        let ghost e = self@;
        let vals = self.into_values();
        let mut out: Vec<Device> = Vec::new();
        let mut vals = vals;
        let mut back: Vec<(Device, bool)> = Vec::new();
        while vals.len() > 0
            invariant
                vals@.len() + back@.len() == e.len(),
                forall|j: int| 0 <= j < vals@.len() ==> #[trigger] vals@[j] == e[j].1,
                forall|j: int| 0 <= j < back@.len() ==> #[trigger] back@[j] == e[e.len() - 1 - j].1,
            decreases vals@.len(),
        {
            let x = vals.pop().unwrap();
            back.push(x);
        }
        while back.len() > 0
            invariant
                out@.len() + back@.len() == e.len(),
                forall|j: int| 0 <= j < back@.len() ==> #[trigger] back@[j] == e[e.len() - 1 - j].1,
                forall|j: int| 0 <= j < out@.len() ==> #[trigger] out@[j] == e[j].1.0,
            decreases back@.len(),
        {
            let x = back.pop().unwrap();
            out.push(x.0);
        }
        proof {
            assert(out@ =~= e.map_values(|x: (Seq<char>, (Device, bool))| x.1.0));
        }
        out
    }
}

/// Each address shows up exactly once: the merged devices come in strictly
/// ascending order of address, so no two share one.
pub proof fn lemma_merged_one_device_per_address(found: Seq<(Device, bool)>)
    ensures
        forall|i: int, j: int|
            0 <= i < j < merged_devices(found).len() ==> text_lt(
                (#[trigger] merged_devices(found)[i]).addr@,
                (#[trigger] merged_devices(found)[j]).addr@,
            ),
{
    lemma_merged_invariants(found);
    let t = merged(found);
    assert forall|i: int, j: int|
        0 <= i < j < merged_devices(found).len() implies text_lt(
        (#[trigger] merged_devices(found)[i]).addr@,
        (#[trigger] merged_devices(found)[j]).addr@,
    ) by {
        assert(t[i].0 == t[i].1.0.addr@);
        assert(t[j].0 == t[j].1.0.addr@);
    }
}

/// Every finding with an address is represented, and the device for its address
/// is of a kind of at least the same priority: a device that offers several
/// services is shown as its highest-priority kind.
pub proof fn lemma_merged_keeps_best_kind(found: Seq<(Device, bool)>, k: int)
    requires
        0 <= k < found.len(),
        found[k].0.addr@.len() > 0,
    ensures
        lookup(merged(found), found[k].0.addr@) matches Some(e) && rank(e.0.kind) <= rank(
            found[k].0.kind,
        ),
    decreases found.len(),
{
    let init = found.drop_last();
    let d = found.last().0;
    let a = found[k].0.addr@;
    lemma_merged_invariants(init);
    let t = merged(init);
    if k < found.len() - 1 {
        assert(init[k] == found[k]);
        lemma_merged_keeps_best_kind(init, k);
    }
    if d.addr@.len() > 0 {
        let v = merge_entry(lookup(t, d.addr@), d, found.last().1);
        lemma_lookup_after_upsert(t, d.addr@, v, a);
    }
}

/// The kind shown for an address is one that a finding for that address reported:
/// merging picks among the findings' kinds and never makes one up.
pub proof fn lemma_merged_kind_was_found(found: Seq<(Device, bool)>, a: Seq<char>)
    ensures
        lookup(merged(found), a) matches Some(e) ==> exists|j: int|
            0 <= j < found.len() && (#[trigger] found[j]).0.addr@ == a && found[j].0.kind == e.0.kind,
    decreases found.len(),
{
    if found.len() > 0 {
        let init = found.drop_last();
        let d = found.last().0;
        let t = merged(init);
        lemma_merged_kind_was_found(init, a);
        if d.addr@.len() > 0 {
            let v = merge_entry(lookup(t, d.addr@), d, found.last().1);
            lemma_lookup_after_upsert(t, d.addr@, v, a);
            let last = found.len() - 1;
            assert(found[last].0 == d);
            if let Some(e) = lookup(merged(found), a) {
                if a != d.addr@ {
                    let j = choose|j: int| 0 <= j < init.len() && (#[trigger] init[j]).0.addr@ == a
                        && init[j].0.kind == e.0.kind;
                    assert(found[j] == init[j]);
                } else if e.0.kind != d.kind {
                    let j = choose|j: int| 0 <= j < init.len() && (#[trigger] init[j]).0.addr@ == a
                        && init[j].0.kind == e.0.kind;
                    assert(found[j] == init[j]);
                }
            }
        } else {
            if let Some(e) = lookup(merged(found), a) {
                let j = choose|j: int| 0 <= j < init.len() && (#[trigger] init[j]).0.addr@ == a
                    && init[j].0.kind == e.0.kind;
                assert(found[j] == init[j]);
            }
        }
    }
}

/// The kind shown for an address is the highest-priority kind among all the
/// findings for it: one of them reported it, and none reported a better one.
pub proof fn lemma_merged_kind_is_the_best_found(found: Seq<(Device, bool)>, a: Seq<char>)
    requires
        a.len() > 0,
        exists|k: int| 0 <= k < found.len() && (#[trigger] found[k]).0.addr@ == a,
    ensures
        lookup(merged(found), a) matches Some(e) && (exists|j: int|
            0 <= j < found.len() && (#[trigger] found[j]).0.addr@ == a && found[j].0.kind == e.0.kind)
            && (forall|k: int|
            0 <= k < found.len() && (#[trigger] found[k]).0.addr@ == a ==> rank(e.0.kind) <= rank(
                found[k].0.kind,
            )),
{
    let k0 = choose|k: int| 0 <= k < found.len() && (#[trigger] found[k]).0.addr@ == a;
    lemma_merged_keeps_best_kind(found, k0);
    lemma_merged_kind_was_found(found, a);
    let e = lookup(merged(found), a).unwrap();
    assert forall|k: int| 0 <= k < found.len() && (#[trigger] found[k]).0.addr@ == a implies rank(
        e.0.kind,
    ) <= rank(found[k].0.kind) by {
        lemma_merged_keeps_best_kind(found, k);
    }
}

/// A real name wins over a bare IP address: once a finding for an address has a
/// non-empty name that is not an IP address, the merged device keeps such a name.
pub proof fn lemma_merged_prefers_real_name(found: Seq<(Device, bool)>, k: int)
    requires
        0 <= k < found.len(),
        found[k].0.addr@.len() > 0,
        found[k].0.name@.len() > 0,
        !found[k].1,
    ensures
        lookup(merged(found), found[k].0.addr@) matches Some(e) && e.0.name@.len() > 0 && !e.1,
    decreases found.len(),
{
    let init = found.drop_last();
    let d = found.last().0;
    let a = found[k].0.addr@;
    lemma_merged_invariants(init);
    let t = merged(init);
    if k < found.len() - 1 {
        assert(init[k] == found[k]);
        lemma_merged_prefers_real_name(init, k);
    }
    if d.addr@.len() > 0 {
        let v = merge_entry(lookup(t, d.addr@), d, found.last().1);
        lemma_lookup_after_upsert(t, d.addr@, v, a);
    }
}

/// Looking up after storing: the new value under its key, the old one elsewhere.
pub proof fn lemma_lookup_after_upsert<V>(t: Seq<(Seq<char>, V)>, k: Seq<char>, v: V, q: Seq<char>)
    ensures
        lookup(upsert(t, k, v), q) == if q == k {
            Some(v)
        } else {
            lookup(t, q)
        },
    decreases t.len(),
{
    let u = upsert(t, k, v);
    if t.len() == 0 {
        assert(u == seq![(k, v)]);
        assert(u[0] == (k, v));
        assert(u.drop_first() =~= Seq::<(Seq<char>, V)>::empty());
        assert(lookup(u, q) == if q == k { Some(v) } else { lookup(t, q) });
    } else if t[0].0 == k {
        assert(u[0] == (k, v));
        assert(u.drop_first() == t.drop_first());
        assert(lookup(u, q) == if q == k { Some(v) } else { lookup(t, q) });
    } else if text_lt(k, t[0].0) {
        assert(u[0] == (k, v));
        assert(u.drop_first() == t);
        assert(lookup(u, q) == if q == k { Some(v) } else { lookup(t, q) });
    } else {
        let r = t.drop_first();
        lemma_lookup_after_upsert(r, k, v, q);
        assert(u[0] == t[0]);
        assert(u.drop_first() == upsert(r, k, v));
        assert(lookup(u, q) == if q == k { Some(v) } else { lookup(t, q) });
    }
}

/// The indices of the devices still labelled by their bare IP address, to be
/// named by a NetBIOS node-status query. The flags say, per device, whether its
/// name parses as an IP address.
pub fn unnamed_devices(name_is_addr: &Vec<bool>) -> (r: Vec<usize>)
    ensures
        forall|j: int| 0 <= j < r@.len() ==> #[trigger] r@[j] < name_is_addr@.len() && name_is_addr@[r@[j] as int],
        forall|i: int| 0 <= i < name_is_addr@.len() && name_is_addr@[i] ==> r@.contains(i as usize),
        forall|a: int, b: int| 0 <= a < b < r@.len() ==> r@[a] < r@[b],
{
    let mut out: Vec<usize> = Vec::new();
    let mut i: usize = 0;
    while i < name_is_addr.len()
        invariant
            i <= name_is_addr@.len(),
            forall|j: int| 0 <= j < out@.len() ==> #[trigger] out@[j] < i && name_is_addr@[out@[j] as int],
            forall|k: int| 0 <= k < i && name_is_addr@[k] ==> out@.contains(k as usize),
            forall|a: int, b: int| 0 <= a < b < out@.len() ==> out@[a] < out@[b],
        decreases name_is_addr@.len() - i,
    {
        if name_is_addr[i] {
            let ghost prev = out@;
            out.push(i);
            proof {
                assert(out@[out@.len() - 1] == i);
                assert forall|k: int| 0 <= k < i + 1 && name_is_addr@[k] implies out@.contains(
                    k as usize,
                ) by {
                    if k == i {
                        assert(out@[out@.len() - 1] == k as usize);
                    } else {
                        let w = choose|w: int| 0 <= w < prev.len() && prev[w] == k as usize;
                        assert(out@[w] == prev[w]);
                    }
                }
            }
        }
        i = i + 1;
    }
    out
}

// ---------------------------------------------------------------------------
// Kinds of DNS-SD services
// ---------------------------------------------------------------------------

/// The kind a raw DNS-SD service type (such as `_smb._tcp`) stands for.
pub open spec fn service_kind(service_type: Seq<char>) -> DeviceKind {
    let s = lower(service_type);
    if has_infix(s, "smb"@) || has_infix(s, "_ssh."@) || has_infix(s, "sftp"@) || has_infix(
        s,
        "afp"@,
    ) || has_infix(s, "nfs"@) || has_infix(s, "workstation"@) {
        DeviceKind::Computer
    } else if has_infix(s, "scanner"@) || has_infix(s, "uscan"@) {
        DeviceKind::Scanner
    } else if has_infix(s, "printer"@) || has_infix(s, "ipp"@) || has_infix(s, "pdl"@) {
        DeviceKind::Printer
    } else {
        DeviceKind::Other
    }
}

/// What a service type's keywords make of a device, whatever the case it is
/// written in: file sharing, remote login or a workstation announcement make a
/// computer; otherwise scanning makes a scanner; otherwise printing makes a
/// printer; anything else is other.
pub proof fn lemma_service_keywords(t: Seq<char>)
    ensures
        has_infix(lower(t), "smb"@) ==> service_kind(t) == DeviceKind::Computer,
        has_infix(lower(t), "_ssh."@) ==> service_kind(t) == DeviceKind::Computer,
        has_infix(lower(t), "sftp"@) ==> service_kind(t) == DeviceKind::Computer,
        has_infix(lower(t), "afp"@) ==> service_kind(t) == DeviceKind::Computer,
        has_infix(lower(t), "nfs"@) ==> service_kind(t) == DeviceKind::Computer,
        has_infix(lower(t), "workstation"@) ==> service_kind(t) == DeviceKind::Computer,
        !has_infix(lower(t), "smb"@) && !has_infix(lower(t), "_ssh."@) && !has_infix(lower(t), "sftp"@) && !has_infix(lower(t), "afp"@) && !has_infix(lower(t), "nfs"@) && !has_infix(lower(t), "workstation"@) && has_infix(lower(t), "scanner"@) ==> service_kind(t) == DeviceKind::Scanner,
        !has_infix(lower(t), "smb"@) && !has_infix(lower(t), "_ssh."@) && !has_infix(lower(t), "sftp"@) && !has_infix(lower(t), "afp"@) && !has_infix(lower(t), "nfs"@) && !has_infix(lower(t), "workstation"@) && has_infix(lower(t), "uscan"@) ==> service_kind(t) == DeviceKind::Scanner,
        !has_infix(lower(t), "smb"@) && !has_infix(lower(t), "_ssh."@) && !has_infix(lower(t), "sftp"@) && !has_infix(lower(t), "afp"@) && !has_infix(lower(t), "nfs"@) && !has_infix(lower(t), "workstation"@) && !has_infix(lower(t), "scanner"@) && !has_infix(lower(t), "uscan"@) && has_infix(lower(t), "printer"@) ==> service_kind(t) == DeviceKind::Printer,
        !has_infix(lower(t), "smb"@) && !has_infix(lower(t), "_ssh."@) && !has_infix(lower(t), "sftp"@) && !has_infix(lower(t), "afp"@) && !has_infix(lower(t), "nfs"@) && !has_infix(lower(t), "workstation"@) && !has_infix(lower(t), "scanner"@) && !has_infix(lower(t), "uscan"@) && has_infix(lower(t), "ipp"@) ==> service_kind(t) == DeviceKind::Printer,
        !has_infix(lower(t), "smb"@) && !has_infix(lower(t), "_ssh."@) && !has_infix(lower(t), "sftp"@) && !has_infix(lower(t), "afp"@) && !has_infix(lower(t), "nfs"@) && !has_infix(lower(t), "workstation"@) && !has_infix(lower(t), "scanner"@) && !has_infix(lower(t), "uscan"@) && has_infix(lower(t), "pdl"@) ==> service_kind(t) == DeviceKind::Printer,
        !has_infix(lower(t), "smb"@) && !has_infix(lower(t), "_ssh."@) && !has_infix(lower(t), "sftp"@) && !has_infix(lower(t), "afp"@) && !has_infix(lower(t), "nfs"@) && !has_infix(lower(t), "workstation"@) && !has_infix(lower(t), "scanner"@) && !has_infix(lower(t), "uscan"@) && !has_infix(lower(t), "printer"@) && !has_infix(lower(t), "ipp"@) && !has_infix(lower(t), "pdl"@) ==> service_kind(t) == DeviceKind::Other,
{
}

/// Letter case does not matter to the kind of a service.
pub proof fn lemma_service_kind_ignores_case(t: Seq<char>)
    ensures
        service_kind(lower(t)) == service_kind(t),
{
    assert(lower(lower(t)) =~= lower(t)) by {
        assert forall|i: int| 0 <= i < t.len() implies lower_char(lower_char(t[i])) == lower_char(t[i]) by {
        }
    }
}

/// Classify a *raw* DNS-SD service type (avahi-browse is run with `-k`, so field 4
/// is e.g. `_smb._tcp`, not the human-readable description).
pub fn kind_for_service(service_type: &str) -> (r: DeviceKind)
    ensures
        r == service_kind(service_type@),
{
    let s = to_lower(&chars_of(service_type));
    if str_has_infix(&s, "smb") || str_has_infix(&s, "_ssh.") || str_has_infix(&s, "sftp")
        || str_has_infix(&s, "afp") || str_has_infix(&s, "nfs") || str_has_infix(&s, "workstation") {
        DeviceKind::Computer
    } else if str_has_infix(&s, "scanner") || str_has_infix(&s, "uscan") {
        DeviceKind::Scanner
    } else if str_has_infix(&s, "printer") || str_has_infix(&s, "ipp") || str_has_infix(&s, "pdl") {
        DeviceKind::Printer
    } else {
        DeviceKind::Other
    }
}

// ---------------------------------------------------------------------------
// mDNS / DNS-SD via avahi-browse
// ---------------------------------------------------------------------------

pub open spec fn is_digit(c: char) -> bool {
    '0' <= c && c <= '9'
}

pub open spec fn digit_value(c: char) -> nat {
    (c as u32 - '0' as u32) as nat
}

/// The number three decimal digits spell.
pub open spec fn three_digits(a: char, b: char, c: char) -> nat {
    digit_value(a) * 100 + digit_value(b) * 10 + digit_value(c)
}

/// The bytes an avahi `-p` field stands for: `\NNN` (three decimal digits, at
/// most 255) is that byte, `\` before any other character is that character, a
/// trailing `\` is dropped, and every other character is its UTF-8 encoding.
pub open spec fn unescaped_bytes(s: Seq<char>) -> Seq<u8>
    decreases s.len(),
{
    if s.len() == 0 {
        seq![]
    } else if s[0] != '\\' {
        encode_utf8(seq![s[0]]) + unescaped_bytes(s.drop_first())
    } else if s.len() >= 4 && is_digit(s[1]) && is_digit(s[2]) && is_digit(s[3]) && three_digits(
        s[1],
        s[2],
        s[3],
    ) <= 255 {
        seq![three_digits(s[1], s[2], s[3]) as u8] + unescaped_bytes(s.skip(4))
    } else if s.len() >= 2 {
        encode_utf8(seq![s[1]]) + unescaped_bytes(s.skip(2))
    } else {
        seq![]
    }
}

/// A field without escapes stands for its own UTF-8 bytes.
pub proof fn lemma_unescaped_plain_text(s: Seq<char>)
    requires
        !s.contains('\\'),
    ensures
        unescaped_bytes(s) == encode_utf8(s),
    decreases s.len(),
{
    if s.len() > 0 {
        assert(s[0] != '\\') by {
            assert(s[0] == s[0]);
        }
        let r = s.drop_first();
        assert(!r.contains('\\')) by {
            if r.contains('\\') {
                let i = choose|i: int| 0 <= i < r.len() && r[i] == '\\';
                assert(s[i + 1] == '\\');
            }
        }
        lemma_unescaped_plain_text(r);
        let one = seq![s[0]];
        assert(one.drop_first() =~= Seq::<char>::empty());
        assert(one[0] == s[0]);
        assert(encode_utf8(one.drop_first()) =~= Seq::<u8>::empty());
        assert(encode_utf8(one) =~= encode_scalar(s[0] as u32));
    }
}

fn is_digit_exec(c: char) -> (r: bool)
    ensures
        r == is_digit(c),
{
    '0' <= c && c <= '9'
}

fn append_bytes(out: &mut Vec<u8>, b: Vec<u8>)
    ensures
        final(out)@ == old(out)@ + b@,
{
    let mut i: usize = 0;
    while i < b.len()
        invariant
            i <= b@.len(),
            out@ == old(out)@ + b@.take(i as int),
        decreases b@.len() - i,
    {
        out.push(b[i]);
        proof {
            assert(b@.take(i + 1) == b@.take(i as int).push(b@[i as int]));
        }
        i = i + 1;
    }
    proof {
        assert(b@.take(b@.len() as int) == b@);
    }
}

/// Unescape avahi's `-p` field encoding. Avahi escapes each raw byte >= 0x7f (and a
/// few specials) as `\NNN` decimal, and literal chars as `\<char>`. The raw
/// bytes are reassembled and decoded as UTF-8 once at the end, so that a name in
/// Cyrillic, accented or CJK letters comes back whole.
pub fn unescape_avahi(field: &str) -> (r: String)
    ensures
        r@ == utf8_lossy(unescaped_bytes(field@)),
{
    let s = chars_of(field);
    let mut out: Vec<u8> = Vec::new();
    let mut i: usize = 0;
    proof {
        assert(s@.skip(0) == s@);
    }
    while i < s.len()
        invariant
            i <= s@.len(),
            unescaped_bytes(s@) == out@ + unescaped_bytes(s@.skip(i as int)),
        decreases s@.len() - i,
    {
        let ghost t = s@.skip(i as int);
        let c = s[i];
        if c != '\\' {
            append_bytes(&mut out, utf8_of_char(c));
            proof {
                assert(t.drop_first() == s@.skip(i + 1));
            }
            i = i + 1;
        } else if s.len() - i > 3 && is_digit_exec(s[i + 1]) && is_digit_exec(s[i + 2])
            && is_digit_exec(s[i + 3]) && (s[i + 1] as u32 - '0' as u32) * 100 + (s[i + 2] as u32
            - '0' as u32) * 10 + (s[i + 3] as u32 - '0' as u32) <= 255 {
            let v: u32 = (s[i + 1] as u32 - '0' as u32) * 100 + (s[i + 2] as u32 - '0' as u32) * 10
                + (s[i + 3] as u32 - '0' as u32);
            out.push(v as u8);
            proof {
                assert(t[1] == s@[i + 1]);
                assert(t[2] == s@[i + 2]);
                assert(t[3] == s@[i + 3]);
                assert(t.skip(4) == s@.skip(i + 4));
                assert(seq![v as u8] == seq![three_digits(t[1], t[2], t[3]) as u8]);
            }
            i = i + 4;
        } else if s.len() - i > 1 {
            append_bytes(&mut out, utf8_of_char(s[i + 1]));
            proof {
                assert(t[1] == s@[i + 1]);
                assert(t.skip(2) == s@.skip(i + 2));
                if t.len() >= 4 && is_digit(t[1]) && is_digit(t[2]) && is_digit(t[3]) {
                    assert(t[2] == s@[i + 2]);
                    assert(t[3] == s@[i + 3]);
                }
            }
            i = i + 2;
        } else {
            proof {
                assert(t.len() == 1);
                assert(s@.skip(i + 1).len() == 0);
            }
            i = i + 1;
        }
    }
    proof {
        assert(out@ + Seq::<u8>::empty() == out@);
    }
    lossy_string(out.as_slice())
}

/// One resolved IPv4 service record of `avahi-browse -p` output.
#[derive(Clone, Debug)]
pub struct AvahiRecord {
    /// The service's instance name, unescaped.
    pub name: String,
    /// The raw DNS-SD service type.
    pub service_type: String,
    /// The host name, without its trailing dots.
    pub host: String,
    /// The address as avahi printed it.
    pub addr: String,
}

/// The fields a line of `avahi-browse -a -t -r -p -k` output yields, in the order
/// name, service type, host, address: only resolved records (starting with `=`) of
/// at least nine `;`-separated fields, for IPv4, with a host name.
/// `=;iface;proto;name;type;domain;host;addr;port;txt...`
pub open spec fn avahi_fields(line: Seq<char>) -> Option<(Seq<char>, Seq<char>, Seq<char>, Seq<char>)> {
    let f = split_on(line, ';');
    let host = trim_end_by(f[6], char_pred('.'));
    if line.len() == 0 || line[0] != '=' || f.len() < 9 || f[2] != "IPv4"@ || host.len() == 0 {
        None
    } else {
        Some((utf8_lossy(unescaped_bytes(f[3])), f[4], host, f[7]))
    }
}

/// The records of the given lines, in order.
pub open spec fn avahi_records(lines: Seq<Seq<char>>) -> Seq<(Seq<char>, Seq<char>, Seq<char>, Seq<char>)>
    decreases lines.len(),
{
    if lines.len() == 0 {
        seq![]
    } else {
        let init = avahi_records(lines.drop_last());
        match avahi_fields(lines.last()) {
            Some(r) => init.push(r),
            None => init,
        }
    }
}

pub open spec fn record_view(r: AvahiRecord) -> (Seq<char>, Seq<char>, Seq<char>, Seq<char>) {
    (r.name@, r.service_type@, r.host@, r.addr@)
}

/// Reads one line of `avahi-browse -p` output.
pub fn parse_avahi_line(line: &Vec<char>) -> (r: Option<AvahiRecord>)
    ensures
        match avahi_fields(line@) {
            None => r is None,
            Some(f) => r matches Some(rec) && record_view(rec) == f,
        },
{
    let fields = split_char(line, ';');
    let ghost f = split_on(line@, ';');
    if line.len() == 0 || line[0] != '=' || fields.len() < 9 {
        return None;
    }
    proof {
        assert(views(fields@)[2] == fields@[2]@);
        assert(views(fields@)[3] == fields@[3]@);
        assert(views(fields@)[4] == fields@[4]@);
        assert(views(fields@)[6] == fields@[6]@);
        assert(views(fields@)[7] == fields@[7]@);
    }
    let ipv4 = chars_of("IPv4");
    if !chars_eq(&fields[2], &ipv4) {
        return None;
    }
    let host = trim_end_char(&fields[6], '.');
    if host.len() == 0 {
        return None;
    }
    let name = unescape_avahi(string_of(fields[3].as_slice()).as_str());
    Some(AvahiRecord {
        name,
        service_type: string_of(fields[4].as_slice()),
        host: string_of(host.as_slice()),
        addr: string_of(fields[7].as_slice()),
    })
}

/// Reads the standard output of `avahi-browse -a -t -r -p -k`: the resolved IPv4
/// records, in the order they were printed. Whether an address is routable is
/// left to the caller.
pub fn parse_avahi_output(stdout: &[u8]) -> (r: Vec<AvahiRecord>)
    ensures
        r@.map_values(|x: AvahiRecord| record_view(x)) == avahi_records(lines_of(utf8_lossy(stdout@))),
{
    let text = lossy_string(stdout);
    let lines = lines_chars(&chars_of(text.as_str()));
    let ghost ls = lines_of(utf8_lossy(stdout@));
    let mut out: Vec<AvahiRecord> = Vec::new();
    let mut i: usize = 0;
    while i < lines.len()
        invariant
            i <= lines@.len(),
            views(lines@) == ls,
            out@.map_values(|x: AvahiRecord| record_view(x)) == avahi_records(ls.take(i as int)),
        decreases lines@.len() - i,
    {
        proof {
            assert(ls.take(i + 1).drop_last() == ls.take(i as int));
            assert(ls.take(i + 1).last() == lines@[i as int]@);
        }
        match parse_avahi_line(&lines[i]) {
            Some(rec) => {
                out.push(rec);
                proof {
                    assert(out@.map_values(|x: AvahiRecord| record_view(x)) =~= out@.drop_last().map_values(
                        |x: AvahiRecord| record_view(x),
                    ).push(record_view(rec)));
                }
            },
            None => {},
        }
        i = i + 1;
    }
    proof {
        assert(ls.take(lines@.len() as int) == ls);
    }
    out
}

/// The entry for a host after one more of its records: the first record gives
/// the name and address; a higher-priority service upgrades the kind and, if it
/// has one, the name; an empty name or address is filled in.
pub open spec fn host_entry(existing: Option<(String, String, DeviceKind)>, r: AvahiRecord) -> (
    String,
    String,
    DeviceKind,
) {
    let kind = service_kind(r.service_type@);
    let e0 = match existing {
        None => (r.name, r.addr, DeviceKind::Other),
        Some(e) => e,
    };
    let e1 = if rank(kind) < rank(e0.2) {
        (if r.name@.len() > 0 {
            r.name
        } else {
            e0.0
        }, e0.1, kind)
    } else {
        e0
    };
    let e2 = if e1.0@.len() == 0 {
        (r.name, e1.1, e1.2)
    } else {
        e1
    };
    if e2.1@.len() == 0 {
        (e2.0, r.addr, e2.2)
    } else {
        e2
    }
}

/// The hosts, keyed by host name, after folding in the records in order.
pub open spec fn avahi_hosts(recs: Seq<AvahiRecord>) -> Seq<(Seq<char>, (String, String, DeviceKind))>
    decreases recs.len(),
{
    if recs.len() == 0 {
        seq![]
    } else {
        let t = avahi_hosts(recs.drop_last());
        let r = recs.last();
        upsert(t, r.host@, host_entry(lookup(t, r.host@), r))
    }
}

pub open spec fn host_device(e: (Seq<char>, (String, String, DeviceKind))) -> Device {
    Device { name: e.1.0, addr: e.1.1, kind: e.1.2 }
}

pub proof fn lemma_avahi_hosts_sorted(recs: Seq<AvahiRecord>)
    ensures
        sorted(avahi_hosts(recs)),
    decreases recs.len(),
{
    if recs.len() > 0 {
        lemma_avahi_hosts_sorted(recs.drop_last());
        let t = avahi_hosts(recs.drop_last());
        let r = recs.last();
        lemma_upsert_sorted(t, r.host@, host_entry(lookup(t, r.host@), r));
    }
}

fn host_entry_exec(existing: Option<&(String, String, DeviceKind)>, r: &AvahiRecord) -> (e: (
    String,
    String,
    DeviceKind,
))
    ensures
        e == host_entry(
            match existing {
                Some(x) => Some(*x),
                None => None,
            },
            *r,
        ),
{
    let kind = kind_for_service(r.service_type.as_str());
    let e0 = match existing {
        None => (r.name.clone(), r.addr.clone(), DeviceKind::Other),
        Some(x) => (x.0.clone(), x.1.clone(), x.2),
    };
    let e1 = if kind_rank(kind) < kind_rank(e0.2) {
        (if !r.name.as_str().is_empty() {
            r.name.clone()
        } else {
            e0.0
        }, e0.1, kind)
    } else {
        e0
    };
    let e2 = if e1.0.as_str().is_empty() {
        (r.name.clone(), e1.1, e1.2)
    } else {
        e1
    };
    if e2.1.as_str().is_empty() {
        (e2.0, r.addr.clone(), e2.2)
    } else {
        e2
    }
}

/// Folds the (routable) records into one device per host, in ascending order of
/// host name.
pub fn fold_avahi(records: &Vec<AvahiRecord>) -> (r: Vec<Device>)
    ensures
        r@ == avahi_hosts(records@).map_values(|e: (Seq<char>, (String, String, DeviceKind))| host_device(e)),
{
    let mut table: KeyedTable<(String, String, DeviceKind)> = KeyedTable::new();
    let mut i: usize = 0;
    while i < records.len()
        invariant
            i <= records@.len(),
            table@ == avahi_hosts(records@.take(i as int)),
        decreases records@.len() - i,
    {
        let r = &records[i];
        proof {
            assert(records@.take(i + 1).drop_last() == records@.take(i as int));
            assert(records@.take(i + 1).last() == records@[i as int]);
        }
        let key = chars_of(r.host.as_str());
        let e = host_entry_exec(table.get(&key), r);
        table.set(key, e);
        i = i + 1;
    }
    proof {
        assert(records@.take(records@.len() as int) == records@);
    }
    let ghost tv = table@;
    let vals = table.into_values();
    let mut out: Vec<Device> = Vec::new();
    let mut vals = vals;
    let mut back: Vec<(String, String, DeviceKind)> = Vec::new();
    let ghost vs = vals@;
    while vals.len() > 0
        invariant
            vals@.len() + back@.len() == vs.len(),
            forall|j: int| 0 <= j < vals@.len() ==> #[trigger] vals@[j] == vs[j],
            forall|j: int| 0 <= j < back@.len() ==> #[trigger] back@[j] == vs[vs.len() - 1 - j],
        decreases vals@.len(),
    {
        let x = vals.pop().unwrap();
        back.push(x);
    }
    while back.len() > 0
        invariant
            out@.len() + back@.len() == vs.len(),
            forall|j: int| 0 <= j < back@.len() ==> #[trigger] back@[j] == vs[vs.len() - 1 - j],
            forall|j: int|
                0 <= j < out@.len() ==> #[trigger] out@[j] == (Device {
                    name: vs[j].0,
                    addr: vs[j].1,
                    kind: vs[j].2,
                }),
        decreases back@.len(),
    {
        let x = back.pop().unwrap();
        out.push(Device { name: x.0, addr: x.1, kind: x.2 });
    }
    proof {
        assert(out@ =~= tv.map_values(|e: (Seq<char>, (String, String, DeviceKind))| host_device(e)));
    }
    out
}

// ---------------------------------------------------------------------------
// NetBIOS node status
// ---------------------------------------------------------------------------

/// NetBIOS first-level encoding: each byte becomes two, `A` plus each nibble.
pub open spec fn first_level(raw: Seq<u8>) -> Seq<u8>
    decreases raw.len(),
{
    if raw.len() == 0 {
        seq![]
    } else {
        seq![(0x41u8 + (raw[0] >> 4u8)) as u8, (0x41u8 + (raw[0] & 0x0fu8)) as u8] + first_level(
            raw.drop_first(),
        )
    }
}

/// The wildcard name `*` padded with NUL bytes to 16.
pub open spec fn wildcard_name() -> Seq<u8> {
    seq![0x2au8] + Seq::new(15, |_i: int| 0u8)
}

/// A NetBIOS node-status (NBSTAT) query: header (transaction id 0x1337, flags 0,
/// one question), the encoded wildcard name, and type NBSTAT / class IN.
pub open spec fn nbstat_query() -> Seq<u8> {
    seq![0x13u8, 0x37, 0x00, 0x00, 0x00, 0x01, 0x00, 0x00, 0x00, 0x00, 0x00, 0x00] + seq![0x20u8]
        + first_level(wildcard_name()) + seq![0x00u8] + seq![0x00u8, 0x21, 0x00, 0x01]
}

pub proof fn lemma_first_level_len(raw: Seq<u8>)
    ensures
        first_level(raw).len() == 2 * raw.len(),
    decreases raw.len(),
{
    if raw.len() > 0 {
        lemma_first_level_len(raw.drop_first());
    }
}

fn push_bytes(out: &mut Vec<u8>, bs: &[u8])
    ensures
        final(out)@ == old(out)@ + bs@,
{
    let mut i: usize = 0;
    while i < bs.len()
        invariant
            i <= bs@.len(),
            out@ == old(out)@ + bs@.take(i as int),
        decreases bs@.len() - i,
    {
        out.push(bs[i]);
        proof {
            assert(bs@.take(i + 1) == bs@.take(i as int).push(bs@[i as int]));
        }
        i = i + 1;
    }
    proof {
        assert(bs@.take(bs@.len() as int) == bs@);
    }
}

/// The NetBIOS node-status query for a host's computer name, sent to UDP port 137.
pub fn netbios_query() -> (r: Vec<u8>)
    ensures
        r@ == nbstat_query(),
        r@.len() == 50,
{
    let mut query: Vec<u8> = Vec::new();
    push_bytes(&mut query, &[0x13u8, 0x37, 0x00, 0x00, 0x00, 0x01, 0x00, 0x00, 0x00, 0x00, 0x00, 0x00]);
    query.push(0x20u8);
    let ghost before = query@;
    let mut raw: Vec<u8> = Vec::new();
    raw.push(0x2au8);
    let mut z: usize = 0;
    while z < 15
        invariant
            z <= 15,
            raw@ == seq![0x2au8] + Seq::new(z as nat, |_i: int| 0u8),
        decreases 15 - z,
    {
        raw.push(0u8);
        proof {
            assert(raw@ =~= seq![0x2au8] + Seq::new((z + 1) as nat, |_i: int| 0u8));
        }
        z = z + 1;
    }
    let mut i: usize = 0;
    proof {
        assert(raw@ == wildcard_name());
        assert(raw@.take(0) =~= Seq::<u8>::empty());
        assert(query@ =~= before + first_level(raw@.take(0)));
    }
    while i < raw.len()
        invariant
            i <= raw@.len(),
            raw@ == wildcard_name(),
            query@ == before + first_level(raw@.take(i as int)),
        decreases raw@.len() - i,
    {
        let b = raw[i];
        assert(b >> 4u8 <= 15) by (bit_vector);
        assert(b & 0x0fu8 <= 15) by (bit_vector);
        query.push(0x41u8 + (b >> 4u8));
        query.push(0x41u8 + (b & 0x0fu8));
        proof {
            lemma_first_level_split(raw@.take(i + 1), i as int);
            assert(raw@.take(i + 1).take(i as int) == raw@.take(i as int));
            assert(raw@.take(i + 1).skip(i as int) =~= seq![b]);
            assert(seq![b].drop_first() =~= Seq::<u8>::empty());
            assert(first_level(seq![b].drop_first()) =~= Seq::<u8>::empty());
            assert(first_level(seq![b]) =~= seq![(0x41u8 + (b >> 4u8)) as u8, (0x41u8 + (b & 0x0fu8)) as u8]);
        }
        i = i + 1;
    }
    proof {
        assert(raw@.take(raw@.len() as int) == raw@);
    }
    query.push(0x00u8);
    push_bytes(&mut query, &[0x00u8, 0x21, 0x00, 0x01]);
    proof {
        lemma_first_level_len(wildcard_name());
        assert(query@ =~= nbstat_query());
    }
    query
}

/// `first_level(a + b) == first_level(a) + first_level(b)`, split at `k`.
proof fn lemma_first_level_split(raw: Seq<u8>, k: int)
    requires
        0 <= k <= raw.len(),
    ensures
        first_level(raw) == first_level(raw.take(k)) + first_level(raw.skip(k)),
    decreases k,
{
    if k == 0 {
        assert(raw.skip(0) == raw);
        assert(first_level(raw.take(0)) =~= Seq::<u8>::empty());
        assert(Seq::<u8>::empty() + first_level(raw) =~= first_level(raw));
    } else {
        let t = raw.drop_first();
        lemma_first_level_split(t, k - 1);
        assert(t.take(k - 1) == raw.take(k).drop_first());
        assert(t.skip(k - 1) == raw.skip(k));
        assert(raw.take(k)[0] == raw[0]);
    }
}

/// The type/class marker `00 21 00 01` (NBSTAT / IN) stands at `i`.
pub open spec fn is_marker(d: Seq<u8>, i: int) -> bool {
    0 <= i && i + 4 <= d.len() && d[i] == 0x00 && d[i + 1] == 0x21 && d[i + 2] == 0x00 && d[i + 3]
        == 0x01
}

/// The computer name an 18-byte name-table entry at `p` gives: a unique (non-group)
/// name with suffix 0x00, trimmed, if that leaves something.
pub open spec fn entry_name(d: Seq<u8>, p: int) -> Option<Seq<char>> {
    if (d[p + 16] & 0x80u8) == 0 && d[p + 15] == 0 {
        let n = trim(utf8_lossy(d.subrange(p, p + 15)));
        if n.len() > 0 {
            Some(n)
        } else {
            None
        }
    } else {
        None
    }
}

/// The first computer name among `count` entries from `p` on.
pub open spec fn first_entry_name(d: Seq<u8>, p: int, count: nat) -> Option<Seq<char>>
    decreases count,
{
    if count == 0 {
        None
    } else {
        match entry_name(d, p) {
            Some(n) => Some(n),
            None => first_entry_name(d, p + 18, (count - 1) as nat),
        }
    }
}

/// The computer name in the name table that follows the marker at `pos` (after
/// type and class, TTL and RDLENGTH): the table must announce 1 to 100 names, all
/// within the data.
pub open spec fn marker_name(d: Seq<u8>, pos: int) -> Option<Seq<char>> {
    let rd = pos + 10;
    if rd >= d.len() {
        None
    } else {
        let num = d[rd] as nat;
        if num == 0 || num > 100 || rd + 1 + 18 * num > d.len() {
            None
        } else {
            first_entry_name(d, rd + 1, num)
        }
    }
}

/// The name read from the first marker, from `i` on, whose table yields one.
pub open spec fn nbstat_name_from(d: Seq<u8>, i: int) -> Option<Seq<char>>
    decreases d.len() - i,
{
    if i < 0 || i + 4 > d.len() {
        None
    } else if is_marker(d, i) && marker_name(d, i) is Some {
        marker_name(d, i)
    } else {
        nbstat_name_from(d, i + 1)
    }
}

/// The computer name a node-status answer gives.
pub open spec fn nbstat_name(d: Seq<u8>) -> Option<Seq<char>> {
    nbstat_name_from(d, 0)
}

fn entry_name_exec(d: &[u8], p: usize) -> (r: Option<String>)
    requires
        p + 18 <= d@.len(),
    ensures
        match entry_name(d@, p as int) {
            None => r is None,
            Some(n) => r matches Some(s) && s@ == n,
        },
{
    let len = d.len();
    if (d[p + 16] & 0x80u8) == 0 && d[p + 15] == 0 {
        let mut bytes: Vec<u8> = Vec::new();
        let mut k: usize = p;
        while k < p + 15
            invariant
                p <= k <= p + 15,
                p + 18 <= d@.len(),
                len == d@.len(),
                bytes@ == d@.subrange(p as int, k as int),
            decreases p + 15 - k,
        {
            bytes.push(d[k]);
            proof {
                assert(d@.subrange(p as int, k + 1) == d@.subrange(p as int, k as int).push(d@[k as int]));
            }
            k = k + 1;
        }
        let name = trim_chars(&chars_of(lossy_string(bytes.as_slice()).as_str()));
        if name.len() > 0 {
            Some(string_of(name.as_slice()))
        } else {
            None
        }
    } else {
        None
    }
}

fn marker_name_exec(d: &[u8], pos: usize) -> (r: Option<String>)
    requires
        pos + 4 <= d@.len(),
    ensures
        match marker_name(d@, pos as int) {
            None => r is None,
            Some(n) => r matches Some(s) && s@ == n,
        },
{
    let len = d.len();
    if len - pos <= 10 {
        return None;
    }
    let rd = pos + 10;
    let num = d[rd] as usize;
    if num == 0 || num > 100 || len - rd - 1 < 18 * num {
        return None;
    }
    let mut p = rd + 1;
    let mut j: usize = 0;
    proof {
        assert(marker_name(d@, pos as int) == first_entry_name(d@, rd + 1, num as nat));
    }
    while j < num
        invariant
            j <= num <= 100,
            len == d@.len(),
            rd + 1 + 18 * num <= d@.len(),
            marker_name(d@, pos as int) == first_entry_name(d@, rd + 1, num as nat),
            p == rd + 1 + 18 * j,
            first_entry_name(d@, rd + 1, num as nat) == first_entry_name(d@, p as int, (num - j) as nat),
        decreases num - j,
    {
        match entry_name_exec(d, p) {
            Some(n) => {
                return Some(n);
            },
            None => {},
        }
        p = p + 18;
        j = j + 1;
    }
    None
}

/// Reads the answer to a NetBIOS node-status query for the host's computer name.
/// The marker `00 21 00 01` appears in both the echoed question and the answer
/// record; each position is tried, and the first that yields a valid name table
/// with a computer name wins.
pub fn netbios_name(data: &[u8]) -> (r: Option<String>)
    ensures
        match nbstat_name(data@) {
            None => r is None,
            Some(n) => r matches Some(s) && s@ == n,
        },
{
    let len = data.len();
    if len < 4 {
        return None;
    }
    let mut i: usize = 0;
    while i <= len - 4
        invariant
            len == data@.len(),
            len >= 4,
            i <= len - 3,
            nbstat_name(data@) == nbstat_name_from(data@, i as int),
        decreases len - 3 - i,
    {
        if data[i] == 0x00 && data[i + 1] == 0x21 && data[i + 2] == 0x00 && data[i + 3] == 0x01 {
            match marker_name_exec(data, i) {
                Some(n) => {
                    return Some(n);
                },
                None => {},
            }
        }
        i = i + 1;
    }
    None
}

} // verus!
