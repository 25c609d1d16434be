//! `wyd ports`: one entry per listening port — the process on it and what
//! started it. The origin is the owning agent session from durable
//! provenance, or the system source (systemd/launchd/cron/tmux/ssh/…) when no
//! session owns it.

use crate::classify::pids;
use crate::classify::pids::find_first;
use crate::model::boot::BootId;
use crate::model::port::ListeningPort;
use crate::model::process::{ProcessIdentity, ProcessInfo};
use crate::model::session::RuntimeSessionId;
use crate::source;
use crate::source::detect;
use crate::text;
use crate::text::{before, dec_of, join_of, text_has};
use vstd::prelude::*;

verus! {

/// The session that owns a process, as the store recorded it.
#[derive(Debug, Clone)]
pub struct OwnerFact {
    pub identity: ProcessIdentity,
    pub agent: String,
    pub session: RuntimeSessionId,
    pub ended: bool,
}

/// Resolved provenance for owner attribution. Absent when the store or boot
/// identity is unavailable — then only the system source is reported.
#[derive(Debug, Clone)]
pub struct Provenance {
    pub boot: BootId,
    pub owners: Vec<OwnerFact>,
}

/// One listening port with its owning process and origin.
///
/// `owner_*` are present together when an agent session owns the listener;
/// `source` is present otherwise and names the system source. `process` is
/// absent when the pid is not in the current process snapshot.
#[derive(Debug, Clone)]
pub struct PortEntry {
    pub address: String,
    pub port: u16,
    pub pid: u32,
    pub process: Option<String>,
    pub owner_agent: Option<String>,
    pub owner_session: Option<String>,
    pub owner_state: Option<String>,
    pub source: Option<String>,
}

/// The same as a model.
pub struct EntryModel {
    pub address: Seq<char>,
    pub port: u16,
    pub pid: u32,
    pub process: Option<Seq<char>>,
    pub owner_agent: Option<Seq<char>>,
    pub owner_session: Option<Seq<char>>,
    pub owner_state: Option<Seq<char>>,
    pub source: Option<Seq<char>>,
}

impl View for PortEntry {
    type V = EntryModel;

    open spec fn view(&self) -> EntryModel {
        EntryModel {
            address: self.address@,
            port: self.port,
            pid: self.pid,
            process: text::text_of(self.process),
            owner_agent: text::text_of(self.owner_agent),
            owner_session: text::text_of(self.owner_session),
            owner_state: text::text_of(self.owner_state),
            source: text::text_of(self.source),
        }
    }
}

pub open spec fn entries_of(v: Seq<PortEntry>) -> Seq<EntryModel> {
    Seq::new(v.len(), |i: int| v[i]@)
}

/// The first owner recorded for an identity.
pub open spec fn owner_of(owners: Seq<OwnerFact>, id: ProcessIdentity) -> Option<OwnerFact>
    decreases owners.len(),
{
    if owners.len() == 0 {
        None
    } else if owners[0].identity == id {
        Some(owners[0])
    } else {
        owner_of(owners.skip(1), id)
    }
}

/// The owner of the process that listens, where its identity is known and on
/// record.
pub open spec fn port_owner(
    port: ListeningPort,
    ps: Seq<ProcessInfo>,
    prov: Option<Provenance>,
) -> Option<OwnerFact> {
    match (prov, pids::first_by_pid(ps, port.pid)) {
        (Some(v), Some(p)) => match ProcessIdentity::of(v.boot, p) {
            Some(id) => owner_of(v.owners@, id),
            None => None,
        },
        _ => None,
    }
}

/// The entry of a listening port.
pub open spec fn port_entry(
    port: ListeningPort,
    ps: Seq<ProcessInfo>,
    prov: Option<Provenance>,
    cgroups: Seq<(u32, String)>,
) -> EntryModel {
    let owner = port_owner(port, ps, prov);
    EntryModel {
        address: port.address.spelled(),
        port: port.port,
        pid: port.pid,
        process: match pids::first_by_pid(ps, port.pid) {
            Some(p) => Some(p.name@),
            None => None,
        },
        owner_agent: match owner {
            Some(o) => Some(o.agent@),
            None => None,
        },
        owner_session: match owner {
            Some(o) => Some(text::hex_fixed(o.session@ as nat, 16)),
            None => None,
        },
        owner_state: match owner {
            Some(o) => Some(
                if o.ended {
                    "ended"@
                } else {
                    "active"@
                },
            ),
            None => None,
        },
        source: match owner {
            Some(_) => None,
            None => Some(source::source_of(ps, port.pid, cgroups).label()),
        },
    }
}

/// Whether an entry may stand before another: by port, then by address.
pub open spec fn in_order(a: EntryModel, b: EntryModel) -> bool {
    a.port < b.port || (a.port == b.port && !text::precedes(b.address, a.address))
}

/// Inserts by port and address, behind equal ones.
pub open spec fn entry_insert(s: Seq<EntryModel>, e: EntryModel) -> Seq<EntryModel>
    decreases s.len(),
{
    if s.len() == 0 || in_order(s.last(), e) {
        s.push(e)
    } else {
        entry_insert(s.drop_last(), e).push(s.last())
    }
}

/// One entry per port, sorted by port then address; equal ones keep their
/// order.
pub open spec fn port_entries(
    ports: Seq<ListeningPort>,
    ps: Seq<ProcessInfo>,
    prov: Option<Provenance>,
    cgroups: Seq<(u32, String)>,
) -> Seq<EntryModel>
    decreases ports.len(),
{
    if ports.len() == 0 {
        Seq::empty()
    } else {
        entry_insert(
            port_entries(ports.drop_last(), ps, prov, cgroups),
            port_entry(ports.last(), ps, prov, cgroups),
        )
    }
}

pub open spec fn sorted(s: Seq<EntryModel>) -> bool {
    forall|i: int, j: int| 0 <= i < j < s.len() ==> in_order(#[trigger] s[i], #[trigger] s[j])
}

proof fn in_order_transitive(a: EntryModel, b: EntryModel, c: EntryModel)
    requires
        in_order(a, b),
        in_order(b, c),
    ensures
        in_order(a, c),
{
    if a.port == b.port && b.port == c.port && text::precedes(c.address, a.address) {
        text::precedes_total(a.address, b.address);
        if text::precedes(a.address, b.address) {
            text::precedes_transitive(c.address, a.address, b.address);
        }
    }
}

proof fn in_order_total(a: EntryModel, b: EntryModel)
    requires
        !in_order(a, b),
    ensures
        in_order(b, a),
{
    if a.port == b.port && text::precedes(a.address, b.address) {
        text::precedes_transitive(a.address, b.address, a.address);
        text::precedes_irreflexive(a.address);
    }
}

proof fn insert_keeps_sorted(s: Seq<EntryModel>, e: EntryModel)
    requires
        sorted(s),
    ensures
        sorted(entry_insert(s, e)),
        entry_insert(s, e).len() == s.len() + 1,
        forall|x: EntryModel| #[trigger]
            entry_insert(s, e).contains(x) ==> x == e || s.contains(x),
    decreases s.len(),
{
    let r = entry_insert(s, e);
    if s.len() == 0 || in_order(s.last(), e) {
        assert forall|i: int, j: int| 0 <= i < j < r.len() implies in_order(
            #[trigger] r[i],
            #[trigger] r[j],
        ) by {
            if j == s.len() && i < s.len() - 1 {
                assert(in_order(s[i], s[s.len() - 1]));
                in_order_transitive(s[i], s.last(), e);
            }
        }
        assert forall|x: EntryModel| #[trigger] r.contains(x) implies x == e || s.contains(x) by {
            let k = choose|k: int| 0 <= k < r.len() && r[k] == x;
            if k < s.len() {
                assert(s[k] == x);
            }
        }
    } else {
        let front = s.drop_last();
        insert_keeps_sorted(front, e);
        let f = entry_insert(front, e);
        in_order_total(s.last(), e);
        assert forall|i: int, j: int| 0 <= i < j < r.len() implies in_order(
            #[trigger] r[i],
            #[trigger] r[j],
        ) by {
            if j < f.len() {
                assert(in_order(f[i], f[j]));
            } else {
                assert(f.contains(f[i]));
                if f[i] != e {
                    let k = choose|k: int| 0 <= k < front.len() && front[k] == f[i];
                    assert(in_order(s[k], s[s.len() - 1]));
                }
            }
        }
        assert forall|x: EntryModel| #[trigger] r.contains(x) implies x == e || s.contains(x) by {
            let k = choose|k: int| 0 <= k < r.len() && r[k] == x;
            if k < f.len() {
                assert(f.contains(x));
                if x != e {
                    let i = choose|i: int| 0 <= i < front.len() && front[i] == x;
                    assert(s[i] == x);
                }
            } else {
                assert(s[s.len() - 1] == x);
            }
        }
    }
}

proof fn insert_loses_nothing(s: Seq<EntryModel>, e: EntryModel, x: EntryModel)
    requires
        x == e || s.contains(x),
    ensures
        entry_insert(s, e).contains(x),
    decreases s.len(),
{
    let r = entry_insert(s, e);
    if s.len() == 0 || in_order(s.last(), e) {
        if x == e {
            assert(r[s.len() as int] == x);
        } else {
            let k = choose|k: int| 0 <= k < s.len() && s[k] == x;
            assert(r[k] == x);
        }
    } else {
        let front = s.drop_last();
        let f = entry_insert(front, e);
        if x == e || front.contains(x) {
            insert_loses_nothing(front, e, x);
            let k = choose|k: int| 0 <= k < f.len() && f[k] == x;
            assert(r[k] == x);
        } else {
            let k = choose|k: int| 0 <= k < s.len() && s[k] == x;
            assert(k == s.len() - 1) by {
                if k < s.len() - 1 {
                    assert(front[k] == x);
                }
            }
            assert(r[f.len() as int] == x);
        }
    }
}

proof fn port_has_its_entry(
    ports: Seq<ListeningPort>,
    ps: Seq<ProcessInfo>,
    prov: Option<Provenance>,
    cgroups: Seq<(u32, String)>,
    i: int,
)
    requires
        0 <= i < ports.len(),
    ensures
        port_entries(ports, ps, prov, cgroups).contains(port_entry(ports[i], ps, prov, cgroups)),
    decreases ports.len(),
{
    let front = ports.drop_last();
    let e = port_entry(ports[i], ps, prov, cgroups);
    if i < front.len() {
        port_has_its_entry(front, ps, prov, cgroups, i);
        assert(front[i] == ports[i]);
    }
    insert_loses_nothing(
        port_entries(front, ps, prov, cgroups),
        port_entry(ports.last(), ps, prov, cgroups),
        e,
    );
}

proof fn first_owner_is_found(owners: Seq<OwnerFact>, id: ProcessIdentity)
    ensures
        match owner_of(owners, id) {
            Some(o) => exists|k: int|
                0 <= k < owners.len() && #[trigger] owners[k] == o && o.identity == id && forall|
                    j: int,
                |
                    0 <= j < k ==> (#[trigger] owners[j]).identity != id,
            None => forall|j: int| 0 <= j < owners.len() ==> (#[trigger] owners[j]).identity != id,
        },
    decreases owners.len(),
{
    if owners.len() > 0 {
        let rest = owners.skip(1);
        if owners[0].identity == id {
            assert(owners[0] == owners[0]);
        } else {
            first_owner_is_found(rest, id);
            match owner_of(owners, id) {
                Some(o) => {
                    let k = choose|k: int|
                        0 <= k < rest.len() && #[trigger] rest[k] == o && o.identity == id
                            && forall|j: int| 0 <= j < k ==> (#[trigger] rest[j]).identity != id;
                    assert(owners[k + 1] == o);
                    assert forall|j: int| 0 <= j < k + 1 implies (#[trigger] owners[j]).identity
                        != id by {
                        if j > 0 {
                            assert(rest[j - 1] == owners[j]);
                        }
                    }
                },
                None => {
                    assert forall|j: int| 0 <= j < owners.len() implies (
                    #[trigger] owners[j]).identity != id by {
                        if j > 0 {
                            assert(rest[j - 1] == owners[j]);
                        }
                    }
                },
            }
        }
    }
}

/// Every listening port has an entry with its number, its pid and the name of
/// the process on it. Where the store knows an owner of that very process, by
/// boot, pid and start time, the entry names its agent, its session and
/// whether it has ended; otherwise it names no owner but a source.
pub proof fn every_listener_has_its_entry(
    ports: Seq<ListeningPort>,
    ps: Seq<ProcessInfo>,
    prov: Option<Provenance>,
    cgroups: Seq<(u32, String)>,
    i: int,
    p: int,
)
    requires
        0 <= i < ports.len(),
        0 <= p < ps.len(),
        ps[p].pid == ports[i].pid,
        forall|j: int| 0 <= j < p ==> (#[trigger] ps[j]).pid != ps[p].pid,
    ensures
        exists|k: int|
            0 <= k < port_entries(ports, ps, prov, cgroups).len() && {
                let e = #[trigger] port_entries(ports, ps, prov, cgroups)[k];
                let known = prov is Some && ps[p].start_time != 0;
                &&& e.port == ports[i].port
                &&& e.pid == ports[i].pid
                &&& e.process == Some(ps[p].name@)
                &&& e.address == ports[i].address.spelled()
                &&& e.owner_agent is Some <==> e.source is None
                &&& e.owner_agent is Some <==> known && exists|o: int|
                    0 <= o < prov->0.owners@.len() && (#[trigger] prov->0.owners@[o]).identity
                        == (ProcessIdentity {
                        boot_id: prov->0.boot,
                        pid: ps[p].pid,
                        start_time: ps[p].start_time,
                    })
                &&& e.owner_agent is Some ==> exists|o: int|
                    0 <= o < prov->0.owners@.len() && {
                        let owner = #[trigger] prov->0.owners@[o];
                        &&& owner.identity.pid == ps[p].pid
                        &&& owner.identity.start_time == ps[p].start_time
                        &&& e.owner_agent == Some(owner.agent@)
                        &&& e.owner_session == Some(text::hex_fixed(owner.session@ as nat, 16))
                        &&& e.owner_state == Some(
                            if owner.ended {
                                "ended"@
                            } else {
                                "active"@
                            },
                        )
                    }
            },
{
    let port = ports[i];
    port_has_its_entry(ports, ps, prov, cgroups, i);
    let all = port_entries(ports, ps, prov, cgroups);
    let e = port_entry(port, ps, prov, cgroups);
    let k = choose|k: int| 0 <= k < all.len() && all[k] == e;
    pids::first_index_range(ps, port.pid);
    let f = pids::first_index(ps, port.pid)->0;
    assert(f == p) by {
        if f < p {
            assert(ps[f].pid != ps[p].pid);
        }
    }
    if prov is Some && ps[p].start_time != 0 {
        let id = ProcessIdentity {
            boot_id: prov->0.boot,
            pid: ps[p].pid,
            start_time: ps[p].start_time,
        };
        first_owner_is_found(prov->0.owners@, id);
        if e.owner_agent is Some {
            let o = owner_of(prov->0.owners@, id)->0;
            let n = choose|n: int|
                0 <= n < prov->0.owners@.len() && #[trigger] prov->0.owners@[n] == o && o.identity
                    == id && forall|j: int|
                    0 <= j < n ==> (#[trigger] prov->0.owners@[j]).identity != id;
            assert(prov->0.owners@[n].identity == id);
        }
    }
    assert(all[k] == e);
}

/// Every port is listed once, in the order of ports and then of addresses,
/// and each entry names either an owner or a system source, never both.
pub proof fn listing_is_sorted_and_complete(
    ports: Seq<ListeningPort>,
    ps: Seq<ProcessInfo>,
    prov: Option<Provenance>,
    cgroups: Seq<(u32, String)>,
)
    ensures
        port_entries(ports, ps, prov, cgroups).len() == ports.len(),
        sorted(port_entries(ports, ps, prov, cgroups)),
        forall|i: int|
            0 <= i < ports.len() ==> ((#[trigger] port_entries(
                ports,
                ps,
                prov,
                cgroups,
            )[i]).owner_agent is Some <==> port_entries(ports, ps, prov, cgroups)[i].source is None),
    decreases ports.len(),
{
    if ports.len() > 0 {
        let front = ports.drop_last();
        listing_is_sorted_and_complete(front, ps, prov, cgroups);
        let rest = port_entries(front, ps, prov, cgroups);
        let e = port_entry(ports.last(), ps, prov, cgroups);
        insert_keeps_sorted(rest, e);
        let all = port_entries(ports, ps, prov, cgroups);
        assert forall|i: int| 0 <= i < ports.len() implies ((#[trigger] all[i]).owner_agent is Some
            <==> all[i].source is None) by {
            assert(all.contains(all[i]));
            if all[i] != e {
                let k = choose|k: int| 0 <= k < rest.len() && rest[k] == all[i];
                assert((rest[k].owner_agent is Some) <==> (rest[k].source is None));
            }
        }
    }
}

fn find_owner<'a>(owners: &'a Vec<OwnerFact>, id: &ProcessIdentity) -> (r: Option<&'a OwnerFact>)
    ensures
        match r {
            Some(o) => owner_of(owners@, *id) == Some(*o),
            None => owner_of(owners@, *id) is None,
        },
{
    let mut i: usize = 0;
    assert(owners@.skip(0) =~= owners@);
    while i < owners.len()
        invariant
            i <= owners.len(),
            owner_of(owners@, *id) == owner_of(owners@.skip(i as int), *id),
        decreases owners.len() - i,
    {
        assert(owners@.skip(i as int)[0] == owners@[i as int]);
        assert(owners@.skip(i as int).skip(1) =~= owners@.skip(i + 1));
        if owners[i].identity == *id {
            return Some(&owners[i]);
        }
        i += 1;
    }
    None
}

fn entry(
    port: &ListeningPort,
    processes: &Vec<ProcessInfo>,
    prov: &Option<Provenance>,
    cgroups: &Vec<(u32, String)>,
) -> (r: PortEntry)
    ensures
        r@ == port_entry(*port, processes@, *prov, cgroups@),
{
    let mut e: PortEntry = PortEntry {
        address: port.address.spell(),
        port: port.port,
        pid: port.pid,
        process: None,
        owner_agent: None,
        owner_session: None,
        owner_state: None,
        source: None,
    };
    proof {
        pids::first_index_range(processes@, port.pid);
    }
    if let Some(k) = find_first(processes, port.pid) {
        e.process = Some(processes[k].name.clone());
        if let Some(v) = prov {
            if let Some(id) = ProcessIdentity::from_process(&v.boot, &processes[k]) {
                if let Some(o) = find_owner(&v.owners, &id) {
                    e.owner_agent = Some(o.agent.clone());
                    e.owner_session = Some(o.session.to_text());
                    e.owner_state = Some(
                        (if o.ended {
                            "ended"
                        } else {
                            "active"
                        }).to_owned(),
                    );
                    return e;
                }
            }
        }
    }
    e.source = Some(detect(port.pid, processes, cgroups).source.label());
    e
}

fn comes_before(a: &PortEntry, b: &PortEntry) -> (r: bool)
    ensures
        r == in_order(a@, b@),
{
    a.port < b.port || (a.port == b.port && !before(b.address.as_str(), a.address.as_str()))
}

/// One entry per port, sorted by port then address for stable output.
/// `cgroups` holds the cgroup texts of the listeners and their ancestors
/// where they could be read.
pub fn collect(
    ports: &Vec<ListeningPort>,
    processes: &Vec<ProcessInfo>,
    prov: &Option<Provenance>,
    cgroups: &Vec<(u32, String)>,
) -> (r: Vec<PortEntry>)
    ensures
        entries_of(r@) == port_entries(ports@, processes@, *prov, cgroups@),
{
    let mut r: Vec<PortEntry> = Vec::new();
    let mut i: usize = 0;
    assert(ports@.take(0) =~= Seq::<ListeningPort>::empty());
    assert(entries_of(r@) =~= Seq::<EntryModel>::empty());
    while i < ports.len()
        invariant
            i <= ports.len(),
            entries_of(r@) == port_entries(ports@.take(i as int), processes@, *prov, cgroups@),
        decreases ports.len() - i,
    {
        assert(ports@.take(i + 1).drop_last() =~= ports@.take(i as int));
        let e: PortEntry = entry(&ports[i], processes, prov, cgroups);
        let ghost m = e@;
        let ghost s = entries_of(r@);
        let mut k: usize = r.len();
        assert(s.take(k as int) =~= s);
        assert(s.skip(k as int) =~= Seq::<EntryModel>::empty());
        assert(entry_insert(s, m) =~= entry_insert(s.take(k as int), m) + s.skip(k as int));
        while k > 0 && !comes_before(&r[k - 1], &e)
            invariant
                k <= r.len(),
                s == entries_of(r@),
                m == e@,
                entry_insert(s, m) == entry_insert(s.take(k as int), m) + s.skip(k as int),
            decreases k,
        {
            let ghost t = s.take(k as int);
            assert(t.drop_last() =~= s.take(k - 1));
            assert(t.last() == s[k - 1]);
            assert(entry_insert(t, m) + s.skip(k as int) =~= entry_insert(s.take(k - 1), m)
                + s.skip(k - 1));
            k -= 1;
        }
        let ghost t = s.take(k as int);
        if k > 0 {
            assert(t.last() == s[k - 1]);
        }
        assert(entry_insert(t, m) == t.push(m));
        r.insert(k, e);
        assert(entries_of(r@) =~= t.push(m) + s.skip(k as int));
        i += 1;
    }
    assert(ports@.take(ports@.len() as int) =~= ports@);
    r
}

/// `[::1]` for IPv6, `127.0.0.1` otherwise — so `addr:port` stays readable.
pub open spec fn shown_address(address: Seq<char>) -> Seq<char> {
    if text::contains(address, ":"@) {
        "["@ + address + "]"@
    } else {
        address
    }
}

/// One line: address and port, process, origin.
pub open spec fn plain_line(e: EntryModel) -> Seq<char> {
    shown_address(e.address) + ":"@ + text::dec(e.port as nat) + "  "@ + (match e.process {
        Some(n) => n + " ("@ + text::dec(e.pid as nat) + ")"@,
        None => "pid "@ + text::dec(e.pid as nat),
    }) + "  "@ + (match (e.owner_agent, e.owner_state) {
        (Some(a), Some(st)) => "session "@ + a + " ("@ + st + ")"@,
        _ => match e.source {
            Some(s) => s,
            None => "unknown"@,
        },
    })
}

pub open spec fn plain_lines(entries: Seq<EntryModel>) -> Seq<Seq<char>> {
    Seq::new(entries.len(), |i: int| plain_line(entries[i]))
}

fn display_addr(address: &str) -> (r: String)
    ensures
        r@ == shown_address(address@),
{
    if text_has(address, ":") {
        "[".to_owned().concat(address).concat("]")
    } else {
        address.to_owned()
    }
}

fn line_of(e: &PortEntry) -> (r: String)
    ensures
        r@ == plain_line(e@),
{
    let proc: String = match &e.process {
        Some(n) => n.clone().concat(" (").concat(dec_of(e.pid as u64).as_str()).concat(")"),
        None => "pid ".to_owned().concat(dec_of(e.pid as u64).as_str()),
    };
    let who: String = match (&e.owner_agent, &e.owner_state) {
        (Some(a), Some(st)) => "session ".to_owned().concat(a.as_str()).concat(" (").concat(
            st.as_str(),
        ).concat(")"),
        _ => match &e.source {
            Some(s) => s.clone(),
            None => "unknown".to_owned(),
        },
    };
    display_addr(e.address.as_str()).concat(":").concat(dec_of(e.port as u64).as_str()).concat(
        "  ",
    ).concat(proc.as_str()).concat("  ").concat(who.as_str())
}

/// One line per port: `address:port  process (pid)  origin`.
pub fn render_plain(entries: &Vec<PortEntry>) -> (r: String)
    ensures
        r@ == if entries@.len() == 0 {
            "none"@
        } else {
            text::joined(plain_lines(entries_of(entries@)), "\n"@)
        },
{
    if entries.len() == 0 {
        return "none".to_owned();
    }
    let mut lines: Vec<String> = Vec::new();
    let mut i: usize = 0;
    while i < entries.len()
        invariant
            i <= entries.len(),
            lines@.len() == i,
            forall|k: int| 0 <= k < i ==> (#[trigger] lines@[k])@ == plain_line(entries@[k]@),
        decreases entries.len() - i,
    {
        lines.push(line_of(&entries[i]));
        i += 1;
    }
    assert(text::texts(lines@) =~= plain_lines(entries_of(entries@)));
    join_of(&lines, "\n")
}

} // verus!
