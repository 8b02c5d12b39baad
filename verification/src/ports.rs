//! The TCP ports that processes on this machine listen on.

use crate::error::{Error, PortDetectionError};
use crate::listing::{listing_owners, parse_listing};
use crate::port::Port;
use crate::table::{decode_table, table_listeners, unattributed, TableLayout};
use vstd::prelude::*;

verus! {

/// A port that some process listens on, with what is known of the process.
#[derive(Debug, Clone, PartialEq, Eq)]
pub struct ListeningPort {
    /// The port.
    pub port: Port,
    /// The id of the process that owns the socket, where it could be found.
    pub pid: Option<i32>,
    /// The name of that process, where it could be found.
    pub process_name: Option<String>,
}

/// A listening port as plain values.
pub struct ListeningPortView {
    pub port: u16,
    pub pid: Option<i32>,
    pub process_name: Option<Seq<char>>,
}

impl View for ListeningPort {
    type V = ListeningPortView;

    open spec fn view(&self) -> ListeningPortView {
        ListeningPortView {
            port: self.port.number(),
            pid: self.pid,
            process_name: match self.process_name {
                Some(name) => Some(name@),
                None => None,
            },
        }
    }
}

/// `listening[k]` is the first entry for `port`.
pub open spec fn is_first_listener(listening: Seq<ListeningPort>, port: u16, k: int) -> bool {
    &&& 0 <= k < listening.len()
    &&& listening[k].port.number() == port
    &&& forall|i: int| 0 <= i < k ==> (#[trigger] listening[i]).port.number() != port
}

/// The numbers of the ports in `listening`.
pub open spec fn live_numbers(listening: Seq<ListeningPort>) -> Set<u16> {
    Set::new(
        |n: u16|
            exists|i: int|
                0 <= i < listening.len() && (#[trigger] listening[i]).port.number() == n,
    )
}

/// The position of the first entry for `port`, if there is one.
pub fn find_listener(listening: &[ListeningPort], port: Port) -> (r: Option<usize>)
    ensures
        match r {
            Some(k) => is_first_listener(listening@, port.number(), k as int),
            None => !live_numbers(listening@).contains(port.number()),
        },
        r is Some <==> live_numbers(listening@).contains(port.number()),
{
    let mut k: usize = 0;
    while k < listening.len()
        invariant
            k <= listening@.len(),
            forall|i: int| 0 <= i < k ==> (#[trigger] listening@[i]).port.number() != port.number(),
        decreases listening@.len() - k,
    {
        if listening[k].port.as_u16() == port.as_u16() {
            return Some(k);
        }
        k += 1;
    }
    None
}

/// Whether `port` is among the listening ports.
pub fn is_port_in_use(port: u16, listening: &[ListeningPort]) -> (b: bool)
    ensures
        b == live_numbers(listening@).contains(port),
{
    let mut k: usize = 0;
    while k < listening.len()
        invariant
            k <= listening@.len(),
            forall|i: int| 0 <= i < k ==> (#[trigger] listening@[i]).port.number() != port,
        decreases listening@.len() - k,
    {
        if listening[k].port.as_u16() == port {
            return true;
        }
        k += 1;
    }
    false
}

/// What is known of the process behind a listening port: its id and name.
pub type Owner = (Option<i32>, Option<Seq<char>>);

/// The entries of `list` are in strictly ascending port order.
pub open spec fn ports_ascending(list: Seq<ListeningPort>) -> bool {
    forall|i: int, j: int|
        0 <= i < j < list.len() ==> (#[trigger] list[i]).port.number() < (
        #[trigger] list[j]).port.number()
}

/// `list` holds one entry for each port of `owners`, with that port's owner,
/// in ascending port order.
pub open spec fn is_port_table(list: Seq<ListeningPort>, owners: Map<u16, Owner>) -> bool {
    &&& ports_ascending(list)
    &&& forall|i: int|
        0 <= i < list.len() ==> owners.contains_key((#[trigger] list[i]).port.number())
            && owners[list[i].port.number()] == (list[i]@.pid, list[i]@.process_name)
    &&& forall|n: u16| #[trigger]
        owners.contains_key(n) ==> exists|i: int|
            0 <= i < list.len() && (#[trigger] list[i]).port.number() == n
}

/// `owners` with `owner` recorded for `port`, unless the port has one already.
pub open spec fn first_owner_wins(owners: Map<u16, Owner>, port: u16, owner: Owner) -> Map<
    u16,
    Owner,
> {
    if owners.contains_key(port) {
        owners
    } else {
        owners.insert(port, owner)
    }
}

/// An optional name as its characters.
pub open spec fn text_view(name: Option<String>) -> Option<Seq<char>> {
    match name {
        Some(text) => Some(text@),
        None => None,
    }
}

/// Finds `port` in a list in ascending port order, by bisection: the position
/// of its entry, or else the position where it would go.
fn locate_port(list: &Vec<ListeningPort>, port: u16) -> (r: (bool, usize))
    requires
        ports_ascending(list@),
    ensures
        r.1 <= list@.len(),
        r.0 ==> r.1 < list@.len() && list@[r.1 as int].port.number() == port,
        !r.0 ==> forall|i: int| 0 <= i < r.1 ==> (#[trigger] list@[i]).port.number() < port,
        !r.0 ==> forall|i: int|
            r.1 <= i < list@.len() ==> port < (#[trigger] list@[i]).port.number(),
{
    let mut lo: usize = 0;
    let mut hi: usize = list.len();
    while lo < hi
        invariant
            lo <= hi <= list@.len(),
            ports_ascending(list@),
            forall|i: int| 0 <= i < lo ==> (#[trigger] list@[i]).port.number() < port,
            forall|i: int| hi <= i < list@.len() ==> port < (#[trigger] list@[i]).port.number(),
        decreases hi - lo,
    {
        let mid = lo + (hi - lo) / 2;
        let here = list[mid].port.as_u16();
        if here == port {
            return (true, mid);
        } else if here < port {
            lo = mid + 1;
        } else {
            hi = mid;
        }
    }
    (false, lo)
}

/// Records a listening port with its owner in a table, unless the table has
/// the port already.
pub fn record_listener(
    list: &mut Vec<ListeningPort>,
    port: Port,
    pid: Option<i32>,
    process_name: Option<String>,
)
    requires
        ports_ascending(old(list)@),
    ensures
        ports_ascending(final(list)@),
        forall|owners: Map<u16, Owner>|
            is_port_table(old(list)@, owners) ==> is_port_table(
                final(list)@,
                first_owner_wins(owners, port.number(), (pid, text_view(process_name))),
            ),
{
    let (found, at) = locate_port(list, port.as_u16());
    let ghost before = list@;
    let ghost owner = (pid, text_view(process_name));
    if !found {
        let entry = ListeningPort { port, pid, process_name };
        list.insert(at, entry);
        proof {
            let after = list@;
            assert forall|i: int, j: int| 0 <= i < j < after.len() implies (
            #[trigger] after[i]).port.number() < (#[trigger] after[j]).port.number() by {
                if i < at && j > at {
                    assert(after[i] == before[i] && after[j] == before[j - 1]);
                } else if i < at && j < at {
                    assert(after[i] == before[i] && after[j] == before[j]);
                } else if i > at {
                    assert(after[i] == before[i - 1] && after[j] == before[j - 1]);
                } else if i == at {
                    assert(after[j] == before[j - 1]);
                } else {
                    assert(after[i] == before[i]);
                }
            }
            assert forall|owners: Map<u16, Owner>|
                is_port_table(before, owners) implies is_port_table(
                after,
                first_owner_wins(owners, port.number(), owner),
            ) by {
                assert(!owners.contains_key(port.number())) by {
                    if owners.contains_key(port.number()) {
                        let k = choose|k: int|
                            0 <= k < before.len() && (#[trigger] before[k]).port.number()
                                == port.number();
                        assert(before[k].port.number() != port.number());
                    }
                }
                let grown = owners.insert(port.number(), owner);
                assert forall|i: int| 0 <= i < after.len() implies grown.contains_key(
                    (#[trigger] after[i]).port.number(),
                ) && grown[after[i].port.number()] == (after[i]@.pid, after[i]@.process_name) by {
                    if i < at {
                        assert(after[i] == before[i]);
                    } else if i > at {
                        assert(after[i] == before[i - 1]);
                    }
                }
                assert forall|n: u16| #[trigger] grown.contains_key(n) implies exists|i: int|
                    0 <= i < after.len() && (#[trigger] after[i]).port.number() == n by {
                    if n == port.number() {
                        assert(after[at as int].port.number() == n);
                    } else {
                        let k = choose|k: int|
                            0 <= k < before.len() && (#[trigger] before[k]).port.number() == n;
                        if k < at {
                            assert(after[k] == before[k]);
                        } else {
                            assert(after[k + 1] == before[k]);
                        }
                    }
                }
            }
        }
    } else {
        proof {
            assert forall|owners: Map<u16, Owner>|
                is_port_table(before, owners) implies is_port_table(
                before,
                first_owner_wins(owners, port.number(), owner),
            ) by {
                assert(owners.contains_key(before[at as int].port.number()));
            }
        }
    }
}

/// What came of reading the system's table of TCP control blocks.
#[derive(Debug, Clone, PartialEq, Eq)]
pub enum TableRead {
    /// This platform has no such table.
    Unavailable,
    /// The system refused to hand the table out, for the reason given.
    Failed(String),
    /// The bytes of the table.
    Read(Vec<u8>),
}

/// What came of running the socket-listing utility.
#[derive(Debug, Clone, PartialEq, Eq)]
pub enum ListingRun {
    /// This platform has no such utility.
    Unavailable,
    /// The utility could not be started, for the reason given.
    NotStarted(String),
    /// The utility ran and reported failure.
    Failed,
    /// What the utility wrote.
    Output(String),
}

/// Each port of `ports` with the owner that `known` has for it, if any.
pub open spec fn attributed(ports: Set<u16>, known: Map<u16, Owner>) -> Map<u16, Owner> {
    Map::new(
        |n: u16| ports.contains(n),
        |n: u16|
            if known.contains_key(n) {
                known[n]
            } else {
                (None::<i32>, None::<Seq<char>>)
            },
    )
}

/// The ports that the table gives, none where it was not read.
pub open spec fn decoded_ports(table: TableRead, layout: TableLayout) -> Set<u16> {
    match table {
        TableRead::Read(bytes) => table_listeners(bytes@, layout),
        _ => Set::empty(),
    }
}

/// The owners that the listing gives, none where there is no output.
pub open spec fn listed_owners(listing: ListingRun) -> Map<u16, Owner> {
    match listing {
        ListingRun::Output(text) => listing_owners(text@),
        _ => Map::empty(),
    }
}

/// Whether `r` is what the table and the listing together say of the
/// listening ports.
///
/// Where the table gives ports, they are the answer, each with the owner that
/// the listing has for it. Where it gives none, the listing answers in its
/// place: with what it found, or with nothing if the utility reported
/// failure. With no listing to fall back on, a table that was read answers
/// with nothing; a table that could not be read is an error, and so is a
/// utility that could not be started where there is no table. A platform with
/// neither is not supported.
pub open spec fn is_detection_outcome(
    table: TableRead,
    listing: ListingRun,
    layout: TableLayout,
    r: Result<Vec<ListeningPort>, Error>,
) -> bool {
    let decoded = decoded_ports(table, layout);
    if decoded != Set::<u16>::empty() {
        r matches Ok(list) && is_port_table(list@, attributed(decoded, listed_owners(listing)))
    } else {
        match listing {
            ListingRun::Output(text) => r matches Ok(list) && is_port_table(
                list@,
                listing_owners(text@),
            ),
            ListingRun::Failed => r matches Ok(list) && list@.len() == 0,
            ListingRun::NotStarted(reason) => match table {
                TableRead::Read(_) => r matches Ok(list) && list@.len() == 0,
                TableRead::Failed(why) => r matches Err(
                    Error::PortDetection(PortDetectionError::ProcessEnumFailed(m)),
                ) && m@ == why@,
                TableRead::Unavailable => r matches Err(
                    Error::PortDetection(PortDetectionError::ProcessEnumFailed(m)),
                ) && m@ == reason@,
            },
            ListingRun::Unavailable => match table {
                TableRead::Read(_) => r matches Ok(list) && list@.len() == 0,
                TableRead::Failed(why) => r matches Err(
                    Error::PortDetection(PortDetectionError::ProcessEnumFailed(m)),
                ) && m@ == why@,
                TableRead::Unavailable => r == Err::<Vec<ListeningPort>, Error>(
                    Error::PortDetection(PortDetectionError::PlatformNotSupported),
                ),
            },
        }
    }
}

/// A table of ports is empty exactly if it is the table of no port.
pub proof fn lemma_empty_port_table(list: Seq<ListeningPort>, owners: Map<u16, Owner>)
    requires
        is_port_table(list, owners),
    ensures
        list.len() == 0 <==> owners == Map::<u16, Owner>::empty(),
        list.len() == 0 <==> owners.dom() == Set::<u16>::empty(),
{
    if list.len() == 0 {
        assert forall|n: u16| !owners.contains_key(n) by {
            if owners.contains_key(n) {
                let i = choose|i: int|
                    0 <= i < list.len() && (#[trigger] list[i]).port.number() == n;
            }
        }
        assert(owners =~= Map::<u16, Owner>::empty());
        assert(owners.dom() =~= Set::<u16>::empty());
    } else {
        assert(owners.contains_key(list[0].port.number()));
        assert(owners.dom().contains(list[0].port.number()));
    }
}

/// Gives each port of `decoded` the owner that `listed` has for it.
pub fn attribute(decoded: &Vec<ListeningPort>, listed: &Vec<ListeningPort>) -> (list: Vec<
    ListeningPort,
>)
    requires
        ports_ascending(decoded@),
        ports_ascending(listed@),
    ensures
        forall|ports: Set<u16>, known: Map<u16, Owner>|
            is_port_table(decoded@, unattributed(ports)) && is_port_table(listed@, known)
                ==> is_port_table(list@, attributed(ports, known)),
{
    let mut list: Vec<ListeningPort> = Vec::new();
    let mut i: usize = 0;
    while i < decoded.len()
        invariant
            i <= decoded@.len(),
            list@.len() == i,
            ports_ascending(decoded@),
            ports_ascending(listed@),
            forall|k: int|
                0 <= k < i ==> (#[trigger] list@[k]).port == decoded@[k].port && (
                live_numbers(listed@).contains(list@[k].port.number()) ==> exists|q: int|
                    0 <= q < listed@.len() && (#[trigger] listed@[q]).port == list@[k].port
                        && listed@[q].pid == list@[k].pid && listed@[q].process_name
                        == list@[k].process_name) && (!live_numbers(listed@).contains(
                    list@[k].port.number(),
                ) ==> list@[k].pid is None && list@[k].process_name is None),
        decreases decoded@.len() - i,
    {
        let port = decoded[i].port;
        let (found, at) = locate_port(listed, port.as_u16());
        let ghost before = list@;
        if found {
            let known = &listed[at];
            proof {
                Port::lemma_same_number(known.port, port);
            }
            list.push(
                ListeningPort {
                    port,
                    pid: known.pid,
                    process_name: match &known.process_name {
                        Some(text) => Some(text.clone()),
                        None => None,
                    },
                },
            );
        } else {
            list.push(ListeningPort { port, pid: None, process_name: None });
        }
        proof {
            assert forall|k: int| 0 <= k < i implies list@[k] == before[k] by {}
        }
        i += 1;
    }
    proof {
        assert forall|ports: Set<u16>, known: Map<u16, Owner>|
            is_port_table(decoded@, unattributed(ports)) && is_port_table(
                listed@,
                known,
            ) implies is_port_table(list@, attributed(ports, known)) by {
            let target = attributed(ports, known);
            assert forall|a: int, b: int| 0 <= a < b < list@.len() implies (
            #[trigger] list@[a]).port.number() < (#[trigger] list@[b]).port.number() by {
                assert(decoded@[a].port.number() < decoded@[b].port.number());
            }
            assert forall|k: int| 0 <= k < list@.len() implies target.contains_key(
                (#[trigger] list@[k]).port.number(),
            ) && target[list@[k].port.number()] == (list@[k]@.pid, list@[k]@.process_name) by {
                let n = list@[k].port.number();
                assert(unattributed(ports).contains_key(decoded@[k].port.number()));
                if known.contains_key(n) {
                    let q0 = choose|q: int|
                        0 <= q < listed@.len() && (#[trigger] listed@[q]).port.number() == n;
                    assert(live_numbers(listed@).contains(n));
                    let q = choose|q: int|
                        0 <= q < listed@.len() && (#[trigger] listed@[q]).port == list@[k].port
                            && listed@[q].pid == list@[k].pid && listed@[q].process_name
                            == list@[k].process_name;
                    assert(known[listed@[q].port.number()] == (
                        listed@[q]@.pid,
                        listed@[q]@.process_name,
                    ));
                } else {
                    if live_numbers(listed@).contains(n) {
                        let q = choose|q: int|
                            0 <= q < listed@.len() && (#[trigger] listed@[q]).port.number() == n;
                        assert(known.contains_key(listed@[q].port.number()));
                    }
                }
            }
            assert forall|n: u16| #[trigger] target.contains_key(n) implies exists|k: int|
                0 <= k < list@.len() && (#[trigger] list@[k]).port.number() == n by {
                assert(unattributed(ports).contains_key(n));
                let k = choose|k: int|
                    0 <= k < decoded@.len() && (#[trigger] decoded@[k]).port.number() == n;
                assert(list@[k].port.number() == n);
            }
        }
    }
    list
}

/// The ports that are being listened on, from what the system's table and
/// the listing utility gave.
pub fn get_listening_ports(table: &TableRead, listing: &ListingRun, layout: &TableLayout) -> (r:
    Result<Vec<ListeningPort>, Error>)
    ensures
        is_detection_outcome(*table, *listing, *layout, r),
{
    let decoded: Vec<ListeningPort> = match table {
        TableRead::Read(bytes) => decode_table(bytes.as_slice(), layout),
        _ => Vec::new(),
    };
    proof {
        let ports = decoded_ports(*table, *layout);
        if !(table is Read) {
            assert(unattributed(ports) =~= Map::<u16, Owner>::empty());
        }
        lemma_empty_port_table(decoded@, unattributed(ports));
        assert(unattributed(ports).dom() =~= ports);
    }
    if decoded.len() > 0 {
        let listed: Vec<ListeningPort> = match listing {
            ListingRun::Output(text) => parse_listing(text.as_str()),
            _ => Vec::new(),
        };
        return Ok(attribute(&decoded, &listed));
    }
    match listing {
        ListingRun::Output(text) => Ok(parse_listing(text.as_str())),
        ListingRun::Failed => Ok(Vec::new()),
        ListingRun::NotStarted(reason) => match table {
            TableRead::Read(_) => Ok(Vec::new()),
            TableRead::Failed(why) => Err(
                Error::PortDetection(PortDetectionError::ProcessEnumFailed(why.clone())),
            ),
            TableRead::Unavailable => Err(
                Error::PortDetection(PortDetectionError::ProcessEnumFailed(reason.clone())),
            ),
        },
        ListingRun::Unavailable => match table {
            TableRead::Read(_) => Ok(Vec::new()),
            TableRead::Failed(why) => Err(
                Error::PortDetection(PortDetectionError::ProcessEnumFailed(why.clone())),
            ),
            TableRead::Unavailable => Err(
                Error::PortDetection(PortDetectionError::PlatformNotSupported),
            ),
        },
    }
}

} // verus!
