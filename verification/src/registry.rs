//! Allocating, freeing, suggesting and querying ports, and editing ranges.
//!
//! Every operation works on a registry in memory and on a snapshot of the
//! ports that are being listened on. One that fails leaves the registry as it
//! was.

use crate::error::{Error, RegistryError};
use crate::model::{is_first_owner, Project, Registry, RegistryView};
use crate::name_map::{entry_pairs, names_increasing, pairs_map};
use crate::port::Port;
use crate::ports::{find_listener, is_first_listener, live_numbers, ListeningPort};
use crate::text::{chars_of, find_char, first_index_of, parse_u16_in, u16_value};
use std::collections::HashSet;
use vstd::prelude::*;
use vstd::string::StrSliceExecFns;

verus! {

/// An optional name as its characters.
pub open spec fn name_view(name: Option<&str>) -> Option<Seq<char>> {
    match name {
        Some(n) => Some(n@),
        None => None,
    }
}

/// Whether `r` is the answer to a query for the slot `name` of `project`, or
/// for all its slots where `name` is `None`.
///
/// A project that the registry does not have is an error, and so is a slot
/// that the project does not have. One slot is answered with its name and
/// port; all slots are answered in name order.
pub open spec fn is_query_answer(
    registry: Registry,
    project: Seq<char>,
    name: Option<Seq<char>>,
    r: Result<Vec<(String, Port)>, Error>,
) -> bool {
    if !registry.projects@.contains_key(project) {
        r matches Err(Error::Registry(RegistryError::ProjectNotFound(p))) && p@ == project
    } else {
        let slots = registry.projects@[project].ports;
        match name {
            Some(n) => if slots@.contains_key(n) {
                r matches Ok(v) && entry_pairs(v@) == seq![(n, slots@[n])]
            } else {
                r matches Err(
                    Error::Registry(RegistryError::PortNameNotFound { project: p, name: m }),
                ) && p@ == project && m@ == n
            },
            None => {
                &&& r matches Ok(v)
                &&& entry_pairs(v@) == slots.pairs()
                &&& names_increasing(entry_pairs(v@))
                &&& pairs_map(entry_pairs(v@)) == slots@
            },
        }
    }
}

/// The slots of a project as a list of names and ports, in name order.
fn list_slots(project: &Project) -> (v: Vec<(String, Port)>)
    ensures
        entry_pairs(v@) == project.ports.pairs(),
        project.ports.wf(),
{
    let n = project.ports.len();
    let mut v: Vec<(String, Port)> = Vec::new();
    let mut i: usize = 0;
    while i < n
        invariant
            i <= n,
            n == project.ports.pairs().len(),
            entry_pairs(v@) == project.ports.pairs().take(i as int),
        decreases n - i,
    {
        let name = project.ports.name_at(i).clone();
        let port = *project.ports.value_at(i);
        let ghost before = v@;
        v.push((name, port));
        proof {
            assert(entry_pairs(v@) =~= entry_pairs(before).push((name@, port)));
            assert(project.ports.pairs().take(i + 1) =~= project.ports.pairs().take(i as int).push(
                project.ports.pairs()[i as int],
            ));
        }
        i += 1;
    }
    proof {
        assert(project.ports.pairs().take(n as int) =~= project.ports.pairs());
    }
    v
}

/// Looks up the port of one slot of a project, or of all its slots.
pub fn query_ports(registry: &Registry, project: &str, name: Option<&str>) -> (r: Result<
    Vec<(String, Port)>,
    Error,
>)
    ensures
        is_query_answer(*registry, project@, name_view(name), r),
{
    match registry.projects.get(project) {
        None => Err(Error::Registry(RegistryError::ProjectNotFound(project.to_owned()))),
        Some(found) => match name {
            Some(n) => match found.ports.get(n) {
                None => Err(
                    Error::Registry(RegistryError::PortNameNotFound {
                        project: project.to_owned(),
                        name: n.to_owned(),
                    }),
                ),
                Some(port) => {
                    let mut v: Vec<(String, Port)> = Vec::new();
                    v.push((n.to_owned(), *port));
                    proof {
                        assert(entry_pairs(v@) =~= seq![(n@, *port)]);
                    }
                    Ok(v)
                },
            },
            None => Ok(list_slots(found)),
        },
    }
}

/// Frees one slot of a project, or all its slots where `name` is `None`, and
/// returns what was freed. A project left without slots is removed.
pub fn free_port(registry: &mut Registry, project: &str, name: Option<&str>) -> (r: Result<
    Vec<(String, Port)>,
    Error,
>)
    ensures
        is_query_answer(*old(registry), project@, name_view(name), r),
        r is Err ==> *final(registry) == *old(registry),
        r is Ok ==> final(registry)@ == match name {
            Some(n) => old(registry)@.release(project@, n@),
            None => old(registry)@.drop_project(project@),
        },
{
    let answer = query_ports(registry, project, name);
    if answer.is_err() {
        return answer;
    }
    let ghost before = *registry;
    let gone = registry.projects.remove(project);
    match name {
        Some(n) => {
            let mut rest = gone.unwrap();
            let ghost slots = rest@;
            rest.ports.remove(n);
            proof {
                assert(rest@ =~= slots.remove(n@));
                assert(slots == before@.slots_of(project@));
                assert((rest.ports@ == Map::<Seq<char>, Port>::empty()) == (rest@ == Map::<
                    Seq<char>,
                    u16,
                >::empty())) by {
                    if rest@ == Map::<Seq<char>, u16>::empty() {
                        assert forall|k: Seq<char>| !rest.ports@.contains_key(k) by {
                            assert(!rest@.contains_key(k));
                        }
                        assert(rest.ports@ =~= Map::<Seq<char>, Port>::empty());
                    }
                    if rest.ports@ == Map::<Seq<char>, Port>::empty() {
                        assert(rest@ =~= Map::<Seq<char>, u16>::empty());
                    }
                }
            }
            if !rest.ports.is_empty() {
                registry.projects.insert(project.to_owned(), rest);
                proof {
                    assert(registry@.projects =~= before@.projects.insert(project@, rest@));
                    assert(registry@.ranges == before@.ranges);
                }
            } else {
                proof {
                    assert(registry@.projects =~= before@.projects.remove(project@));
                    assert(registry@.ranges == before@.ranges);
                }
            }
        },
        None => {
            proof {
                assert(registry@.projects =~= before@.projects.remove(project@));
                assert(registry@.ranges == before@.ranges);
            }
        },
    }
    answer
}

/// Whether `port` can be handed out: it is a valid port number that no slot
/// holds and nothing listens on.
pub open spec fn is_free(registry: RegistryView, live: Set<u16>, port: int) -> bool {
    1 <= port <= 65535 && !registry.is_allocated(port as u16) && !live.contains(port as u16)
}

/// The free ports from `lo` up to, but not including, `hi`, in ascending order.
pub open spec fn free_ports(registry: RegistryView, live: Set<u16>, lo: int, hi: int) -> Seq<u16>
    decreases hi - lo,
{
    if hi <= lo {
        Seq::empty()
    } else if is_free(registry, live, hi - 1) {
        free_ports(registry, live, lo, hi - 1).push((hi - 1) as u16)
    } else {
        free_ports(registry, live, lo, hi - 1)
    }
}

/// The ports to suggest from the range `start..=end`: its first `count` free
/// ports, or all of them if there are fewer.
pub open spec fn suggestions(
    registry: RegistryView,
    live: Set<u16>,
    start: u16,
    end: u16,
    count: nat,
) -> Seq<u16> {
    let all = free_ports(registry, live, start as int, end + 1);
    if all.len() <= count {
        all
    } else {
        all.take(count as int)
    }
}

/// The numbers of `ports`, in the same order.
pub open spec fn port_numbers(ports: Seq<Port>) -> Seq<u16> {
    Seq::new(ports.len(), |i: int| ports[i].number())
}

/// The free ports below `mid` are the first of the free ports below `hi`.
pub proof fn lemma_free_ports_prefix(
    registry: RegistryView,
    live: Set<u16>,
    lo: int,
    mid: int,
    hi: int,
)
    requires
        lo <= mid <= hi,
    ensures
        free_ports(registry, live, lo, mid).len() <= free_ports(registry, live, lo, hi).len(),
        free_ports(registry, live, lo, mid) == free_ports(registry, live, lo, hi).take(
            free_ports(registry, live, lo, mid).len() as int,
        ),
    decreases hi - mid,
{
    let short = free_ports(registry, live, lo, mid);
    if mid == hi {
        assert(short.take(short.len() as int) =~= short);
    } else {
        lemma_free_ports_prefix(registry, live, lo, mid, hi - 1);
        let inner = free_ports(registry, live, lo, hi - 1);
        let outer = free_ports(registry, live, lo, hi);
        assert(short =~= outer.take(short.len() as int)) by {
            assert(short == inner.take(short.len() as int));
            assert forall|i: int| 0 <= i < short.len() implies outer[i] == inner[i] by {}
        }
    }
}

/// The numbers that cannot be handed out: those of the allocated ports and
/// those that are listened on.
fn taken_numbers(registry: &Registry, active_ports: &[ListeningPort]) -> (taken: HashSet<u16>)
    ensures
        forall|n: u16|
            taken@.contains(n) <==> (registry@.is_allocated(n) || live_numbers(
                active_ports@,
            ).contains(n)),
{
    let allocated = registry.all_allocated_ports();
    let mut taken: HashSet<u16> = HashSet::new();
    let mut i: usize = 0;
    while i < allocated.len()
        invariant
            i <= allocated@.len(),
            forall|n: u16|
                taken@.contains(n) <==> exists|k: int|
                    0 <= k < i && (#[trigger] allocated@[k]).number() == n,
        decreases allocated@.len() - i,
    {
        taken.insert(allocated[i].as_u16());
        i += 1;
    }
    proof {
        assert forall|n: u16| taken@.contains(n) <==> registry@.is_allocated(n) by {
            if taken@.contains(n) {
                let k = choose|k: int|
                    0 <= k < allocated@.len() && (#[trigger] allocated@[k]).number() == n;
                assert(allocated@.contains(allocated@[k]));
            }
            if registry@.is_allocated(n) {
                Port::lemma_number_of(n);
                assert(allocated@.contains(Port::of(n)));
                let k = choose|k: int| 0 <= k < allocated@.len() && allocated@[k] == Port::of(n);
                assert(allocated@[k].number() == n);
            }
        }
    }
    let mut j: usize = 0;
    while j < active_ports.len()
        invariant
            j <= active_ports@.len(),
            forall|n: u16|
                taken@.contains(n) <==> (registry@.is_allocated(n) || exists|k: int|
                    0 <= k < j && (#[trigger] active_ports@[k]).port.number() == n),
        decreases active_ports@.len() - j,
    {
        taken.insert(active_ports[j].port.as_u16());
        j += 1;
    }
    taken
}

/// Suggests free ports from the range of a port type.
///
/// The range is walked upwards; ports that are allocated or listened on are
/// passed over, until `count` ports are found. Finding no port at all is an
/// error, finding fewer than asked for is not.
pub fn suggest_port(
    registry: &Registry,
    port_type: &str,
    count: usize,
    active_ports: &[ListeningPort],
) -> (r: Result<Vec<Port>, Error>)
    ensures
        ({
            let range = registry@.range_for(port_type@);
            let picks = suggestions(
                registry@,
                live_numbers(active_ports@),
                range.0,
                range.1,
                count as nat,
            );
            if picks.len() == 0 {
                r == Err::<Vec<Port>, Error>(
                    Error::Registry(
                        RegistryError::NoAvailablePorts { start: range.0, end: range.1 },
                    ),
                )
            } else {
                r matches Ok(ports) && port_numbers(ports@) == picks
            }
        }),
{
    let range = registry.get_range(port_type);
    let start = range[0];
    let end = range[1];
    let ghost view = registry@;
    let ghost live = live_numbers(active_ports@);
    let taken = taken_numbers(registry, active_ports);
    let mut found: Vec<Port> = Vec::new();
    let mut next: u32 = start as u32;
    while next <= end as u32 && found.len() < count
        invariant
            start <= next,
            next <= end + 1 || (end < start && next == start),
            view == registry@,
            live == live_numbers(active_ports@),
            found@.len() <= count,
            forall|n: u16| taken@.contains(n) <==> (view.is_allocated(n) || live.contains(n)),
            port_numbers(found@) == free_ports(view, live, start as int, next as int),
        decreases end + 1 - next,
    {
        let number = next as u16;
        match Port::new(number) {
            Ok(port) => {
                proof {
                    Port::lemma_number_of(number);
                }
                if !taken.contains(&number) {
                    let ghost before = found@;
                    found.push(port);
                    proof {
                        assert(port_numbers(found@) =~= port_numbers(before).push(number));
                    }
                }
            },
            Err(_) => {},
        }
        next = next + 1;
    }
    proof {
        let all = free_ports(view, live, start as int, end + 1);
        let have = port_numbers(found@);
        if end < start {
            assert(have =~= all);
        } else {
            lemma_free_ports_prefix(view, live, start as int, next as int, end + 1);
            if next <= end {
                assert(have.len() == count);
            } else {
                assert(all.take(all.len() as int) =~= all);
            }
        }
    }
    if found.len() == 0 {
        Err(Error::Registry(RegistryError::NoAvailablePorts { start, end }))
    } else {
        Ok(found)
    }
}

/// The process id to report for a listener: its own, or 0 where unknown.
pub open spec fn pid_or_zero(pid: Option<i32>) -> i32 {
    match pid {
        Some(id) => id,
        None => 0,
    }
}

/// The process name to report for a listener: its own, or `unknown`.
pub open spec fn name_or_unknown(process_name: Option<String>) -> Seq<char> {
    match process_name {
        Some(text) => text@,
        None => "unknown"@,
    }
}

/// Whether `r` is the outcome of allocating the slot `name` of `project`.
///
/// A slot name that the project has already is refused. A port that was asked
/// for is refused where a slot holds it, naming the first such slot, or where
/// a process listens on it, naming the first such listener; otherwise it is
/// the port allocated. Where no port was asked for, the first free port of the
/// range of the type `name` is allocated, and it is an error if there is none.
pub open spec fn is_allocation_outcome(
    registry: RegistryView,
    project: Seq<char>,
    name: Seq<char>,
    port: Option<Port>,
    listening: Seq<ListeningPort>,
    r: Result<Port, Error>,
) -> bool {
    if registry.has_slot(project, name) {
        r matches Err(Error::Registry(RegistryError::PortNameExists { project: p, name: n }))
            && p@ == project && n@ == name
    } else {
        match port {
            Some(wanted) => {
                if registry.is_allocated(wanted.number()) {
                    r matches Err(
                        Error::Registry(
                            RegistryError::PortAlreadyAllocated { port: q, project: p, name: n },
                        ),
                    ) && q == wanted && is_first_owner(registry, p@, n@, wanted.number())
                } else if live_numbers(listening).contains(wanted.number()) {
                    r matches Err(
                        Error::Registry(RegistryError::PortInUse { port: q, pid, process_name }),
                    ) && q == wanted && exists|k: int|
                        is_first_listener(listening, wanted.number(), k) && pid == pid_or_zero(
                            listening[k].pid,
                        ) && process_name@ == name_or_unknown(listening[k].process_name)
                } else {
                    r == Ok::<Port, Error>(wanted)
                }
            },
            None => {
                let range = registry.range_for(name);
                let picks = suggestions(registry, live_numbers(listening), range.0, range.1, 1);
                if picks.len() == 0 {
                    r == Err::<Port, Error>(
                        Error::Registry(
                            RegistryError::NoAvailablePorts { start: range.0, end: range.1 },
                        ),
                    )
                } else {
                    r matches Ok(q) && q.number() == picks[0]
                }
            },
        }
    }
}

/// Allocates a port to the slot `name` of `project`.
///
/// With `port` given, that port is allocated if no slot holds it and nothing
/// listens on it. Without, the first free port of the range that is
/// configured for the type `name` is allocated.
pub fn allocate_port(
    registry: &mut Registry,
    project: &str,
    name: &str,
    port: Option<Port>,
    active_ports: &[ListeningPort],
) -> (r: Result<Port, Error>)
    ensures
        is_allocation_outcome(old(registry)@, project@, name@, port, active_ports@, r),
        r is Err ==> *final(registry) == *old(registry),
        r matches Ok(p) ==> final(registry)@ == old(registry)@.bind(project@, name@, p.number()),
{
    let taken = match registry.projects.get(project) {
        Some(found) => found.ports.contains_key(name),
        None => false,
    };
    if taken {
        return Err(
            Error::Registry(
                RegistryError::PortNameExists {
                    project: project.to_owned(),
                    name: name.to_owned(),
                },
            ),
        );
    }
    let chosen = match port {
        Some(wanted) => {
            match registry.find_port_owner(wanted) {
                Some((owner, slot)) => {
                    return Err(
                        Error::Registry(RegistryError::PortAlreadyAllocated {
                            port: wanted,
                            project: owner.to_owned(),
                            name: slot.to_owned(),
                        }),
                    );
                },
                None => {},
            }
            match find_listener(active_ports, wanted) {
                Some(k) => {
                    let listener = &active_ports[k];
                    let pid = match listener.pid {
                        Some(id) => id,
                        None => 0,
                    };
                    let process_name = match &listener.process_name {
                        Some(text) => text.clone(),
                        None => "unknown".to_owned(),
                    };
                    return Err(
                        Error::Registry(
                            RegistryError::PortInUse { port: wanted, pid, process_name },
                        ),
                    );
                },
                None => {},
            }
            wanted
        },
        None => {
            match suggest_port(registry, name, 1, active_ports) {
                Err(e) => {
                    return Err(e);
                },
                Ok(found) => found[0],
            }
        },
    };
    let ghost before = *registry;
    let mut target = match registry.projects.remove(project) {
        Some(found) => found,
        None => Project::default(),
    };
    let ghost slots = target@;
    target.ports.insert(name.to_owned(), chosen);
    proof {
        assert(slots =~= before@.slots_of(project@));
        assert(target@ =~= slots.insert(name@, chosen.number()));
    }
    registry.projects.insert(project.to_owned(), target);
    proof {
        assert(registry@.projects =~= before@.projects.insert(project@, target@));
        assert(registry@.ranges == before@.ranges);
    }
    Ok(chosen)
}

/// The three parts of a range specification `type=start-end`: what stands
/// before the first `=`, what stands between it and the first `-` after it,
/// and the rest. `None` where the `=` or the `-` is missing.
pub open spec fn range_spec_parts(text: Seq<char>) -> Option<(Seq<char>, Seq<char>, Seq<char>)> {
    let eq = first_index_of(text, '=');
    if eq == text.len() {
        None
    } else {
        let rest = text.subrange(eq + 1, text.len() as int);
        let dash = first_index_of(rest, '-');
        if dash == rest.len() {
            None
        } else {
            Some(
                (
                    text.subrange(0, eq),
                    rest.subrange(0, dash),
                    rest.subrange(dash + 1, rest.len() as int),
                ),
            )
        }
    }
}

/// Whether `r` is the outcome of setting a range from the specification
/// `text`.
///
/// A specification without its `=` or `-` is badly formatted. A bound that is
/// not a number from 0 to 65535 is refused, the start before the end, and is
/// handed back. A range must start below its end.
pub open spec fn is_range_outcome(text: Seq<char>, r: Result<(String, u16, u16), Error>) -> bool {
    match range_spec_parts(text) {
        None => r == Err::<(String, u16, u16), Error>(
            Error::Registry(RegistryError::InvalidRangeFormat),
        ),
        Some((port_type, first, last)) => match u16_value(first) {
            None => r matches Err(Error::Registry(RegistryError::InvalidPortNumber(bound)))
                && bound@ == first,
            Some(start) => match u16_value(last) {
                None => r matches Err(Error::Registry(RegistryError::InvalidPortNumber(bound)))
                    && bound@ == last,
                Some(end) => if start >= end {
                    r == Err::<(String, u16, u16), Error>(
                        Error::Registry(RegistryError::InvalidPortRange { start, end }),
                    )
                } else {
                    r matches Ok(set) && set.0@ == port_type && set.1 == start && set.2 == end
                },
            },
        },
    }
}

/// Sets the range of a port type from a specification `type=start-end`, and
/// returns the type with its new bounds.
pub fn set_port_range(registry: &mut Registry, range_spec: &str) -> (r: Result<
    (String, u16, u16),
    Error,
>)
    ensures
        is_range_outcome(range_spec@, r),
        r is Err ==> *final(registry) == *old(registry),
        r matches Ok(set) ==> final(registry)@ == old(registry)@.with_range(set.0@, set.1, set.2),
{
    let chars = chars_of(range_spec);
    let len = chars.len();
    let ghost text = range_spec@;
    proof {
        assert(chars@.subrange(0, len as int) =~= text);
    }
    let eq = find_char(&chars, 0, len, '=');
    if eq == len {
        return Err(Error::Registry(RegistryError::InvalidRangeFormat));
    }
    let ghost rest = text.subrange(eq + 1, text.len() as int);
    proof {
        assert(chars@.subrange(eq + 1, len as int) =~= rest);
    }
    let dash = find_char(&chars, eq + 1, len, '-');
    if dash == len {
        return Err(Error::Registry(RegistryError::InvalidRangeFormat));
    }
    let ghost first = rest.subrange(0, dash - (eq + 1));
    let ghost last = rest.subrange(dash - eq, rest.len() as int);
    proof {
        assert(chars@.subrange(eq + 1, dash as int) =~= first);
        assert(chars@.subrange(dash + 1, len as int) =~= last);
        assert(text.subrange(eq + 1, dash as int) =~= first);
        assert(text.subrange(dash + 1, len as int) =~= last);
    }
    let start = match parse_u16_in(&chars, eq + 1, dash) {
        Some(n) => n,
        None => {
            let bound = range_spec.substring_char(eq + 1, dash).to_owned();
            return Err(Error::Registry(RegistryError::InvalidPortNumber(bound)));
        },
    };
    let end = match parse_u16_in(&chars, dash + 1, len) {
        Some(n) => n,
        None => {
            let bound = range_spec.substring_char(dash + 1, len).to_owned();
            return Err(Error::Registry(RegistryError::InvalidPortNumber(bound)));
        },
    };
    if start >= end {
        return Err(Error::Registry(RegistryError::InvalidPortRange { start, end }));
    }
    let port_type = range_spec.substring_char(0, eq);
    let ghost before = *registry;
    registry.defaults.ranges.insert(port_type.to_owned(), [start, end]);
    proof {
        assert(registry@.ranges =~= before@.ranges.insert(port_type@, (start, end)));
        assert(registry@.projects =~= before@.projects);
    }
    Ok((port_type.to_owned(), start, end))
}

} // verus!
