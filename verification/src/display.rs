//! What is shown of the registry: the allocated ports with their status, the
//! listening ports with their owners, the ranges, and the answers to queries.

use crate::model::{is_first_owner, Project, Registry, RegistryView};
use crate::port::Port;
use crate::ports::ListeningPort;
use crate::text::{decimal_digits, i32_to_string, signed_digits, u16_to_string};
use vstd::prelude::*;
use vstd::string::StringExecFns;

verus! {

/// Whether an allocated port is being listened on.
#[derive(Debug, Clone, Copy, PartialEq, Eq, Structural)]
pub enum PortStatus {
    /// Allocated, and nothing listens on it.
    Idle,
    /// Allocated, and a process listens on it.
    Active,
}

/// An allocated port with its status and, where active, its process.
#[derive(Debug, Clone, PartialEq, Eq)]
pub struct AllocatedPortInfo {
    pub project: String,
    pub name: String,
    pub port: Port,
    pub status: PortStatus,
    pub pid: Option<i32>,
    pub process_name: Option<String>,
}

/// A listening port with the slot that holds it, if one does.
#[derive(Debug, Clone, PartialEq, Eq)]
pub struct StatusPortInfo {
    pub port: Port,
    pub project: Option<String>,
    pub name: Option<String>,
    pub pid: Option<i32>,
    pub process: Option<String>,
}

/// The range of a port type.
#[derive(Debug, Clone, PartialEq, Eq)]
pub struct RangeInfo {
    pub name: String,
    pub start: u16,
    pub end: u16,
}

/// The configuration: where it is kept, if that is to be shown, and the
/// ranges.
#[derive(Debug, Clone, PartialEq, Eq)]
pub struct ConfigInfo {
    pub config_file: Option<String>,
    pub ranges: Vec<RangeInfo>,
}

/// The port of one slot.
#[derive(Debug, Clone, PartialEq, Eq)]
pub struct QueryResult {
    pub name: String,
    pub port: Port,
}

/// An allocated port as plain values.
pub struct AllocatedPortView {
    pub project: Seq<char>,
    pub name: Seq<char>,
    pub port: Port,
    pub status: PortStatus,
    pub pid: Option<i32>,
    pub process_name: Option<Seq<char>>,
}

impl View for AllocatedPortInfo {
    type V = AllocatedPortView;

    open spec fn view(&self) -> AllocatedPortView {
        AllocatedPortView {
            project: self.project@,
            name: self.name@,
            port: self.port,
            status: self.status,
            pid: self.pid,
            process_name: crate::ports::text_view(self.process_name),
        }
    }
}

/// The views of `rows`, in the same order.
pub open spec fn allocated_views(rows: Seq<AllocatedPortInfo>) -> Seq<AllocatedPortView> {
    Seq::new(rows.len(), |i: int| rows[i]@)
}

/// The position of the last entry of `listening` for `port`, or -1 if there
/// is none.
pub open spec fn last_listener(listening: Seq<ListeningPort>, port: u16) -> int
    decreases listening.len(),
{
    if listening.len() == 0 {
        -1
    } else if listening.last().port.number() == port {
        listening.len() - 1
    } else {
        last_listener(listening.drop_last(), port)
    }
}

/// What is shown of one slot: active with the process of the last listener on
/// its port, or idle.
pub open spec fn slot_view(
    project: Seq<char>,
    slot: (Seq<char>, Port),
    listening: Seq<ListeningPort>,
) -> AllocatedPortView {
    let at = last_listener(listening, slot.1.number());
    if at >= 0 {
        AllocatedPortView {
            project,
            name: slot.0,
            port: slot.1,
            status: PortStatus::Active,
            pid: listening[at].pid,
            process_name: crate::ports::text_view(listening[at].process_name),
        }
    } else {
        AllocatedPortView {
            project,
            name: slot.0,
            port: slot.1,
            status: PortStatus::Idle,
            pid: None,
            process_name: None,
        }
    }
}

/// What is shown of the slots of one project, the idle ones left out where
/// only active ones are asked for.
pub open spec fn slot_views(
    project: Seq<char>,
    slots: Seq<(Seq<char>, Port)>,
    listening: Seq<ListeningPort>,
    active_only: bool,
) -> Seq<AllocatedPortView>
    decreases slots.len(),
{
    if slots.len() == 0 {
        Seq::empty()
    } else {
        let before = slot_views(project, slots.drop_last(), listening, active_only);
        let row = slot_view(project, slots.last(), listening);
        if active_only && row.status != PortStatus::Active {
            before
        } else {
            before.push(row)
        }
    }
}

/// What is shown of the slots of all projects, project after project.
pub open spec fn project_views(
    projects: Seq<(Seq<char>, Project)>,
    listening: Seq<ListeningPort>,
    active_only: bool,
) -> Seq<AllocatedPortView>
    decreases projects.len(),
{
    if projects.len() == 0 {
        Seq::empty()
    } else {
        project_views(projects.drop_last(), listening, active_only) + slot_views(
            projects.last().0,
            projects.last().1.ports.pairs(),
            listening,
            active_only,
        )
    }
}

/// The last entry of `listening` for `port`, if there is one.
fn find_last_listener(listening: &[ListeningPort], port: Port) -> (r: Option<usize>)
    ensures
        match r {
            Some(at) => at == last_listener(listening@, port.number()) && at < listening@.len(),
            None => last_listener(listening@, port.number()) == -1,
        },
{
    let mut k: usize = listening.len();
    proof {
        assert(listening@.take(k as int) =~= listening@);
    }
    while k > 0
        invariant
            k <= listening@.len(),
            last_listener(listening@, port.number()) == last_listener(
                listening@.take(k as int),
                port.number(),
            ),
        decreases k,
    {
        proof {
            assert(listening@.take(k as int).last() == listening@[k - 1]);
            assert(listening@.take(k as int).drop_last() =~= listening@.take(k - 1));
        }
        if listening[k - 1].port.as_u16() == port.as_u16() {
            return Some(k - 1);
        }
        k -= 1;
    }
    None
}

/// The allocated ports of all projects in project and slot order, each with
/// its status; only the active ones where `filter_active` is set.
pub fn build_allocated_port_list(
    registry: &Registry,
    listening: &[ListeningPort],
    filter_active: bool,
) -> (rows: Vec<AllocatedPortInfo>)
    ensures
        allocated_views(rows@) == project_views(
            registry.projects.pairs(),
            listening@,
            filter_active,
        ),
{
    let mut rows: Vec<AllocatedPortInfo> = Vec::new();
    let n = registry.projects.len();
    let ghost all = registry.projects.pairs();
    let mut i: usize = 0;
    proof {
        assert(allocated_views(rows@) =~= Seq::<AllocatedPortView>::empty());
    }
    while i < n
        invariant
            i <= n,
            n == all.len(),
            all == registry.projects.pairs(),
            allocated_views(rows@) == project_views(all.take(i as int), listening@, filter_active),
        decreases n - i,
    {
        let project_name = registry.projects.name_at(i);
        let project = registry.projects.value_at(i);
        let m = project.ports.len();
        let ghost slots = project.ports.pairs();
        let ghost before = allocated_views(rows@);
        let mut j: usize = 0;
        while j < m
            invariant
                j <= m,
                m == slots.len(),
                slots == project.ports.pairs(),
                allocated_views(rows@) == before + slot_views(
                    project_name@,
                    slots.take(j as int),
                    listening@,
                    filter_active,
                ),
            decreases m - j,
        {
            let slot_name = project.ports.name_at(j);
            let port = *project.ports.value_at(j);
            let ghost previous = rows@;
            proof {
                assert(slots.take(j + 1).last() == slots[j as int]);
                assert(slots.take(j + 1).drop_last() =~= slots.take(j as int));
            }
            match find_last_listener(listening, port) {
                Some(at) => {
                    let listener = &listening[at];
                    rows.push(
                        AllocatedPortInfo {
                            project: project_name.clone(),
                            name: slot_name.clone(),
                            port,
                            status: PortStatus::Active,
                            pid: listener.pid,
                            process_name: match &listener.process_name {
                                Some(text) => Some(text.clone()),
                                None => None,
                            },
                        },
                    );
                    proof {
                        assert(allocated_views(rows@) =~= allocated_views(previous).push(
                            slot_view(project_name@, slots[j as int], listening@),
                        ));
                    }
                },
                None => {
                    if !filter_active {
                        rows.push(
                            AllocatedPortInfo {
                                project: project_name.clone(),
                                name: slot_name.clone(),
                                port,
                                status: PortStatus::Idle,
                                pid: None,
                                process_name: None,
                            },
                        );
                        proof {
                            assert(allocated_views(rows@) =~= allocated_views(previous).push(
                                slot_view(project_name@, slots[j as int], listening@),
                            ));
                        }
                    }
                },
            }
            j += 1;
        }
        proof {
            assert(slots.take(m as int) =~= slots);
            assert(all.take(i + 1).last() == all[i as int]);
            assert(all.take(i + 1).drop_last() =~= all.take(i as int));
        }
        i += 1;
    }
    proof {
        assert(all.take(n as int) =~= all);
    }
    rows
}

/// Whether `row` shows the listening port `listener` with the first slot that
/// holds it, if any does.
pub open spec fn is_status_row(
    registry: RegistryView,
    listener: ListeningPort,
    row: StatusPortInfo,
) -> bool {
    &&& row.port == listener.port
    &&& row.pid == listener.pid
    &&& row.process == listener.process_name
    &&& if registry.is_allocated(listener.port.number()) {
        row.project is Some && row.name is Some && is_first_owner(
            registry,
            row.project->Some_0@,
            row.name->Some_0@,
            listener.port.number(),
        )
    } else {
        row.project is None && row.name is None
    }
}

/// The listening ports, each with the slot that holds it.
pub fn build_status_port_list(listening: &[ListeningPort], registry: &Registry) -> (rows: Vec<
    StatusPortInfo,
>)
    ensures
        rows@.len() == listening@.len(),
        forall|i: int|
            0 <= i < listening@.len() ==> is_status_row(
                registry@,
                listening@[i],
                #[trigger] rows@[i],
            ),
{
    let mut rows: Vec<StatusPortInfo> = Vec::new();
    let mut i: usize = 0;
    while i < listening.len()
        invariant
            i <= listening@.len(),
            rows@.len() == i,
            forall|k: int|
                0 <= k < i ==> is_status_row(registry@, listening@[k], #[trigger] rows@[k]),
        decreases listening@.len() - i,
    {
        let listener = &listening[i];
        let process = match &listener.process_name {
            Some(text) => Some(text.clone()),
            None => None,
        };
        let ghost before = rows@;
        match registry.find_port_owner(listener.port) {
            Some((project, name)) => {
                rows.push(
                    StatusPortInfo {
                        port: listener.port,
                        project: Some(project.to_owned()),
                        name: Some(name.to_owned()),
                        pid: listener.pid,
                        process,
                    },
                );
            },
            None => {
                rows.push(
                    StatusPortInfo {
                        port: listener.port,
                        project: None,
                        name: None,
                        pid: listener.pid,
                        process,
                    },
                );
            },
        }
        proof {
            assert forall|k: int| 0 <= k < i implies rows@[k] == before[k] by {}
        }
        i += 1;
    }
    rows
}

/// The entries of `listening` whose port no slot holds, in their order.
pub open spec fn unassigned(listening: Seq<ListeningPort>, registry: RegistryView) -> Seq<
    ListeningPort,
>
    decreases listening.len(),
{
    if listening.len() == 0 {
        Seq::empty()
    } else if registry.is_allocated(listening.last().port.number()) {
        unassigned(listening.drop_last(), registry)
    } else {
        unassigned(listening.drop_last(), registry).push(listening.last())
    }
}

/// The listening ports that no slot holds, in the order they are given.
pub fn unassigned_ports(listening: &[ListeningPort], registry: &Registry) -> (rest: Vec<
    ListeningPort,
>)
    ensures
        rest@ == unassigned(listening@, registry@),
{
    let mut rest: Vec<ListeningPort> = Vec::new();
    let mut i: usize = 0;
    proof {
        assert(listening@.take(0) =~= Seq::<ListeningPort>::empty());
    }
    while i < listening.len()
        invariant
            i <= listening@.len(),
            rest@ == unassigned(listening@.take(i as int), registry@),
        decreases listening@.len() - i,
    {
        let listener = &listening[i];
        proof {
            assert(listening@.take(i + 1).drop_last() =~= listening@.take(i as int));
            assert(listening@.take(i + 1).last() == listening@[i as int]);
        }
        if registry.find_port_owner(listener.port).is_none() {
            rest.push(
                ListeningPort {
                    port: listener.port,
                    pid: listener.pid,
                    process_name: match &listener.process_name {
                        Some(text) => Some(text.clone()),
                        None => None,
                    },
                },
            );
        }
        i += 1;
    }
    proof {
        assert(listening@.take(listening@.len() as int) =~= listening@);
    }
    rest
}

/// The configuration to show: the ranges in the order of their names, and
/// the place of the registry where one is given.
pub fn build_config_info(registry: &Registry, path: Option<&str>) -> (info: ConfigInfo)
    ensures
        crate::ports::text_view(info.config_file) == crate::registry::name_view(path),
        info.ranges@.len() == registry.defaults.ranges.pairs().len(),
        forall|i: int|
            0 <= i < info.ranges@.len() ==> (#[trigger] info.ranges@[i]).name@
                == registry.defaults.ranges.pairs()[i].0 && info.ranges@[i].start
                == registry.defaults.ranges.pairs()[i].1[0] && info.ranges@[i].end
                == registry.defaults.ranges.pairs()[i].1[1],
{
    let mut ranges: Vec<RangeInfo> = Vec::new();
    let n = registry.defaults.ranges.len();
    let mut i: usize = 0;
    while i < n
        invariant
            i <= n,
            n == registry.defaults.ranges.pairs().len(),
            ranges@.len() == i,
            forall|k: int|
                0 <= k < i ==> (#[trigger] ranges@[k]).name@
                    == registry.defaults.ranges.pairs()[k].0
                    && ranges@[k].start == registry.defaults.ranges.pairs()[k].1[0]
                    && ranges@[k].end == registry.defaults.ranges.pairs()[k].1[1],
        decreases n - i,
    {
        let name = registry.defaults.ranges.name_at(i).clone();
        let range = registry.defaults.ranges.value_at(i);
        let ghost before = ranges@;
        ranges.push(RangeInfo { name, start: range[0], end: range[1] });
        proof {
            assert forall|k: int| 0 <= k < i implies ranges@[k] == before[k] by {}
        }
        i += 1;
    }
    let config_file = match path {
        Some(text) => Some(text.to_owned()),
        None => None,
    };
    ConfigInfo { config_file, ranges }
}

/// The answers to a query, one for each slot.
pub fn build_query_results(ports: &[(String, Port)]) -> (results: Vec<QueryResult>)
    ensures
        results@.len() == ports@.len(),
        forall|i: int|
            0 <= i < ports@.len() ==> (#[trigger] results@[i]).name@ == ports@[i].0@
                && results@[i].port == ports@[i].1,
{
    let mut results: Vec<QueryResult> = Vec::new();
    let mut i: usize = 0;
    while i < ports.len()
        invariant
            i <= ports@.len(),
            results@.len() == i,
            forall|k: int|
                0 <= k < i ==> (#[trigger] results@[k]).name@ == ports@[k].0@ && results@[k].port
                    == ports@[k].1,
        decreases ports@.len() - i,
    {
        let ghost before = results@;
        results.push(QueryResult { name: ports[i].0.clone(), port: ports[i].1 });
        proof {
            assert forall|k: int| 0 <= k < i implies results@[k] == before[k] by {}
        }
        i += 1;
    }
    results
}

/// What is shown in place of what is not known.
pub open spec fn missing_text() -> Seq<char> {
    "---"@
}

/// A process id as shown: its number, or dashes where it is not known.
pub open spec fn pid_shown(pid: Option<i32>) -> Seq<char> {
    match pid {
        Some(id) => signed_digits(id as int),
        None => missing_text(),
    }
}

/// A name as shown: itself, or dashes where there is none.
pub open spec fn name_shown(name: Option<String>) -> Seq<char> {
    match name {
        Some(text) => text@,
        None => missing_text(),
    }
}

/// A status as shown.
pub open spec fn status_shown(status: PortStatus) -> Seq<char> {
    match status {
        PortStatus::Active => "ACTIVE"@,
        PortStatus::Idle => "IDLE"@,
    }
}

/// A slot as shown in a query: its name, `=`, and its port.
pub open spec fn slot_shown(slot: (String, Port)) -> Seq<char> {
    slot.0@ + seq!['='] + decimal_digits(slot.1.number() as nat)
}

/// The slots as shown in a query: one after the other, a space between.
pub open spec fn slots_shown(slots: Seq<(String, Port)>) -> Seq<char>
    decreases slots.len(),
{
    if slots.len() == 0 {
        Seq::empty()
    } else if slots.len() == 1 {
        slot_shown(slots[0])
    } else {
        slots_shown(slots.drop_last()) + seq![' '] + slot_shown(slots.last())
    }
}

/// The answer to a query as shown: the bare port where one slot was asked
/// for and found, else the slots with their names.
pub open spec fn query_shown(slots: Seq<(String, Port)>, single_value: bool) -> Seq<char> {
    if single_value && slots.len() == 1 {
        decimal_digits(slots[0].1.number() as nat)
    } else {
        slots_shown(slots)
    }
}

/// The text for a process id.
pub fn pid_text(pid: Option<i32>) -> (text: String)
    ensures
        text@ == pid_shown(pid),
{
    match pid {
        Some(id) => i32_to_string(id),
        None => String::from_str("---"),
    }
}

/// The text for a name that may be missing.
pub fn name_text(name: &Option<String>) -> (text: String)
    ensures
        text@ == name_shown(*name),
{
    match name {
        Some(known) => known.clone(),
        None => String::from_str("---"),
    }
}

/// The text for a status.
pub fn status_text(status: PortStatus) -> (text: String)
    ensures
        text@ == status_shown(status),
{
    match status {
        PortStatus::Active => String::from_str("ACTIVE"),
        PortStatus::Idle => String::from_str("IDLE"),
    }
}

/// The cells of the table row for an allocated port: project, name, port,
/// status, process id and process name.
pub fn allocated_port_cells(info: &AllocatedPortInfo) -> (cells: Vec<String>)
    ensures
        cells@.len() == 6,
        cells@[0]@ == info.project@,
        cells@[1]@ == info.name@,
        cells@[2]@ == decimal_digits(info.port.number() as nat),
        cells@[3]@ == status_shown(info.status),
        cells@[4]@ == pid_shown(info.pid),
        cells@[5]@ == name_shown(info.process_name),
{
    let mut cells: Vec<String> = Vec::new();
    cells.push(info.project.clone());
    cells.push(info.name.clone());
    cells.push(info.port.to_string());
    cells.push(status_text(info.status));
    cells.push(pid_text(info.pid));
    cells.push(name_text(&info.process_name));
    cells
}

/// The cells of the table row for a listening port: port, project, name,
/// process id and process name.
pub fn status_port_cells(info: &StatusPortInfo) -> (cells: Vec<String>)
    ensures
        cells@.len() == 5,
        cells@[0]@ == decimal_digits(info.port.number() as nat),
        cells@[1]@ == name_shown(info.project),
        cells@[2]@ == name_shown(info.name),
        cells@[3]@ == pid_shown(info.pid),
        cells@[4]@ == name_shown(info.process),
{
    let mut cells: Vec<String> = Vec::new();
    cells.push(info.port.to_string());
    cells.push(name_text(&info.project));
    cells.push(name_text(&info.name));
    cells.push(pid_text(info.pid));
    cells.push(name_text(&info.process));
    cells
}

/// The text for a range: its start, `-`, and its end.
pub fn range_text(range: &RangeInfo) -> (text: String)
    ensures
        text@ == decimal_digits(range.start as nat) + seq!['-'] + decimal_digits(range.end as nat),
{
    proof {
        reveal_strlit("-");
        assert("-"@ =~= seq!['-']);
    }
    let mut text = u16_to_string(range.start);
    text.append("-");
    let end = u16_to_string(range.end);
    text.append(end.as_str());
    text
}

/// The text for the answer to a query.
pub fn query_text(ports: &[(String, Port)], single_value: bool) -> (text: String)
    ensures
        text@ == query_shown(ports@, single_value),
{
    if single_value && ports.len() == 1 {
        return ports[0].1.to_string();
    }
    proof {
        reveal_strlit("=");
        reveal_strlit(" ");
        assert("="@ =~= seq!['=']);
        assert(" "@ =~= seq![' ']);
    }
    let mut text = String::new();
    let mut i: usize = 0;
    while i < ports.len()
        invariant
            i <= ports@.len(),
            "="@ == seq!['='],
            " "@ == seq![' '],
            text@ == slots_shown(ports@.take(i as int)),
        decreases ports@.len() - i,
    {
        proof {
            assert(ports@.take(i + 1).drop_last() =~= ports@.take(i as int));
            assert(ports@.take(i + 1).last() == ports@[i as int]);
            if i == 0 {
                assert(ports@.take(1)[0] == ports@[0]);
            }
        }
        let ghost before = text@;
        if i > 0 {
            text.append(" ");
        }
        text.append(ports[i].0.as_str());
        text.append("=");
        let number = ports[i].1.to_string();
        text.append(number.as_str());
        proof {
            let shown = slot_shown(ports@[i as int]);
            if i == 0 {
                assert(text@ =~= shown);
            } else {
                assert(text@ =~= before + seq![' '] + shown);
            }
        }
        i += 1;
    }
    proof {
        assert(ports@.take(ports@.len() as int) =~= ports@);
    }
    text
}

/// The texts for suggested ports, one for each.
pub fn suggestion_texts(ports: &[Port]) -> (texts: Vec<String>)
    ensures
        texts@.len() == ports@.len(),
        forall|i: int|
            0 <= i < ports@.len() ==> (#[trigger] texts@[i])@ == decimal_digits(
                ports@[i].number() as nat,
            ),
{
    let mut texts: Vec<String> = Vec::new();
    let mut i: usize = 0;
    while i < ports.len()
        invariant
            i <= ports@.len(),
            texts@.len() == i,
            forall|k: int|
                0 <= k < i ==> (#[trigger] texts@[k])@ == decimal_digits(ports@[k].number() as nat),
        decreases ports@.len() - i,
    {
        let ghost before = texts@;
        texts.push(ports[i].to_string());
        proof {
            assert forall|k: int| 0 <= k < i implies texts@[k] == before[k] by {}
        }
        i += 1;
    }
    texts
}

} // verus!
