//! The registry: port ranges by type name, and projects with their named
//! port slots.

use crate::name_map::{has_name, index_of_name, lemma_name_position, NameMap};
use crate::names::{name_before, name_not_after};
use crate::port::Port;
use vstd::prelude::*;
use vstd::string::StringExecFns;

verus! {

/// A project: its port slots by name.
#[derive(Debug, Clone, PartialEq, Eq)]
pub struct Project {
    /// The port of each named slot.
    pub ports: NameMap<Port>,
}

/// The configured defaults: a port range for each range type.
#[derive(Debug, Clone, PartialEq, Eq)]
pub struct Defaults {
    /// First and last port of each range type.
    pub ranges: NameMap<[u16; 2]>,
}

/// All port allocations and the ranges that new ones are drawn from.
#[derive(Debug, Clone, PartialEq, Eq)]
pub struct Registry {
    /// The port ranges by type name.
    pub defaults: Defaults,
    /// The projects by name.
    pub projects: NameMap<Project>,
}

/// What a registry holds, as plain maps: the bounds of each range type, and
/// the port number of each slot of each project.
pub struct RegistryView {
    /// First and last port of each range type.
    pub ranges: Map<Seq<char>, (u16, u16)>,
    /// The port number of each slot of each project.
    pub projects: Map<Seq<char>, Map<Seq<char>, u16>>,
}

/// `(p, n)` is the slot `(p2, n2)` or comes before it, projects first, in name
/// order.
pub open spec fn slot_not_after(p: Seq<char>, n: Seq<char>, p2: Seq<char>, n2: Seq<char>) -> bool {
    name_before(p, p2) || (p == p2 && name_not_after(n, n2))
}

/// The slot `slot` of `project` holds `port`, and no slot before it in name
/// order does.
pub open spec fn is_first_owner(
    registry: RegistryView,
    project: Seq<char>,
    slot: Seq<char>,
    port: u16,
) -> bool {
    &&& registry.holds(project, slot, port)
    &&& forall|p2: Seq<char>, n2: Seq<char>| #[trigger]
        registry.holds(p2, n2, port) ==> slot_not_after(project, slot, p2, n2)
}

impl RegistryView {
    /// The range that ports of type `port_type` are drawn from: its own, else
    /// that of the type `default`, else 9000 to 9999.
    pub open spec fn range_for(self, port_type: Seq<char>) -> (u16, u16) {
        if self.ranges.contains_key(port_type) {
            self.ranges[port_type]
        } else if self.ranges.contains_key("default"@) {
            self.ranges["default"@]
        } else {
            (9000, 9999)
        }
    }

    /// The project `project` has a slot named `slot`.
    pub open spec fn has_slot(self, project: Seq<char>, slot: Seq<char>) -> bool {
        self.projects.contains_key(project) && self.projects[project].contains_key(slot)
    }

    /// The slot `slot` of `project` holds `port`.
    pub open spec fn holds(self, project: Seq<char>, slot: Seq<char>, port: u16) -> bool {
        self.has_slot(project, slot) && self.projects[project][slot] == port
    }

    /// Some slot of some project holds `port`.
    pub open spec fn is_allocated(self, port: u16) -> bool {
        exists|project: Seq<char>, slot: Seq<char>| self.holds(project, slot, port)
    }

    /// No port is held by two slots.
    pub open spec fn ports_distinct(self) -> bool {
        forall|p1: Seq<char>, n1: Seq<char>, p2: Seq<char>, n2: Seq<char>|
            #![trigger self.has_slot(p1, n1), self.has_slot(p2, n2)]
            self.has_slot(p1, n1) && self.has_slot(p2, n2) && self.projects[p1][n1]
                == self.projects[p2][n2] ==> p1 == p2 && n1 == n2
    }

    /// No project is without slots.
    pub open spec fn no_empty_project(self) -> bool {
        forall|p: Seq<char>| #[trigger]
            self.projects.contains_key(p) ==> self.projects[p] != Map::<Seq<char>, u16>::empty()
    }

    /// The slots of `project`, none if there is no such project.
    pub open spec fn slots_of(self, project: Seq<char>) -> Map<Seq<char>, u16> {
        if self.projects.contains_key(project) {
            self.projects[project]
        } else {
            Map::empty()
        }
    }

    /// The registry after `slot` of `project` was bound to `port`.
    pub open spec fn bind(self, project: Seq<char>, slot: Seq<char>, port: u16) -> RegistryView {
        RegistryView {
            ranges: self.ranges,
            projects: self.projects.insert(project, self.slots_of(project).insert(slot, port)),
        }
    }

    /// The registry after `project` was taken out with all its slots.
    pub open spec fn drop_project(self, project: Seq<char>) -> RegistryView {
        RegistryView { ranges: self.ranges, projects: self.projects.remove(project) }
    }

    /// The registry after `slot` of `project` was released; a project left
    /// without slots goes too.
    pub open spec fn release(self, project: Seq<char>, slot: Seq<char>) -> RegistryView {
        let rest = self.slots_of(project).remove(slot);
        if rest == Map::<Seq<char>, u16>::empty() {
            self.drop_project(project)
        } else {
            RegistryView { ranges: self.ranges, projects: self.projects.insert(project, rest) }
        }
    }

    /// The registry after the range of `port_type` was set.
    pub open spec fn with_range(self, port_type: Seq<char>, start: u16, end: u16) -> RegistryView {
        RegistryView {
            ranges: self.ranges.insert(port_type, (start, end)),
            projects: self.projects,
        }
    }
}

impl View for Project {
    type V = Map<Seq<char>, u16>;

    /// The port number of each slot.
    open spec fn view(&self) -> Map<Seq<char>, u16> {
        Map::new(
            |n: Seq<char>| self.ports@.contains_key(n),
            |n: Seq<char>| self.ports@[n].number(),
        )
    }
}

impl View for Defaults {
    type V = Map<Seq<char>, (u16, u16)>;

    /// The bounds of each range type.
    open spec fn view(&self) -> Map<Seq<char>, (u16, u16)> {
        Map::new(
            |n: Seq<char>| self.ranges@.contains_key(n),
            |n: Seq<char>| (self.ranges@[n][0], self.ranges@[n][1]),
        )
    }
}

impl View for Registry {
    type V = RegistryView;

    open spec fn view(&self) -> RegistryView {
        RegistryView {
            ranges: self.defaults@,
            projects: Map::new(
                |p: Seq<char>| self.projects@.contains_key(p),
                |p: Seq<char>| self.projects@[p]@,
            ),
        }
    }
}

/// The range table of a fresh registry.
pub open spec fn default_range_table() -> Map<Seq<char>, (u16, u16)> {
    Map::<Seq<char>, (u16, u16)>::empty().insert("web"@, (8000u16, 8999u16)).insert(
        "api"@,
        (3000u16, 3999u16),
    ).insert("db"@, (5400u16, 5499u16)).insert("cache"@, (6300u16, 6399u16)).insert(
        "default"@,
        (9000u16, 9999u16),
    )
}

/// The ports of `slots`, in the order of the slots.
pub open spec fn slot_ports(slots: Seq<(Seq<char>, Port)>) -> Seq<Port> {
    Seq::new(slots.len(), |i: int| slots[i].1)
}

/// The ports of all slots of `projects`, project after project.
pub open spec fn project_ports(projects: Seq<(Seq<char>, Project)>) -> Seq<Port>
    decreases projects.len(),
{
    if projects.len() == 0 {
        Seq::empty()
    } else {
        project_ports(projects.drop_last()) + slot_ports(projects.last().1.ports.pairs())
    }
}

/// A port is among the ports of the slots of `projects` exactly if one of
/// the slots holds it.
pub proof fn lemma_project_ports_members(projects: Seq<(Seq<char>, Project)>, port: Port)
    ensures
        project_ports(projects).contains(port) <==> exists|i: int, j: int|
            0 <= i < projects.len() && 0 <= j < projects[i].1.ports.pairs().len() && (
            #[trigger] projects[i].1.ports.pairs()[j]).1 == port,
    decreases projects.len(),
{
    let all = project_ports(projects);
    if projects.len() > 0 {
        let front = projects.drop_last();
        let inner = project_ports(front);
        let slots = projects.last().1.ports.pairs();
        let tail = slot_ports(slots);
        lemma_project_ports_members(front, port);
        if all.contains(port) {
            let k = choose|k: int| 0 <= k < all.len() && all[k] == port;
            if k < inner.len() {
                assert(inner[k] == port);
                assert(inner.contains(port));
                let (i, j) = choose|i: int, j: int|
                    0 <= i < front.len() && 0 <= j < front[i].1.ports.pairs().len() && (
                    #[trigger] front[i].1.ports.pairs()[j]).1 == port;
                assert(projects[i] == front[i]);
            } else {
                assert(tail[k - inner.len()] == port);
                assert(projects[projects.len() - 1].1.ports.pairs()[k - inner.len()].1 == port);
            }
        }
        if exists|i: int, j: int|
            0 <= i < projects.len() && 0 <= j < projects[i].1.ports.pairs().len() && (
            #[trigger] projects[i].1.ports.pairs()[j]).1 == port {
            let (i, j) = choose|i: int, j: int|
                0 <= i < projects.len() && 0 <= j < projects[i].1.ports.pairs().len() && (
                #[trigger] projects[i].1.ports.pairs()[j]).1 == port;
            if i < front.len() {
                assert(front[i] == projects[i]);
                assert(front[i].1.ports.pairs()[j].1 == port);
                assert(inner.contains(port));
                let k = choose|k: int| 0 <= k < inner.len() && inner[k] == port;
                assert(all[k] == port);
            } else {
                assert(tail[j] == port);
                assert(all[inner.len() + j] == port);
            }
        }
    }
}

/// A port is among the allocated ports exactly if a slot holds its number.
pub proof fn lemma_allocated_ports_members(registry: Registry, port: Port)
    requires
        registry.projects.wf(),
        forall|i: int|
            0 <= i < registry.projects.pairs().len() ==> (
            #[trigger] registry.projects.pairs()[i]).1.ports.wf(),
    ensures
        registry.allocated_ports().contains(port) <==> registry@.is_allocated(port.number()),
{
    let all = registry.projects.pairs();
    lemma_project_ports_members(all, port);
    if registry.allocated_ports().contains(port) {
        let (i, j) = choose|i: int, j: int|
            0 <= i < all.len() && 0 <= j < all[i].1.ports.pairs().len() && (
            #[trigger] all[i].1.ports.pairs()[j]).1 == port;
        let slots = all[i].1.ports.pairs();
        lemma_name_position(all, i);
        lemma_name_position(slots, j);
        assert(registry@.holds(all[i].0, slots[j].0, port.number()));
    }
    if registry@.is_allocated(port.number()) {
        let (p, n) = choose|p: Seq<char>, n: Seq<char>| registry@.holds(p, n, port.number());
        assert(has_name(all, p));
        let i = index_of_name(all, p);
        let slots = all[i].1.ports.pairs();
        assert(has_name(slots, n));
        let j = index_of_name(slots, n);
        Port::lemma_same_number(slots[j].1, port);
        assert(all[i].1.ports.pairs()[j].1 == port);
    }
}

impl Default for Project {
    /// A project without slots.
    fn default() -> (p: Project)
        ensures
            p.ports@ == Map::<Seq<char>, Port>::empty(),
            p@ == Map::<Seq<char>, u16>::empty(),
    {
        let p = Project { ports: NameMap::new() };
        proof {
            assert(p@ =~= Map::<Seq<char>, u16>::empty());
        }
        p
    }
}

/// The ranges of a fresh registry: one for each of the common port types.
fn default_ranges() -> (ranges: NameMap<[u16; 2]>)
    ensures
        (Defaults { ranges })@ == default_range_table(),
{
    let mut ranges: NameMap<[u16; 2]> = NameMap::new();
    ranges.insert(String::from_str("web"), [8000, 8999]);
    ranges.insert(String::from_str("api"), [3000, 3999]);
    ranges.insert(String::from_str("db"), [5400, 5499]);
    ranges.insert(String::from_str("cache"), [6300, 6399]);
    ranges.insert(String::from_str("default"), [9000, 9999]);
    proof {
        assert((Defaults { ranges })@ =~= default_range_table());
    }
    ranges
}

impl Default for Defaults {
    /// The ranges of the common port types.
    fn default() -> (d: Defaults)
        ensures
            d@ == default_range_table(),
    {
        Defaults { ranges: default_ranges() }
    }
}

impl Default for Registry {
    /// A registry with the default ranges and no project.
    fn default() -> (r: Registry)
        ensures
            r@.ranges == default_range_table(),
            r@.projects == Map::<Seq<char>, Map<Seq<char>, u16>>::empty(),
    {
        let r = Registry { defaults: Defaults::default(), projects: NameMap::new() };
        proof {
            assert(r@.projects =~= Map::<Seq<char>, Map<Seq<char>, u16>>::empty());
        }
        r
    }
}

impl Registry {
    /// Every map of the registry is in name order.
    pub open spec fn wf(&self) -> bool {
        &&& self.defaults.ranges.wf()
        &&& self.projects.wf()
        &&& forall|i: int|
            0 <= i < self.projects.pairs().len() ==> (
            #[trigger] self.projects.pairs()[i]).1.ports.wf()
    }

    /// The ports of all slots, project after project and slot after slot in
    /// name order.
    pub open spec fn allocated_ports(&self) -> Seq<Port> {
        project_ports(self.projects.pairs())
    }

    /// The range for a port type, falling back to the type `default`.
    pub fn get_range(&self, port_type: &str) -> (range: [u16; 2])
        ensures
            (range[0], range[1]) == self@.range_for(port_type@),
    {
        match self.defaults.ranges.get(port_type) {
            Some(range) => *range,
            None => match self.defaults.ranges.get("default") {
                Some(range) => *range,
                None => [9000, 9999],
            },
        }
    }

    /// All allocated ports.
    pub fn all_allocated_ports(&self) -> (ports: Vec<Port>)
        ensures
            ports@ == self.allocated_ports(),
            forall|port: Port| #[trigger]
                ports@.contains(port) <==> self@.is_allocated(port.number()),
    {
        let mut ports: Vec<Port> = Vec::new();
        let n = self.projects.len();
        let mut i: usize = 0;
        while i < n
            invariant
                i <= n,
                n == self.projects.pairs().len(),
                ports@ == project_ports(self.projects.pairs().take(i as int)),
                forall|k: int| 0 <= k < i ==> (#[trigger] self.projects.pairs()[k]).1.ports.wf(),
            decreases n - i,
        {
            let project = self.projects.value_at(i);
            let m = project.ports.len();
            let ghost before = ports@;
            let mut j: usize = 0;
            while j < m
                invariant
                    j <= m,
                    m == project.ports.pairs().len(),
                    ports@ == before + slot_ports(project.ports.pairs().take(j as int)),
                decreases m - j,
            {
                ports.push(*project.ports.value_at(j));
                proof {
                    let slots = project.ports.pairs();
                    assert(slot_ports(slots.take(j + 1)) =~= slot_ports(slots.take(j as int)).push(
                        slots[j as int].1,
                    ));
                }
                j += 1;
            }
            proof {
                let all = self.projects.pairs();
                assert(project.ports.pairs().take(m as int) =~= project.ports.pairs());
                assert(all.take(i + 1).drop_last() =~= all.take(i as int));
                assert(all.take(i + 1).last() == all[i as int]);
            }
            i += 1;
        }
        proof {
            assert(self.projects.pairs().take(n as int) =~= self.projects.pairs());
            assert forall|port: Port| #[trigger]
                ports@.contains(port) <==> self@.is_allocated(port.number()) by {
                lemma_allocated_ports_members(*self, port);
            }
        }
        ports
    }

    /// The project and slot that hold `port`: the first in name order, if
    /// several do.
    pub fn find_port_owner(&self, port: Port) -> (owner: Option<(&str, &str)>)
        ensures
            match owner {
                Some((p, n)) => is_first_owner(self@, p@, n@, port.number()),
                None => !self@.is_allocated(port.number()),
            },
    {
        let n = self.projects.len();
        let ghost all = self.projects.pairs();
        let mut i: usize = 0;
        while i < n
            invariant
                i <= n,
                n == all.len(),
                all == self.projects.pairs(),
                self.projects.wf(),
                forall|a: int, b: int|
                    0 <= a < i && 0 <= b < all[a].1.ports.pairs().len() ==> (
                    #[trigger] all[a].1.ports.pairs()[b]).1 != port,
            decreases n - i,
        {
            let project = self.projects.value_at(i);
            let m = project.ports.len();
            let ghost slots = project.ports.pairs();
            let mut j: usize = 0;
            while j < m
                invariant
                    j <= m,
                    i < n,
                    n == all.len(),
                    all == self.projects.pairs(),
                    self.projects.wf(),
                    *project == all[i as int].1,
                    slots == project.ports.pairs(),
                    project.ports.wf(),
                    m == slots.len(),
                    forall|a: int, b: int|
                        0 <= a < i && 0 <= b < all[a].1.ports.pairs().len() ==> (
                        #[trigger] all[a].1.ports.pairs()[b]).1 != port,
                    forall|b: int| 0 <= b < j ==> (#[trigger] slots[b]).1 != port,
                decreases m - j,
            {
                if *project.ports.value_at(j) == port {
                    let p = self.projects.name_at(i).as_str();
                    let s = project.ports.name_at(j).as_str();
                    proof {
                        lemma_name_position(all, i as int);
                        lemma_name_position(slots, j as int);
                        assert(self@.holds(p@, s@, port.number()));
                        assert forall|p2: Seq<char>, n2: Seq<char>|
                            self@.holds(p2, n2, port.number()) implies slot_not_after(
                            p@,
                            s@,
                            p2,
                            n2,
                        ) by {
                            let a = index_of_name(all, p2);
                            assert(has_name(all, p2));
                            let slots2 = all[a].1.ports.pairs();
                            assert(has_name(slots2, n2));
                            let b = index_of_name(slots2, n2);
                            Port::lemma_same_number(slots2[b].1, port);
                            if a == i as int {
                                if b < j {
                                    assert(slots[b].1 != port);
                                } else if b > j {
                                    assert(name_before(slots[j as int].0, slots[b].0));
                                }
                            } else if a < i {
                                assert(all[a].1.ports.pairs()[b].1 != port);
                            } else {
                                assert(name_before(all[i as int].0, all[a].0));
                            }
                        }
                    }
                    return Some((p, s));
                }
                j += 1;
            }
            i += 1;
        }
        proof {
            if self@.is_allocated(port.number()) {
                let (p2, n2) = choose|p2: Seq<char>, n2: Seq<char>|
                    self@.holds(p2, n2, port.number());
                let a = index_of_name(all, p2);
                assert(has_name(all, p2));
                let slots2 = all[a].1.ports.pairs();
                assert(has_name(slots2, n2));
                let b = index_of_name(slots2, n2);
                Port::lemma_same_number(slots2[b].1, port);
                assert(all[a].1.ports.pairs()[b].1 != port);
            }
        }
        None
    }
}

} // verus!
