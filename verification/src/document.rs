//! The registry as it is written down: lists of names with plain numbers.
//!
//! A document has two sections, the ranges and the projects. A document
//! without ranges stands for the default ranges, one without projects for no
//! projects. Where a name occurs more than once in a list, its last entry
//! counts.

use crate::model::{default_range_table, Defaults, Project, Registry, RegistryView};
use crate::name_map::{
    entry_pairs, has_name, index_of_name, lemma_insert_in_gap, lemma_name_position,
    names_increasing, pairs_map, NameMap,
};
use crate::port::{InvalidPortError, Port};
use vstd::prelude::*;

verus! {

/// The content of a registry document.
#[derive(Debug, Clone, PartialEq, Eq)]
pub struct RegistryDocument {
    /// First and last port of each range type, if the section is there.
    pub ranges: Option<Vec<(String, [u16; 2])>>,
    /// The port number of each slot of each project, if the section is there.
    pub projects: Option<Vec<(String, Vec<(String, u16)>)>>,
}

/// The map that a list of named entries spells out; of two entries with one
/// name the later counts.
pub open spec fn bindings<V>(entries: Seq<(String, V)>) -> Map<Seq<char>, V>
    decreases entries.len(),
{
    if entries.len() == 0 {
        Map::empty()
    } else {
        bindings(entries.drop_last()).insert(entries.last().0@, entries.last().1)
    }
}

/// No slot of the list has port zero.
pub open spec fn slots_valid(slots: Seq<(String, u16)>) -> bool {
    forall|i: int| 0 <= i < slots.len() ==> (#[trigger] slots[i]).1 != 0
}

/// No slot of any project of the list has port zero.
pub open spec fn projects_valid(projects: Seq<(String, Vec<(String, u16)>)>) -> bool {
    forall|i: int| 0 <= i < projects.len() ==> slots_valid((#[trigger] projects[i]).1@)
}

/// The ranges that a list of ranges stands for.
pub open spec fn range_bindings(ranges: Seq<(String, [u16; 2])>) -> Map<Seq<char>, (u16, u16)> {
    Map::new(
        |n: Seq<char>| bindings(ranges).contains_key(n),
        |n: Seq<char>| (bindings(ranges)[n][0], bindings(ranges)[n][1]),
    )
}

/// The projects that a list of projects stands for.
pub open spec fn project_bindings(projects: Seq<(String, Vec<(String, u16)>)>) -> Map<
    Seq<char>,
    Map<Seq<char>, u16>,
> {
    Map::new(
        |p: Seq<char>| bindings(projects).contains_key(p),
        |p: Seq<char>| bindings(bindings(projects)[p]@),
    )
}

/// The ranges of a list, in the order of the list.
pub open spec fn listed_ranges(ranges: Seq<(String, [u16; 2])>) -> Seq<(Seq<char>, (u16, u16))> {
    Seq::new(ranges.len(), |i: int| (ranges[i].0@, (ranges[i].1[0], ranges[i].1[1])))
}

/// The projects of a list with their slots, in the order of the lists.
pub open spec fn listed_projects(projects: Seq<(String, Vec<(String, u16)>)>) -> Seq<
    (Seq<char>, Seq<(Seq<char>, u16)>),
> {
    Seq::new(projects.len(), |i: int| (projects[i].0@, entry_pairs(projects[i].1@)))
}

impl RegistryDocument {
    /// Both sections are there, and every list is in name order: the ranges,
    /// the projects, and the slots of each project.
    pub open spec fn ordered(&self) -> bool {
        &&& self.ranges matches Some(ranges)
        &&& names_increasing(entry_pairs(ranges@))
        &&& self.projects matches Some(projects)
        &&& names_increasing(entry_pairs(projects@))
        &&& forall|i: int|
            0 <= i < projects@.len() ==> names_increasing(
                entry_pairs((#[trigger] projects@[i]).1@),
            )
    }

    /// No slot of the document has port zero.
    pub open spec fn valid(&self) -> bool {
        match self.projects {
            Some(projects) => projects_valid(projects@),
            None => true,
        }
    }

    /// The registry that the document stands for.
    pub open spec fn registry(&self) -> RegistryView {
        RegistryView {
            ranges: match self.ranges {
                Some(ranges) => range_bindings(ranges@),
                None => default_range_table(),
            },
            projects: match self.projects {
                Some(projects) => project_bindings(projects@),
                None => Map::empty(),
            },
        }
    }
}

/// Whether `document` is the registry `registry` written down.
pub open spec fn is_document_of(document: RegistryDocument, registry: RegistryView) -> bool {
    document.valid() && document.registry() == registry
}

/// Whether `r` is what reading `document` gives: the registry it stands for,
/// or the refusal of a port of zero.
pub open spec fn is_reading_of(
    document: RegistryDocument,
    r: Result<Registry, InvalidPortError>,
) -> bool {
    if document.valid() {
        r matches Ok(registry) && registry@ == document.registry()
    } else {
        r == Err::<Registry, InvalidPortError>(InvalidPortError { value: 0 })
    }
}

/// A list in name order spells out the map of its pairs.
pub proof fn lemma_bindings_of_ordered<V>(entries: Seq<(String, V)>)
    requires
        names_increasing(entry_pairs(entries)),
    ensures
        bindings(entries) == pairs_map(entry_pairs(entries)),
    decreases entries.len(),
{
    let pairs = entry_pairs(entries);
    if entries.len() == 0 {
        assert(pairs_map(pairs) =~= Map::<Seq<char>, V>::empty());
    } else {
        let front = entries.drop_last();
        let inner = entry_pairs(front);
        assert(inner =~= pairs.drop_last());
        assert forall|i: int, j: int| 0 <= i < j < inner.len() implies crate::names::name_before(
            (#[trigger] inner[i]).0,
            (#[trigger] inner[j]).0,
        ) by {
            assert(inner[i] == pairs[i] && inner[j] == pairs[j]);
        }
        lemma_bindings_of_ordered(front);
        let last = (entries.last().0@, entries.last().1);
        assert forall|i: int| 0 <= i < inner.len() implies crate::names::name_before(
            (#[trigger] inner[i]).0,
            last.0,
        ) by {
            assert(inner[i] == pairs[i]);
            assert(pairs[pairs.len() - 1] == last);
        }
        lemma_insert_in_gap(inner, inner.len() as int, last.0, last.1);
        assert(inner.insert(inner.len() as int, last) =~= pairs);
    }
}

/// The slots of a list as a project, or the refusal of a port of zero.
fn project_of_slots(slots: &Vec<(String, u16)>) -> (r: Result<Project, InvalidPortError>)
    ensures
        slots_valid(slots@) ==> (r matches Ok(project) && project@ == bindings(slots@)),
        !slots_valid(slots@) ==> r == Err::<Project, InvalidPortError>(
            InvalidPortError { value: 0 },
        ),
{
    let mut project = Project::default();
    let mut i: usize = 0;
    while i < slots.len()
        invariant
            i <= slots@.len(),
            slots_valid(slots@.take(i as int)),
            project@ == bindings(slots@.take(i as int)),
        decreases slots@.len() - i,
    {
        let ghost before = project@;
        proof {
            assert(slots@.take(i + 1).drop_last() =~= slots@.take(i as int));
            assert(slots@.take(i + 1).last() == slots@[i as int]);
        }
        match Port::new(slots[i].1) {
            Ok(port) => {
                proof {
                    Port::lemma_number_of(slots@[i as int].1);
                }
                project.ports.insert(slots[i].0.clone(), port);
                proof {
                    assert(project@ =~= before.insert(slots@[i as int].0@, port.number()));
                    assert forall|k: int| 0 <= k < i + 1 implies (#[trigger] slots@.take(
                        i + 1,
                    )[k]).1 != 0 by {
                        if k < i {
                            assert(slots@.take(i as int)[k] == slots@[k]);
                        }
                    }
                }
            },
            Err(e) => {
                proof {
                    assert(slots@[i as int].1 == 0);
                }
                return Err(e);
            },
        }
        i += 1;
    }
    proof {
        assert(slots@.take(slots@.len() as int) =~= slots@);
    }
    Ok(project)
}

/// The ranges of a list as a map in name order.
fn ranges_of_list(list: &Vec<(String, [u16; 2])>) -> (ranges: NameMap<[u16; 2]>)
    ensures
        (Defaults { ranges })@ == range_bindings(list@),
{
    let mut ranges: NameMap<[u16; 2]> = NameMap::new();
    let mut i: usize = 0;
    while i < list.len()
        invariant
            i <= list@.len(),
            ranges@ == bindings(list@.take(i as int)),
        decreases list@.len() - i,
    {
        proof {
            assert(list@.take(i + 1).drop_last() =~= list@.take(i as int));
            assert(list@.take(i + 1).last() == list@[i as int]);
        }
        ranges.insert(list[i].0.clone(), list[i].1);
        i += 1;
    }
    proof {
        assert(list@.take(list@.len() as int) =~= list@);
        assert((Defaults { ranges })@ =~= range_bindings(list@));
    }
    ranges
}

impl Registry {
    /// The registry that a document stands for. A slot with port zero is
    /// refused.
    pub fn from_document(document: &RegistryDocument) -> (r: Result<Registry, InvalidPortError>)
        ensures
            is_reading_of(*document, r),
    {
        let defaults = match &document.ranges {
            Some(list) => Defaults { ranges: ranges_of_list(list) },
            None => Defaults::default(),
        };
        let mut projects: NameMap<Project> = NameMap::new();
        match &document.projects {
            Some(list) => {
                let mut i: usize = 0;
                while i < list.len()
                    invariant
                        i <= list@.len(),
                        document.projects == Some(*list),
                        projects_valid(list@.take(i as int)),
                        (Registry { defaults, projects })@.projects == project_bindings(
                            list@.take(i as int),
                        ),
                    decreases list@.len() - i,
                {
                    let ghost before = (Registry { defaults, projects })@.projects;
                    proof {
                        assert(list@.take(i + 1).drop_last() =~= list@.take(i as int));
                        assert(list@.take(i + 1).last() == list@[i as int]);
                    }
                    match project_of_slots(&list[i].1) {
                        Ok(project) => {
                            projects.insert(list[i].0.clone(), project);
                            proof {
                                assert((Registry { defaults, projects })@.projects
                                    =~= before.insert(list@[i as int].0@, project@));
                                assert(project_bindings(list@.take(i + 1)) =~= project_bindings(
                                    list@.take(i as int),
                                ).insert(list@[i as int].0@, bindings(list@[i as int].1@)));
                                assert forall|k: int| 0 <= k < i + 1 implies slots_valid(
                                    (#[trigger] list@.take(i + 1)[k]).1@,
                                ) by {
                                    if k < i {
                                        assert(list@.take(i as int)[k] == list@[k]);
                                    }
                                }
                            }
                        },
                        Err(e) => {
                            proof {
                                assert(!slots_valid(list@[i as int].1@));
                            }
                            return Err(e);
                        },
                    }
                    i += 1;
                }
                proof {
                    assert(list@.take(list@.len() as int) =~= list@);
                }
            },
            None => {
                proof {
                    assert((Registry { defaults, projects })@.projects =~= Map::<
                        Seq<char>,
                        Map<Seq<char>, u16>,
                    >::empty());
                }
            },
        }
        Ok(Registry { defaults, projects })
    }
}

/// The slots of a project as a list in name order.
fn slots_of_project(project: &Project) -> (slots: Vec<(String, u16)>)
    ensures
        slots_valid(slots@),
        bindings(slots@) == project@,
        names_increasing(entry_pairs(slots@)),
{
    let n = project.ports.len();
    let ghost pairs = project.ports.pairs();
    let mut slots: Vec<(String, u16)> = Vec::new();
    let mut i: usize = 0;
    while i < n
        invariant
            i <= n,
            n == pairs.len(),
            pairs == project.ports.pairs(),
            slots@.len() == i,
            forall|k: int|
                0 <= k < i ==> (#[trigger] slots@[k]).0@ == pairs[k].0 && slots@[k].1
                    == pairs[k].1.number() && slots@[k].1 != 0,
        decreases n - i,
    {
        let name = project.ports.name_at(i).clone();
        let number = project.ports.value_at(i).as_u16();
        let ghost before = slots@;
        slots.push((name, number));
        proof {
            assert forall|k: int| 0 <= k < i implies slots@[k] == before[k] by {}
        }
        i += 1;
    }
    proof {
        let listed = entry_pairs(slots@);
        assert forall|a: int, b: int| 0 <= a < b < listed.len() implies crate::names::name_before(
            (#[trigger] listed[a]).0,
            (#[trigger] listed[b]).0,
        ) by {
            assert(listed[a].0 == pairs[a].0 && listed[b].0 == pairs[b].0);
        }
        lemma_bindings_of_ordered(slots@);
        assert forall|name: Seq<char>| pairs_map(listed).contains_key(name)
            <==> project@.contains_key(name) by {
            if has_name(listed, name) {
                let k = index_of_name(listed, name);
                assert(pairs[k].0 == name);
            }
            if has_name(pairs, name) {
                let k = index_of_name(pairs, name);
                assert(listed[k].0 == name);
            }
        }
        assert forall|name: Seq<char>| pairs_map(listed).contains_key(name) implies pairs_map(
            listed,
        )[name] == project@[name] by {
            let k = index_of_name(listed, name);
            lemma_name_position(listed, k);
            assert(pairs[k].0 == name);
            lemma_name_position(pairs, k);
        }
        assert(pairs_map(listed) =~= project@);
    }
    slots
}

impl Registry {
    /// The registry written down: its ranges and its projects with their
    /// slots, each list in name order. Read back, it is the same registry.
    pub fn to_document(&self) -> (document: RegistryDocument)
        ensures
            is_document_of(document, self@),
            document.ordered(),
    {
        let n = self.defaults.ranges.len();
        let ghost range_pairs = self.defaults.ranges.pairs();
        let mut ranges: Vec<(String, [u16; 2])> = Vec::new();
        let mut i: usize = 0;
        while i < n
            invariant
                i <= n,
                n == range_pairs.len(),
                range_pairs == self.defaults.ranges.pairs(),
                entry_pairs(ranges@) == range_pairs.take(i as int),
            decreases n - i,
        {
            let name = self.defaults.ranges.name_at(i).clone();
            let range = *self.defaults.ranges.value_at(i);
            let ghost before = ranges@;
            ranges.push((name, range));
            proof {
                assert(entry_pairs(ranges@) =~= entry_pairs(before).push((name@, range)));
                assert(range_pairs.take(i + 1) =~= range_pairs.take(i as int).push(
                    range_pairs[i as int],
                ));
            }
            i += 1;
        }
        proof {
            assert(range_pairs.take(n as int) =~= range_pairs);
            lemma_bindings_of_ordered(ranges@);
            assert(range_bindings(ranges@) =~= self.defaults@);
        }
        let m = self.projects.len();
        let ghost pairs = self.projects.pairs();
        let mut projects: Vec<(String, Vec<(String, u16)>)> = Vec::new();
        let mut j: usize = 0;
        while j < m
            invariant
                j <= m,
                m == pairs.len(),
                pairs == self.projects.pairs(),
                projects@.len() == j,
                forall|k: int|
                    0 <= k < j ==> (#[trigger] projects@[k]).0@ == pairs[k].0 && slots_valid(
                        projects@[k].1@,
                    ) && bindings(projects@[k].1@) == pairs[k].1@ && names_increasing(
                        entry_pairs(projects@[k].1@),
                    ),
            decreases m - j,
        {
            let name = self.projects.name_at(j).clone();
            let slots = slots_of_project(self.projects.value_at(j));
            let ghost before = projects@;
            projects.push((name, slots));
            proof {
                assert forall|k: int| 0 <= k < j implies projects@[k] == before[k] by {}
            }
            j += 1;
        }
        proof {
            let listed = entry_pairs(projects@);
            assert forall|a: int, b: int|
                0 <= a < b < listed.len() implies crate::names::name_before(
                (#[trigger] listed[a]).0,
                (#[trigger] listed[b]).0,
            ) by {
                assert(listed[a].0 == pairs[a].0 && listed[b].0 == pairs[b].0);
            }
            lemma_bindings_of_ordered(projects@);
            let target = self@.projects;
            let got = project_bindings(projects@);
            assert forall|p: Seq<char>| got.contains_key(p) <==> target.contains_key(p) by {
                if has_name(listed, p) {
                    let k = index_of_name(listed, p);
                    assert(pairs[k].0 == p);
                }
                if has_name(pairs, p) {
                    let k = index_of_name(pairs, p);
                    assert(listed[k].0 == p);
                }
            }
            assert forall|p: Seq<char>| got.contains_key(p) implies got[p] == target[p] by {
                let k = index_of_name(listed, p);
                lemma_name_position(listed, k);
                assert(pairs[k].0 == p);
                lemma_name_position(pairs, k);
            }
            assert(got =~= target);
            assert forall|k: int| 0 <= k < projects@.len() implies slots_valid(
                (#[trigger] projects@[k]).1@,
            ) by {}
        }
        RegistryDocument { ranges: Some(ranges), projects: Some(projects) }
    }
}

} // verus!
