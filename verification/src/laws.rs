//! What holds of the operations taken together.

use crate::error::{Error, RegistryError};
use crate::model::{is_first_owner, lemma_allocated_ports_members, Registry, RegistryView};
use crate::names::{
    lemma_bytes_comparable_from, lemma_encoding_injective, lemma_name_before_asymmetric,
    lemma_name_before_transitive, name_before,
};
use crate::port::{port_of_number, InvalidPortError, Port};
use crate::ports::{live_numbers, ListeningPort};
use crate::registry::{
    free_ports, is_allocation_outcome, is_free, is_query_answer, is_range_outcome,
    range_spec_parts, suggestions,
};
use crate::text::{
    decimal_digits, i32_value, lemma_decimal_digits_value, lemma_read_back_u16, signed_digits,
    u16_value,
};
use crate::document::{
    bindings, is_document_of, is_reading_of, lemma_bindings_of_ordered, listed_projects,
    listed_ranges, project_bindings, range_bindings, RegistryDocument,
};
use crate::name_map::{
    entry_pairs, has_name, lemma_name_position, lemma_ordered_names_determined, pairs_map,
};
use crate::store::{start_of, step_of, under_lock, Action, Failure, Purpose, Session};
use vstd::prelude::*;
use vstd::utf8::encode_utf8;

verus! {

/// Names are in a strict total order: of two different names one comes
/// before the other, never both, and what comes before a name comes before
/// all that the name comes before.
pub proof fn law_names_are_totally_ordered(a: Seq<char>, b: Seq<char>, c: Seq<char>)
    ensures
        a == b || name_before(a, b) || name_before(b, a),
        !(name_before(a, b) && name_before(b, a)),
        !name_before(a, a),
        name_before(a, b) && name_before(b, c) ==> name_before(a, c),
{
    lemma_bytes_comparable_from(encode_utf8(a), encode_utf8(b), 0);
    if encode_utf8(a) == encode_utf8(b) {
        lemma_encoding_injective(a, b);
    }
    if name_before(a, b) {
        lemma_name_before_asymmetric(a, b);
        if name_before(b, c) {
            lemma_name_before_transitive(a, b, c);
        }
    }
    if name_before(a, a) {
        lemma_name_before_asymmetric(a, a);
    }
}

/// The list of all allocated ports holds exactly the ports that slots hold.
pub proof fn law_allocated_ports_are_the_held_ports(registry: Registry, port: Port)
    requires
        registry.wf(),
    ensures
        registry.allocated_ports().contains(port) <==> registry@.is_allocated(port.number()),
{
    lemma_allocated_ports_members(registry, port);
}

/// Every number from 1 to 65535 makes a port that stands for that number, and
/// zero makes none.
pub proof fn law_port_construction(value: u16)
    ensures
        value != 0 ==> port_of_number(value) is Ok && port_of_number(value)->Ok_0.number()
            == value,
        value == 0 ==> port_of_number(value) == Err::<Port, InvalidPortError>(
            InvalidPortError { value: 0 },
        ),
{
    Port::lemma_number_of(value);
}

/// Reading the decimal text of a port gives the number of that port.
pub proof fn law_port_text_round_trip(port: Port)
    ensures
        u16_value(decimal_digits(port.number() as nat)) == Some(port.number()),
{
    lemma_read_back_u16(port.number());
}

/// Reading the decimal text of a number gives the number.
pub proof fn law_number_text_round_trip(n: i32)
    ensures
        i32_value(signed_digits(n as int)) == Some(n),
{
    let size = if n < 0 {
        (-n) as nat
    } else {
        n as nat
    };
    lemma_decimal_digits_value(size);
    let digits = decimal_digits(size);
    let text = signed_digits(n as int);
    assert(crate::text::is_digit(digits[0]));
    if n < 0 {
        assert(text[0] == '-');
        assert(text.drop_first() =~= digits);
    }
}

/// The free ports of a range lie in the range, are free, ascend, and leave no
/// free port of the range out.
pub proof fn law_free_ports(registry: RegistryView, live: Set<u16>, lo: int, hi: int)
    ensures
        forall|i: int|
            0 <= i < free_ports(registry, live, lo, hi).len() ==> lo <= (
            #[trigger] free_ports(registry, live, lo, hi)[i]) < hi && is_free(
                registry,
                live,
                free_ports(registry, live, lo, hi)[i] as int,
            ),
        forall|i: int, j: int|
            0 <= i < j < free_ports(registry, live, lo, hi).len() ==> (#[trigger] free_ports(
                registry,
                live,
                lo,
                hi,
            )[i]) < (#[trigger] free_ports(registry, live, lo, hi)[j]),
        forall|x: int|
            lo <= x < hi && #[trigger] is_free(registry, live, x) ==> free_ports(
                registry,
                live,
                lo,
                hi,
            ).contains(x as u16),
    decreases hi - lo,
{
    let all = free_ports(registry, live, lo, hi);
    if hi > lo {
        law_free_ports(registry, live, lo, hi - 1);
        let inner = free_ports(registry, live, lo, hi - 1);
        assert forall|x: int|
            lo <= x < hi && #[trigger] is_free(registry, live, x) implies all.contains(
            x as u16,
        ) by {
            if x == hi - 1 {
                assert(all[all.len() - 1] == x as u16);
            } else {
                assert(inner.contains(x as u16));
                let k = choose|k: int| 0 <= k < inner.len() && inner[k] == x as u16;
                assert(all[k] == x as u16);
            }
        }
    }
}

/// The ports suggested from a range are free ports of that range in ascending
/// order, the lowest ones, and at most as many as were asked for.
pub proof fn law_suggestions(
    registry: RegistryView,
    live: Set<u16>,
    start: u16,
    end: u16,
    count: nat,
)
    ensures
        suggestions(registry, live, start, end, count).len() <= count,
        forall|i: int|
            0 <= i < suggestions(registry, live, start, end, count).len() ==> start <= (
            #[trigger] suggestions(registry, live, start, end, count)[i]) <= end && is_free(
                registry,
                live,
                suggestions(registry, live, start, end, count)[i] as int,
            ),
        forall|i: int, j: int|
            0 <= i < j < suggestions(registry, live, start, end, count).len() ==> (
            #[trigger] suggestions(registry, live, start, end, count)[i]) < (#[trigger] suggestions(
                registry,
                live,
                start,
                end,
                count,
            )[j]),
        count > 0 ==> forall|x: int|
            start <= x <= end && #[trigger] is_free(registry, live, x) ==> suggestions(
                registry,
                live,
                start,
                end,
                count,
            ).len() > 0 && (suggestions(registry, live, start, end, count).contains(x as u16)
                || suggestions(registry, live, start, end, count).last() < x),
{
    let all = free_ports(registry, live, start as int, end + 1);
    let picks = suggestions(registry, live, start, end, count);
    law_free_ports(registry, live, start as int, end + 1);
    assert forall|x: int|
        count > 0 && start <= x <= end && #[trigger] is_free(registry, live, x) implies picks.len()
        > 0 && (picks.contains(x as u16) || picks.last() < x) by {
        assert(all.contains(x as u16));
        let k = choose|k: int| 0 <= k < all.len() && all[k] == x as u16;
        if k < picks.len() {
            assert(picks[k] == x as u16);
        } else {
            assert(picks.last() == all[picks.len() - 1]);
        }
    }
}

/// A port that was allocated was free before: no slot held it and nothing
/// listened on it. The slot did not exist before, and holds the port after.
pub proof fn law_allocated_port_was_free(
    registry: RegistryView,
    project: Seq<char>,
    name: Seq<char>,
    port: Option<Port>,
    listening: Seq<ListeningPort>,
    r: Result<Port, Error>,
)
    requires
        is_allocation_outcome(registry, project, name, port, listening, r),
        r is Ok,
    ensures
        !registry.has_slot(project, name),
        !registry.is_allocated(r->Ok_0.number()),
        !live_numbers(listening).contains(r->Ok_0.number()),
        port is Some ==> r->Ok_0 == port->Some_0,
        port is None ==> registry.range_for(name).0 <= r->Ok_0.number() <= registry.range_for(
            name,
        ).1,
        registry.bind(project, name, r->Ok_0.number()).holds(project, name, r->Ok_0.number()),
{
    if port is None {
        let range = registry.range_for(name);
        law_suggestions(registry, live_numbers(listening), range.0, range.1, 1);
        let picks = suggestions(registry, live_numbers(listening), range.0, range.1, 1);
        assert(is_free(registry, live_numbers(listening), picks[0] as int));
    }
}

/// Allocation without a port in mind takes the lowest free port of the range.
pub proof fn law_allocation_is_first_fit(
    registry: RegistryView,
    project: Seq<char>,
    name: Seq<char>,
    listening: Seq<ListeningPort>,
    r: Result<Port, Error>,
    other: int,
)
    requires
        is_allocation_outcome(registry, project, name, None, listening, r),
        !registry.has_slot(project, name),
        registry.range_for(name).0 <= other <= registry.range_for(name).1,
        is_free(registry, live_numbers(listening), other),
    ensures
        r is Ok,
        r->Ok_0.number() <= other,
{
    let range = registry.range_for(name);
    let live = live_numbers(listening);
    law_suggestions(registry, live, range.0, range.1, 1);
    let picks = suggestions(registry, live, range.0, range.1, 1);
    if picks.contains(other as u16) {
        let k = choose|k: int| 0 <= k < picks.len() && picks[k] == other as u16;
        assert(k == 0);
    }
}

/// A port that some slot holds is not allocated again: asking for it on a new
/// slot name is refused, and the refusal names the first slot that holds it.
pub proof fn law_held_port_is_refused(
    registry: RegistryView,
    project: Seq<char>,
    name: Seq<char>,
    port: Port,
    listening: Seq<ListeningPort>,
    r: Result<Port, Error>,
)
    requires
        is_allocation_outcome(registry, project, name, Some(port), listening, r),
        registry.is_allocated(port.number()),
        !registry.has_slot(project, name),
    ensures
        r matches Err(
            Error::Registry(
                RegistryError::PortAlreadyAllocated { port: held, project: p, name: n },
            ),
        )
            && held == port && is_first_owner(registry, p@, n@, port.number()),
{
}

/// Binding a free port to a new slot keeps the ports of all slots distinct.
pub proof fn law_bind_keeps_ports_distinct(
    registry: RegistryView,
    project: Seq<char>,
    name: Seq<char>,
    port: u16,
)
    requires
        registry.ports_distinct(),
        !registry.is_allocated(port),
        !registry.has_slot(project, name),
    ensures
        registry.bind(project, name, port).ports_distinct(),
{
    let after = registry.bind(project, name, port);
    assert forall|p1: Seq<char>, n1: Seq<char>, p2: Seq<char>, n2: Seq<char>|
        #![trigger after.has_slot(p1, n1), after.has_slot(p2, n2)]
        after.has_slot(p1, n1) && after.has_slot(p2, n2) && after.projects[p1][n1]
            == after.projects[p2][n2] implies p1 == p2 && n1 == n2 by {
        let new1 = p1 == project && n1 == name;
        let new2 = p2 == project && n2 == name;
        if !new1 {
            assert(registry.has_slot(p1, n1));
            assert(after.projects[p1][n1] == registry.projects[p1][n1]);
            assert(registry.holds(p1, n1, registry.projects[p1][n1]));
        }
        if !new2 {
            assert(registry.has_slot(p2, n2));
            assert(after.projects[p2][n2] == registry.projects[p2][n2]);
            assert(registry.holds(p2, n2, registry.projects[p2][n2]));
        }
    }
}

/// An allocation keeps the ports of all slots distinct, whichever port it
/// hands out.
pub proof fn law_allocation_keeps_ports_distinct(
    registry: RegistryView,
    project: Seq<char>,
    name: Seq<char>,
    port: Option<Port>,
    listening: Seq<ListeningPort>,
    r: Result<Port, Error>,
)
    requires
        registry.ports_distinct(),
        is_allocation_outcome(registry, project, name, port, listening, r),
        r is Ok,
    ensures
        registry.bind(project, name, r->Ok_0.number()).ports_distinct(),
{
    law_allocated_port_was_free(registry, project, name, port, listening, r);
    law_bind_keeps_ports_distinct(registry, project, name, r->Ok_0.number());
}

/// Of two allocations, one after the other, the second gets another port
/// than the first, whatever is asked for and whatever is listened on.
pub proof fn law_successive_allocations_differ(
    registry: RegistryView,
    first: (Seq<char>, Seq<char>, Option<Port>, Seq<ListeningPort>),
    second: (Seq<char>, Seq<char>, Option<Port>, Seq<ListeningPort>),
    r1: Result<Port, Error>,
    r2: Result<Port, Error>,
)
    requires
        is_allocation_outcome(registry, first.0, first.1, first.2, first.3, r1),
        r1 is Ok,
        is_allocation_outcome(
            registry.bind(first.0, first.1, r1->Ok_0.number()),
            second.0,
            second.1,
            second.2,
            second.3,
            r2,
        ),
        r2 is Ok,
    ensures
        r1->Ok_0.number() != r2->Ok_0.number(),
{
    let after = registry.bind(first.0, first.1, r1->Ok_0.number());
    law_allocated_port_was_free(registry, first.0, first.1, first.2, first.3, r1);
    law_allocated_port_was_free(after, second.0, second.1, second.2, second.3, r2);
    assert(after.holds(first.0, first.1, r1->Ok_0.number()));
}

/// Releasing a slot keeps the ports of the remaining slots distinct.
pub proof fn law_release_keeps_ports_distinct(
    registry: RegistryView,
    project: Seq<char>,
    name: Seq<char>,
)
    requires
        registry.ports_distinct(),
    ensures
        registry.release(project, name).ports_distinct(),
        registry.drop_project(project).ports_distinct(),
{
    let after = registry.release(project, name);
    assert forall|p1: Seq<char>, n1: Seq<char>, p2: Seq<char>, n2: Seq<char>|
        #![trigger after.has_slot(p1, n1), after.has_slot(p2, n2)]
        after.has_slot(p1, n1) && after.has_slot(p2, n2) && after.projects[p1][n1]
            == after.projects[p2][n2] implies p1 == p2 && n1 == n2 by {
        assert(registry.has_slot(p1, n1));
        assert(registry.has_slot(p2, n2));
    }
    let gone = registry.drop_project(project);
    assert forall|p1: Seq<char>, n1: Seq<char>, p2: Seq<char>, n2: Seq<char>|
        #![trigger gone.has_slot(p1, n1), gone.has_slot(p2, n2)]
        gone.has_slot(p1, n1) && gone.has_slot(p2, n2) && gone.projects[p1][n1]
            == gone.projects[p2][n2] implies p1 == p2 && n1 == n2 by {
        assert(registry.has_slot(p1, n1));
        assert(registry.has_slot(p2, n2));
    }
}

/// No operation leaves a project without slots behind.
pub proof fn law_no_empty_project(
    registry: RegistryView,
    project: Seq<char>,
    name: Seq<char>,
    port: u16,
)
    requires
        registry.no_empty_project(),
    ensures
        registry.bind(project, name, port).no_empty_project(),
        registry.release(project, name).no_empty_project(),
        registry.drop_project(project).no_empty_project(),
{
    let bound = registry.bind(project, name, port);
    assert forall|p: Seq<char>| #[trigger] bound.projects.contains_key(p) implies bound.projects[p]
        != Map::<Seq<char>, u16>::empty() by {
        if p == project {
            assert(bound.projects[p].contains_key(name));
        } else {
            assert(registry.projects.contains_key(p));
        }
    }
    let released = registry.release(project, name);
    assert forall|p: Seq<char>| #[trigger]
        released.projects.contains_key(p) implies released.projects[p] != Map::<
        Seq<char>,
        u16,
    >::empty() by {
        if p != project {
            assert(registry.projects.contains_key(p));
        }
    }
    let gone = registry.drop_project(project);
    assert forall|p: Seq<char>| #[trigger] gone.projects.contains_key(p) implies gone.projects[p]
        != Map::<Seq<char>, u16>::empty() by {
        assert(registry.projects.contains_key(p));
    }
}

/// Once all slots of a project were freed, the project is gone: a query for
/// it, for one slot or for all, fails with the project not found.
pub proof fn law_query_after_free_all(
    before: Registry,
    after: Registry,
    project: Seq<char>,
    name: Option<Seq<char>>,
    answer: Result<Vec<(String, Port)>, Error>,
)
    requires
        after@ == before@.drop_project(project),
        is_query_answer(after, project, name, answer),
    ensures
        answer matches Err(Error::Registry(RegistryError::ProjectNotFound(p))) && p@ == project,
        forall|slot: Seq<char>, port: u16| !after@.holds(project, slot, port),
{
    assert(!after@.projects.contains_key(project));
}

/// A range specification with its start not below its end is refused, and so
/// is one without `=`, without `-` after it, or with a bound that is no
/// number.
pub proof fn law_range_rejections(text: Seq<char>, r: Result<(String, u16, u16), Error>)
    requires
        is_range_outcome(text, r),
    ensures
        r matches Ok(set) ==> set.1 < set.2,
        range_spec_parts(text) is None ==> r == Err::<(String, u16, u16), Error>(
            Error::Registry(RegistryError::InvalidRangeFormat),
        ),
        range_spec_parts(text) matches Some(parts) && (u16_value(parts.1) is None || u16_value(
            parts.2,
        ) is None) ==> r matches Err(Error::Registry(RegistryError::InvalidPortNumber(_))),
        range_spec_parts(text) matches Some(parts) && u16_value(parts.1) is Some && u16_value(
            parts.2,
        ) is Some && u16_value(parts.1)->Some_0 >= u16_value(parts.2)->Some_0 ==> r == Err::<
            (String, u16, u16),
            Error,
        >(
            Error::Registry(RegistryError::InvalidPortRange {
                start: u16_value(range_spec_parts(text)->Some_0.1)->Some_0,
                end: u16_value(range_spec_parts(text)->Some_0.2)->Some_0,
            }),
        ),
{
}

/// A registry that is written down and read back is the same registry.
pub proof fn law_document_round_trip(
    registry: RegistryView,
    document: RegistryDocument,
    back: Result<Registry, InvalidPortError>,
)
    requires
        is_document_of(document, registry),
        is_reading_of(document, back),
    ensures
        back matches Ok(read) && read@ == registry,
{
}

/// What is written down of a registry depends on what the registry holds
/// and on nothing else: two documents in name order that stand for the same
/// registry list the same ranges, projects and slots in the same order. So
/// registries that hold the same, however they were built, are written alike.
pub proof fn law_written_document_is_determined(a: RegistryDocument, b: RegistryDocument)
    requires
        a.ordered(),
        b.ordered(),
        a.registry() == b.registry(),
    ensures
        listed_ranges(a.ranges->Some_0@) == listed_ranges(b.ranges->Some_0@),
        listed_projects(a.projects->Some_0@) == listed_projects(b.projects->Some_0@),
{
    let ra = a.ranges->Some_0@;
    let rb = b.ranges->Some_0@;
    let pa = entry_pairs(ra);
    let pb = entry_pairs(rb);
    lemma_bindings_of_ordered(ra);
    lemma_bindings_of_ordered(rb);
    assert forall|n: Seq<char>| has_name(pa, n) <==> has_name(pb, n) by {
        assert(range_bindings(ra).contains_key(n) == range_bindings(rb).contains_key(n));
    }
    lemma_ordered_names_determined(pa, pb);
    assert forall|i: int| 0 <= i < ra.len() implies listed_ranges(ra)[i] == listed_ranges(
        rb,
    )[i] by {
        lemma_name_position(pa, i);
        lemma_name_position(pb, i);
        let n = pa[i].0;
        assert(pb[i].0 == n);
        assert(range_bindings(ra)[n] == range_bindings(rb)[n]);
    }
    assert(listed_ranges(ra) =~= listed_ranges(rb));

    let ja = a.projects->Some_0@;
    let jb = b.projects->Some_0@;
    let qa = entry_pairs(ja);
    let qb = entry_pairs(jb);
    lemma_bindings_of_ordered(ja);
    lemma_bindings_of_ordered(jb);
    assert forall|n: Seq<char>| has_name(qa, n) <==> has_name(qb, n) by {
        assert(project_bindings(ja).contains_key(n) == project_bindings(jb).contains_key(n));
    }
    lemma_ordered_names_determined(qa, qb);
    assert forall|i: int| 0 <= i < ja.len() implies listed_projects(ja)[i] == listed_projects(
        jb,
    )[i] by {
        lemma_name_position(qa, i);
        lemma_name_position(qb, i);
        let n = qa[i].0;
        assert(qb[i].0 == n);
        let sa = ja[i].1@;
        let sb = jb[i].1@;
        assert(project_bindings(ja)[n] == bindings(sa));
        assert(project_bindings(jb)[n] == bindings(sb));
        lemma_bindings_of_ordered(sa);
        lemma_bindings_of_ordered(sb);
        let ta = entry_pairs(sa);
        let tb = entry_pairs(sb);
        assert forall|m: Seq<char>| has_name(ta, m) <==> has_name(tb, m) by {
            assert(pairs_map(ta).contains_key(m) == pairs_map(tb).contains_key(m));
        }
        lemma_ordered_names_determined(ta, tb);
        assert forall|k: int| 0 <= k < ta.len() implies ta[k] == tb[k] by {
            lemma_name_position(ta, k);
            lemma_name_position(tb, k);
        }
        assert(ta =~= tb);
    }
    assert(listed_projects(ja) =~= listed_projects(jb));
}

/// The order in which a list names its entries does not matter: a list with
/// two neighbours of different names exchanged spells out the same map.
pub proof fn law_entry_order_is_immaterial<V>(entries: Seq<(String, V)>, i: int)
    requires
        0 <= i,
        i + 1 < entries.len(),
        entries[i].0@ != entries[i + 1].0@,
    ensures
        bindings(entries.update(i, entries[i + 1]).update(i + 1, entries[i])) == bindings(entries),
    decreases entries.len(),
{
    let swapped = entries.update(i, entries[i + 1]).update(i + 1, entries[i]);
    if i + 2 == entries.len() {
        let front = entries.drop_last().drop_last();
        assert(swapped.drop_last().drop_last() =~= front);
        assert(swapped.drop_last().last() == entries[i + 1]);
        assert(swapped.last() == entries[i]);
        assert(entries.drop_last().last() == entries[i]);
        assert(entries.last() == entries[i + 1]);
        assert(bindings(entries.drop_last()) == bindings(front).insert(
            entries[i].0@,
            entries[i].1,
        ));
        assert(bindings(swapped.drop_last()) == bindings(front).insert(
            entries[i + 1].0@,
            entries[i + 1].1,
        ));
        assert(bindings(swapped) =~= bindings(entries));
    } else {
        let front = entries.drop_last();
        law_entry_order_is_immaterial(front, i);
        assert(swapped.drop_last() =~= front.update(i, front[i + 1]).update(i + 1, front[i]));
        assert(swapped.last() == entries.last());
    }
}

/// The number of steps that a session has left at most.
pub open spec fn steps_left(session: Session) -> nat {
    let tail: nat = match session.action {
        Action::EnsureDirectory => 12,
        Action::OpenLock => 11,
        Action::AcquireLock => 10,
        Action::ProbeDocument => 9,
        Action::StartFresh => 5,
        Action::ReadDocument => 8,
        Action::ParseDocument => 7,
        Action::Mutate => 6,
        Action::Serialize => 4,
        Action::WriteTemp => 3,
        Action::SyncTemp => 2,
        Action::RenameTemp => 1,
        Action::Finish => 0,
    };
    if session.fresh || session.action is ProbeDocument || session.action is StartFresh
        || session.action is AcquireLock || session.action is OpenLock
        || session.action is EnsureDirectory {
        tail + 6
    } else {
        tail
    }
}

/// Nothing is looked at or written before the lock is taken: a step that
/// needs the lock follows the taking of the lock, or a step that needed it
/// too.
pub proof fn law_steps_under_lock(session: Session, ok: bool)
    requires
        under_lock(step_of(session, ok).action),
    ensures
        (session.action is AcquireLock && ok) || under_lock(session.action),
{
}

/// The document is replaced only by a temporary file that was written in
/// full and flushed: the rename follows a flush that succeeded, the flush a
/// write that succeeded, and the write the text of the registry.
pub proof fn law_write_then_flush_then_rename(session: Session, ok: bool)
    ensures
        step_of(session, ok).action is RenameTemp ==> session.action is SyncTemp && ok,
        step_of(session, ok).action is SyncTemp ==> session.action is WriteTemp && ok,
        step_of(session, ok).action is WriteTemp ==> session.action is Serialize && ok,
{
}

/// A change that was refused is not written: the session ends with that
/// failure, and nothing follows the end. What is written after a change is
/// written because the change succeeded, and a read-only session writes only
/// the default registry, where there was no document.
pub proof fn law_refused_change_is_not_written(session: Session, ok: bool)
    ensures
        session.action is Mutate && !ok ==> step_of(session, ok).action is Finish && step_of(
            session,
            ok,
        ).failure == Some(Failure::ChangeRefused),
        session.action is Finish ==> step_of(session, ok) == session,
        step_of(session, ok).action is Serialize ==> (session.action is Mutate && ok)
            || session.action is StartFresh || (session.action is AcquireLock && ok
            && session.purpose is Save),
        step_of(session, ok).action is Mutate ==> session.purpose is Transact,
{
}

/// A session ends with a failure exactly if one of its steps failed, and the
/// failure says which.
pub proof fn law_failure_is_reported(session: Session, ok: bool)
    requires
        session.failure is None,
        !(session.action is Finish),
    ensures
        step_of(session, ok).failure is Some <==> !ok && !(session.action is ProbeDocument)
            && !(session.action is StartFresh),
        step_of(session, ok).failure matches Some(f) ==> f == crate::store::failure_of(
            session.action,
        ) && step_of(session, ok).action is Finish,
{
}

/// Every session comes to its end: each step brings it closer.
pub proof fn law_sessions_end(session: Session, ok: bool)
    requires
        !(session.action is Finish),
    ensures
        steps_left(step_of(session, ok)) < steps_left(session),
        steps_left(start_of(session.purpose)) == 18,
{
}

} // verus!
