//! Decoding the system's table of TCP control blocks.
//!
//! The table is a byte buffer: a header that starts with its own length,
//! then one record per connection. Each record starts with its length, as the
//! header does, and holds the connection's state and local port at fixed
//! places. A length below the size of a record marks the trailer that ends
//! the table. Where those places are differs from system to system, so they
//! are given as a layout.

use crate::port::Port;
use crate::ports::{is_port_table, record_listener, ListeningPort, Owner};
use vstd::prelude::*;

verus! {

/// Where a control-block record keeps what is read from it.
#[derive(Debug, Clone, Copy, PartialEq, Eq)]
pub struct TableLayout {
    /// The size of a record; a shorter one is the trailer.
    pub record_size: usize,
    /// Where in a record the connection state stands, four bytes, lowest first.
    pub state_offset: usize,
    /// Where in a record the local port stands, two bytes, highest first.
    pub port_offset: usize,
    /// The state of a connection that listens.
    pub listen_state: u32,
}

impl TableLayout {
    /// A record has room for its length, and the state and the port lie
    /// inside it.
    pub open spec fn valid(&self) -> bool {
        &&& self.record_size >= 4
        &&& self.state_offset + 4 <= self.record_size
        &&& self.port_offset + 2 <= self.record_size
    }

    /// Whether the layout is valid.
    pub fn is_valid(&self) -> (b: bool)
        ensures
            b == self.valid(),
    {
        self.record_size >= 4 && self.state_offset <= self.record_size - 4 && self.port_offset
            <= self.record_size - 2
    }
}

/// The four bytes at `at`, read as a number with the lowest byte first.
pub open spec fn le_u32(bytes: Seq<u8>, at: int) -> int {
    bytes[at] + bytes[at + 1] * 0x100 + bytes[at + 2] * 0x1_0000 + bytes[at + 3] * 0x100_0000
}

/// The two bytes at `at`, read as a number with the highest byte first.
pub open spec fn be_u16(bytes: Seq<u8>, at: int) -> int {
    bytes[at] * 0x100 + bytes[at + 1]
}

/// The local ports of the listening records from `cursor` on, added to
/// `found`.
///
/// Reading stops at the trailer, and at a record that would reach beyond the
/// buffer. A port of zero is passed over.
pub open spec fn listeners_from(
    table: Seq<u8>,
    layout: TableLayout,
    cursor: int,
    found: Set<u16>,
) -> Set<u16>
    decreases table.len() - cursor,
{
    if !layout.valid() || cursor < 0 || cursor + 4 > table.len() {
        found
    } else {
        let length = le_u32(table, cursor);
        if length < layout.record_size || cursor + length > table.len() {
            found
        } else {
            let port = be_u16(table, cursor + layout.port_offset);
            let listens = le_u32(table, cursor + layout.state_offset) == layout.listen_state;
            listeners_from(
                table,
                layout,
                cursor + length,
                if listens && port != 0 {
                    found.insert(port as u16)
                } else {
                    found
                },
            )
        }
    }
}

/// The local ports of all listening records of a table. The records start
/// where the header, by its own length, ends.
pub open spec fn table_listeners(table: Seq<u8>, layout: TableLayout) -> Set<u16> {
    if table.len() < 4 {
        Set::empty()
    } else {
        listeners_from(table, layout, le_u32(table, 0), Set::empty())
    }
}

/// Each port of `ports` with nothing known of its process.
pub open spec fn unattributed(ports: Set<u16>) -> Map<u16, Owner> {
    Map::new(|n: u16| ports.contains(n), |n: u16| (None::<i32>, None::<Seq<char>>))
}

/// Reads four bytes as a number, lowest byte first.
pub fn read_le_u32(bytes: &[u8], at: usize) -> (n: u32)
    requires
        at + 4 <= bytes@.len(),
    ensures
        n == le_u32(bytes@, at as int),
{
    (bytes[at] as u32) + (bytes[at + 1] as u32) * 0x100 + (bytes[at + 2] as u32) * 0x1_0000 + (
    bytes[at + 3] as u32) * 0x100_0000
}

/// Reads two bytes as a number, highest byte first.
pub fn read_be_u16(bytes: &[u8], at: usize) -> (n: u16)
    requires
        at + 2 <= bytes@.len(),
    ensures
        n == be_u16(bytes@, at as int),
{
    (bytes[at] as u16) * 0x100 + (bytes[at + 1] as u16)
}

/// Decodes a table of control blocks: the ports that are listened on, in
/// ascending order, each once, with nothing known of the processes.
pub fn decode_table(table: &[u8], layout: &TableLayout) -> (list: Vec<ListeningPort>)
    ensures
        is_port_table(list@, unattributed(table_listeners(table@, *layout))),
{
    let mut list: Vec<ListeningPort> = Vec::new();
    let len = table.len();
    if len < 4 || !layout.is_valid() {
        proof {
            assert(unattributed(table_listeners(table@, *layout)) =~= Map::<u16, Owner>::empty());
        }
        return list;
    }
    let mut cursor: usize = read_le_u32(table, 0) as usize;
    let ghost mut found: Set<u16> = Set::empty();
    proof {
        assert(unattributed(found) =~= Map::<u16, Owner>::empty());
    }
    while cursor <= len - 4
        invariant
            len == table@.len(),
            len >= 4,
            layout.valid(),
            is_port_table(list@, unattributed(found)),
            table_listeners(table@, *layout) == listeners_from(
                table@,
                *layout,
                cursor as int,
                found,
            ),
        ensures
            is_port_table(list@, unattributed(table_listeners(table@, *layout))),
        decreases len - cursor,
    {
        let length = read_le_u32(table, cursor) as usize;
        if length < layout.record_size || length > len - cursor {
            proof {
                assert(listeners_from(table@, *layout, cursor as int, found) == found);
            }
            break;
        }
        let state = read_le_u32(table, cursor + layout.state_offset);
        let number = read_be_u16(table, cursor + layout.port_offset);
        if state == layout.listen_state {
            match Port::new(number) {
                Ok(port) => {
                    proof {
                        Port::lemma_number_of(number);
                        assert(crate::ports::first_owner_wins(
                            unattributed(found),
                            number,
                            (None, None),
                        ) =~= unattributed(found.insert(number)));
                        found = found.insert(number);
                    }
                    record_listener(&mut list, port, None, None);
                },
                Err(_) => {},
            }
        }
        cursor = cursor + length;
    }
    list
}

} // verus!
