//! Listening ports from what each process reports of its sockets.

use crate::port::Port;
use crate::ports::{
    first_owner_wins, is_port_table, record_listener, text_view, ListeningPort, Owner,
};
use crate::table::{be_u16, read_be_u16};
use vstd::prelude::*;

verus! {

/// The protocol number of TCP.
pub const TCP_PROTOCOL: i32 = 6;

/// A process with the local ports of its listening sockets.
#[derive(Debug, Clone, PartialEq, Eq)]
pub struct ProcessSockets {
    /// The process id.
    pub pid: i32,
    /// The name of the process, where it could be found.
    pub name: Option<String>,
    /// The local ports of its listening TCP sockets.
    pub ports: Vec<u16>,
}

/// The port that a socket listens on, if it does.
///
/// A socket listens if its protocol is TCP and it has room for waiting
/// connections. Its local port stands in the third and fourth byte of its
/// protocol information, highest byte first; a port of zero is no port.
pub open spec fn listening_port_of(protocol: i32, queue_limit: i16, info: Seq<u8>) -> Option<u16> {
    if protocol == TCP_PROTOCOL && queue_limit > 0 && info.len() >= 4 && be_u16(info, 2) != 0 {
        Some(be_u16(info, 2) as u16)
    } else {
        None
    }
}

/// The port that a socket listens on, if it does.
pub fn socket_listening_port(protocol: i32, queue_limit: i16, info: &[u8]) -> (r: Option<u16>)
    ensures
        r == listening_port_of(protocol, queue_limit, info@),
{
    if protocol != TCP_PROTOCOL || queue_limit <= 0 || info.len() < 4 {
        return None;
    }
    let port = read_be_u16(info, 2);
    if port == 0 {
        None
    } else {
        Some(port)
    }
}

/// `owners` after `owner` was recorded for each of `ports` in turn; a port of
/// zero is passed over, and a port that has an owner keeps it.
pub open spec fn ports_owned(ports: Seq<u16>, owner: Owner, owners: Map<u16, Owner>) -> Map<
    u16,
    Owner,
>
    decreases ports.len(),
{
    if ports.len() == 0 {
        owners
    } else {
        ports_owned(
            ports.drop_first(),
            owner,
            if ports[0] == 0 {
                owners
            } else {
                first_owner_wins(owners, ports[0], owner)
            },
        )
    }
}

/// `owners` after each of `processes` in turn was recorded for its ports.
pub open spec fn process_owners(processes: Seq<ProcessSockets>, owners: Map<u16, Owner>) -> Map<
    u16,
    Owner,
>
    decreases processes.len(),
{
    if processes.len() == 0 {
        owners
    } else {
        process_owners(
            processes.drop_first(),
            ports_owned(
                processes[0].ports@,
                (Some(processes[0].pid), text_view(processes[0].name)),
                owners,
            ),
        )
    }
}

/// The listening ports of all processes in ascending order, each once, with
/// the first process that has it.
pub fn get_listening_ports_native(processes: &[ProcessSockets]) -> (list: Vec<ListeningPort>)
    ensures
        is_port_table(list@, process_owners(processes@, Map::empty())),
{
    let mut list: Vec<ListeningPort> = Vec::new();
    let ghost mut owners: Map<u16, Owner> = Map::empty();
    let mut i: usize = 0;
    proof {
        assert(processes@.subrange(0, processes@.len() as int) =~= processes@);
    }
    while i < processes.len()
        invariant
            i <= processes@.len(),
            is_port_table(list@, owners),
            process_owners(processes@, Map::empty()) == process_owners(
                processes@.subrange(i as int, processes@.len() as int),
                owners,
            ),
        decreases processes@.len() - i,
    {
        let process = &processes[i];
        let ghost owner = (Some(process.pid), text_view(process.name));
        let ghost start = owners;
        let mut j: usize = 0;
        proof {
            assert(process.ports@.subrange(0, process.ports@.len() as int) =~= process.ports@);
        }
        while j < process.ports.len()
            invariant
                j <= process.ports@.len(),
                owner == (Some(process.pid), text_view(process.name)),
                is_port_table(list@, owners),
                ports_owned(process.ports@, owner, start) == ports_owned(
                    process.ports@.subrange(j as int, process.ports@.len() as int),
                    owner,
                    owners,
                ),
            decreases process.ports@.len() - j,
        {
            let number = process.ports[j];
            proof {
                let rest = process.ports@.subrange(j as int, process.ports@.len() as int);
                assert(rest[0] == number);
                assert(rest.drop_first() =~= process.ports@.subrange(
                    j + 1,
                    process.ports@.len() as int,
                ));
            }
            match Port::new(number) {
                Ok(port) => {
                    proof {
                        Port::lemma_number_of(number);
                        owners = first_owner_wins(owners, number, owner);
                    }
                    let name = match &process.name {
                        Some(text) => Some(text.clone()),
                        None => None,
                    };
                    record_listener(&mut list, port, Some(process.pid), name);
                },
                Err(_) => {},
            }
            j += 1;
        }
        proof {
            let rest = processes@.subrange(i as int, processes@.len() as int);
            assert(rest[0] == *process);
            assert(rest.drop_first() =~= processes@.subrange(i + 1, processes@.len() as int));
        }
        i += 1;
    }
    list
}

} // verus!
