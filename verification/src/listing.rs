//! Reading the output of the socket-listing utility.
//!
//! The utility writes one field per line, tagged by the line's first
//! character: `p` and a process id, `c` and a command name, `n` and a socket
//! name that ends in `:` and a port number. A process line and a command line
//! stand before the socket names of that process.

use crate::port::Port;
use crate::ports::{
    first_owner_wins, is_port_table, record_listener, ListeningPort, Owner,
};
use crate::text::{
    after_last_index_of, chars_of, find_after_last_char, find_char, first_index_of, i32_value,
    lemma_first_index_of, parse_i32_in, parse_u16_in, u16_value,
};
use vstd::prelude::*;
use vstd::string::StrSliceExecFns;

verus! {

/// What has been read of a listing: the process id and command name that
/// were seen last, and the owner of each port found so far.
pub struct ListingState {
    pub pid: Option<i32>,
    pub name: Option<Seq<char>>,
    pub owners: Map<u16, Owner>,
}

/// The state before anything was read.
pub open spec fn listing_start() -> ListingState {
    ListingState { pid: None, name: None, owners: Map::empty() }
}

/// The state after one more line.
///
/// A process line sets the process id, to none if it is no number. A command
/// line sets the name. A socket line whose text after the last `:` is a port
/// number other than zero records that port for the current process, unless
/// the port was recorded before. Other lines change nothing.
pub open spec fn listing_step(state: ListingState, line: Seq<char>) -> ListingState {
    if line.len() == 0 {
        state
    } else if line[0] == 'p' {
        ListingState { pid: i32_value(line.drop_first()), ..state }
    } else if line[0] == 'c' {
        ListingState { name: Some(line.drop_first()), ..state }
    } else if line[0] == 'n' {
        let tail = line.subrange(after_last_index_of(line, ':'), line.len() as int);
        match u16_value(tail) {
            Some(number) => if number == 0 {
                state
            } else {
                ListingState {
                    owners: first_owner_wins(state.owners, number, (state.pid, state.name)),
                    ..state
                }
            },
            None => state,
        }
    } else {
        state
    }
}

/// A line without the carriage return that stood before its line feed.
pub open spec fn without_carriage_return(line: Seq<char>, ended: bool) -> Seq<char> {
    if ended && line.len() > 0 && line.last() == '\r' {
        line.drop_last()
    } else {
        line
    }
}

/// The state after all lines of `text`. Lines end at a line feed; the last
/// one may do without.
pub open spec fn read_listing(text: Seq<char>, state: ListingState) -> ListingState
    decreases text.len(),
{
    if text.len() == 0 {
        state
    } else {
        let end = first_index_of(text, '\n');
        let line = without_carriage_return(text.subrange(0, end), end < text.len());
        let next = listing_step(state, line);
        if end >= text.len() {
            next
        } else {
            proof {
                lemma_first_index_of(text, '\n');
            }
            read_listing(text.subrange(end + 1, text.len() as int), next)
        }
    }
}

/// The owner of each port that a listing gives.
pub open spec fn listing_owners(text: Seq<char>) -> Map<u16, Owner> {
    read_listing(text, listing_start()).owners
}

/// A copy of an optional name.
fn copy_name(name: &Option<String>) -> (copy: Option<String>)
    ensures
        copy == *name,
{
    match name {
        Some(text) => Some(text.clone()),
        None => None,
    }
}

/// Where the line that starts at `pos` ends, and where the next one starts.
fn line_bounds(chars: &Vec<char>, pos: usize) -> (r: (usize, usize))
    requires
        pos < chars@.len(),
    ensures
        pos <= r.0 <= chars@.len(),
        pos < r.1 <= chars@.len(),
        ({
            let rest = chars@.subrange(pos as int, chars@.len() as int);
            let feed = first_index_of(rest, '\n');
            &&& chars@.subrange(pos as int, r.0 as int) == without_carriage_return(
                rest.subrange(0, feed),
                feed < rest.len(),
            )
            &&& feed >= rest.len() ==> r.1 == chars@.len()
            &&& feed < rest.len() ==> r.1 == pos + feed + 1
        }),
{
    let len = chars.len();
    let ghost rest = chars@.subrange(pos as int, len as int);
    let feed = find_char(chars, pos, len, '\n');
    let ended = feed < len;
    let mut end = feed;
    if ended && end > pos && chars[end - 1] == '\r' {
        end = end - 1;
    }
    proof {
        let raw = rest.subrange(0, feed - pos);
        assert(raw =~= chars@.subrange(pos as int, feed as int));
        if raw.len() > 0 {
            assert(raw.last() == chars@[feed - 1]);
        }
        assert(without_carriage_return(raw, ended) =~= chars@.subrange(pos as int, end as int));
    }
    if ended {
        (end, feed + 1)
    } else {
        (end, len)
    }
}

/// Takes in the line `chars[pos..end]` of the listing `text`.
fn read_line(
    text: &str,
    chars: &Vec<char>,
    pos: usize,
    end: usize,
    list: &mut Vec<ListeningPort>,
    pid: &mut Option<i32>,
    name: &mut Option<String>,
    Ghost(state): Ghost<ListingState>,
)
    requires
        pos <= end <= chars@.len(),
        chars@ == text@,
        state.pid == *old(pid),
        state.name == crate::ports::text_view(*old(name)),
        is_port_table(old(list)@, state.owners),
    ensures
        ({
            let next = listing_step(state, chars@.subrange(pos as int, end as int));
            &&& next.pid == *final(pid)
            &&& next.name == crate::ports::text_view(*final(name))
            &&& is_port_table(final(list)@, next.owners)
        }),
{
    let ghost line = chars@.subrange(pos as int, end as int);
    if end > pos {
        let tag = chars[pos];
        proof {
            assert(line[0] == tag);
            assert(line.drop_first() =~= chars@.subrange(pos + 1, end as int));
        }
        if tag == 'p' {
            *pid = parse_i32_in(chars, pos + 1, end);
        } else if tag == 'c' {
            *name = Some(text.substring_char(pos + 1, end).to_owned());
        } else if tag == 'n' {
            let from = find_after_last_char(chars, pos, end, ':');
            proof {
                assert(line.subrange(from - pos, line.len() as int) =~= chars@.subrange(
                    from as int,
                    end as int,
                ));
            }
            match parse_u16_in(chars, from, end) {
                Some(number) => match Port::new(number) {
                    Ok(port) => {
                        proof {
                            Port::lemma_number_of(number);
                        }
                        record_listener(list, port, *pid, copy_name(name));
                    },
                    Err(_) => {},
                },
                None => {},
            }
        }
    }
}

/// Reads a listing: the ports it gives in ascending order, each once, with
/// the process that the listing names first for it.
pub fn parse_listing(text: &str) -> (list: Vec<ListeningPort>)
    ensures
        is_port_table(list@, listing_owners(text@)),
{
    let chars = chars_of(text);
    let len = chars.len();
    let mut list: Vec<ListeningPort> = Vec::new();
    let mut pid: Option<i32> = None;
    let mut name: Option<String> = None;
    let ghost mut state = listing_start();
    let mut pos: usize = 0;
    proof {
        assert(chars@.subrange(0, len as int) =~= text@);
    }
    while pos < len
        invariant
            pos <= len,
            len == chars@.len(),
            chars@ == text@,
            state.pid == pid,
            state.name == crate::ports::text_view(name),
            is_port_table(list@, state.owners),
            read_listing(text@, listing_start()) == read_listing(
                chars@.subrange(pos as int, len as int),
                state,
            ),
        decreases len - pos,
    {
        let ghost rest = chars@.subrange(pos as int, len as int);
        let (end, next) = line_bounds(&chars, pos);
        read_line(text, &chars, pos, end, &mut list, &mut pid, &mut name, Ghost(state));
        proof {
            state = listing_step(state, chars@.subrange(pos as int, end as int));
            if first_index_of(rest, '\n') < rest.len() {
                assert(rest.subrange(next - pos, rest.len() as int) =~= chars@.subrange(
                    next as int,
                    len as int,
                ));
            }
        }
        pos = next;
    }
    list
}

} // verus!
