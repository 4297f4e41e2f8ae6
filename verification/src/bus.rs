//! Finding the IBus daemon's address in its bus files
//! (`$XDG_CONFIG_HOME/ibus/bus/<machine-id>-...`).
use vstd::prelude::*;

use crate::lines::{
    find_line_end, has_prefix_at, lemma_next_newline, line_at, next_newline, starts_with, trim,
    trim_bounds,
};
use crate::text::chars_to_string;

verus! {

/// The key of the address line of a bus file.
pub open spec fn address_key() -> Seq<char> {
    seq!['I', 'B', 'U', 'S', '_', 'A', 'D', 'D', 'R', 'E', 'S', 'S', '=']
}

/// The quote characters that may surround the address.
pub open spec fn is_quote(c: char) -> bool {
    c == '\'' || c == '"'
}

/// `s` without the quotes at its start.
pub open spec fn trim_leading_quotes(s: Seq<char>) -> Seq<char>
    decreases s.len(),
{
    if s.len() > 0 && is_quote(s[0]) {
        trim_leading_quotes(s.drop_first())
    } else {
        s
    }
}

/// `s` without the quotes at its end.
pub open spec fn trim_trailing_quotes(s: Seq<char>) -> Seq<char>
    decreases s.len(),
{
    if s.len() > 0 && is_quote(s.last()) {
        trim_trailing_quotes(s.drop_last())
    } else {
        s
    }
}

/// `s` without the quotes at either end.
pub open spec fn trim_quotes(s: Seq<char>) -> Seq<char> {
    trim_trailing_quotes(trim_leading_quotes(s))
}

/// The address given by the first line at or after `start` that begins with
/// `IBUS_ADDRESS=`: the rest of that line, without surrounding quotes.
pub open spec fn address_from(s: Seq<char>, start: int) -> Option<Seq<char>>
    decreases s.len() + 1 - start,
{
    if start >= s.len() {
        None
    } else {
        let line = line_at(s, start);
        if starts_with(line, address_key()) {
            Some(trim_quotes(line.skip(address_key().len() as int)))
        } else {
            proof {
                lemma_next_newline(s, start);
            }
            address_from(s, next_newline(s, start) + 1)
        }
    }
}

/// The address that the bus file `contents` gives, if any.
pub open spec fn spec_bus_file_address(contents: Seq<char>) -> Option<Seq<char>> {
    address_from(contents, 0)
}

/// Finds the address of the IBus daemon in the contents of a bus file: the
/// first `IBUS_ADDRESS=` line, without quotes around the value.
pub fn bus_file_address(contents: &[char]) -> (a: Option<String>)
    ensures
        match a {
            Some(x) => spec_bus_file_address(contents@) == Some(x@),
            None => spec_bus_file_address(contents@) is None,
        },
{
    let key: [char; 13] = ['I', 'B', 'U', 'S', '_', 'A', 'D', 'D', 'R', 'E', 'S', 'S', '='];
    assert(key@ =~= address_key());
    let mut start: usize = 0;
    while start < contents.len()
        invariant
            start <= contents@.len(),
            key@ == address_key(),
            address_from(contents@, start as int) == address_from(contents@, 0),
        decreases contents@.len() - start,
    {
        let (end, newline) = find_line_end(contents, start);
        if has_prefix_at(contents, start, end, key.as_slice()) {
            let ghost line = line_at(contents@, start as int);
            assert(line.skip(13) =~= contents@.subrange(start + 13, end as int));
            let mut a: usize = start + 13;
            while a < end && (contents[a] == '\'' || contents[a] == '"')
                invariant
                    start + 13 <= a <= end <= contents@.len(),
                    trim_leading_quotes(line.skip(13)) == trim_leading_quotes(
                        contents@.subrange(a as int, end as int),
                    ),
                decreases end - a,
            {
                assert(contents@.subrange(a as int, end as int).drop_first() =~= contents@.subrange(
                    a + 1,
                    end as int,
                ));
                a += 1;
            }
            let ghost lead = contents@.subrange(a as int, end as int);
            assert(trim_leading_quotes(line.skip(13)) == lead);
            let mut b: usize = end;
            while b > a && (contents[b - 1] == '\'' || contents[b - 1] == '"')
                invariant
                    a <= b <= end <= contents@.len(),
                    trim_trailing_quotes(lead) == trim_trailing_quotes(
                        contents@.subrange(a as int, b as int),
                    ),
                decreases b - a,
            {
                assert(contents@.subrange(a as int, b as int).drop_last() =~= contents@.subrange(
                    a as int,
                    b - 1,
                ));
                b -= 1;
            }
            assert(trim_trailing_quotes(lead) == contents@.subrange(a as int, b as int));
            let address = chars_to_string(&contents[a..b]);
            return Some(address);
        }
        if newline >= contents.len() {
            assert(address_from(contents@, newline + 1) is None);
            return None;
        }
        start = newline + 1;
    }
    None
}

/// Whether the bus file named `file_name` belongs to the machine
/// `machine_id`: its name begins with the machine id.
pub fn is_bus_file_for(file_name: &[char], machine_id: &[char]) -> (r: bool)
    ensures
        r == starts_with(file_name@, machine_id@),
{
    let r = has_prefix_at(file_name, 0, file_name.len(), machine_id);
    assert(file_name@.subrange(0, file_name@.len() as int) =~= file_name@);
    r
}

/// Index `i` holds the newest time of `times`, and no earlier index holds
/// as new a time.
pub open spec fn is_first_newest(times: Seq<i128>, i: int) -> bool {
    &&& 0 <= i < times.len()
    &&& forall|j: int| 0 <= j < times.len() ==> times[j] <= times[i]
    &&& forall|j: int| 0 <= j < i ==> times[j] < times[i]
}

/// Of several bus files, given by their modification times, the one to use:
/// the most recently modified, the first of them on a tie.
pub fn newest_index(times: &[i128]) -> (r: Option<usize>)
    ensures
        match r {
            Some(i) => is_first_newest(times@, i as int),
            None => times@.len() == 0,
        },
{
    if times.len() == 0 {
        return None;
    }
    let mut best: usize = 0;
    let mut i: usize = 1;
    while i < times.len()
        invariant
            1 <= i <= times@.len(),
            best < i,
            forall|j: int| 0 <= j < i ==> times@[j] <= times@[best as int],
            forall|j: int| 0 <= j < best ==> times@[j] < times@[best as int],
        decreases times@.len() - i,
    {
        if times[i] > times[best] {
            best = i;
        }
        i += 1;
    }
    Some(best)
}

/// The machine id that a machine-id file holds: its contents without
/// surrounding white space, when that is not empty.
pub fn machine_id(contents: &[char]) -> (id: Option<String>)
    ensures
        match id {
            Some(s) => s@ == trim(contents@) && s@.len() > 0,
            None => trim(contents@).len() == 0,
        },
{
    let (a, b) = trim_bounds(contents, 0, contents.len());
    assert(contents@.subrange(0, contents@.len() as int) =~= contents@);
    if a == b {
        return None;
    }
    Some(chars_to_string(&contents[a..b]))
}

} // verus!
