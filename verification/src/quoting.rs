//! Quoted fields: finding input that stops before a quoted field is closed.
//!
//! A field is quoted where it begins with `"`. Inside it a doubled `""`
//! stands for one quote, and commas and line ends are part of the field. It
//! is closed by the first `"` that is not doubled. A `"` anywhere else is an
//! ordinary byte. A byte order mark at the very start of the input does not
//! count as part of the first field.
//!
//! These are the rules by which the tokeniser reads quotes. The tokeniser
//! takes a quoted field that is never closed to run to the end of the input,
//! and reports nothing. This library counts such input as broken, so it
//! looks for the open quote itself, before it tokenises.

use vstd::prelude::*;

verus! {

/// The byte of `"`, which opens and closes a quoted field.
pub const QUOTE: u8 = 0x22;

/// The byte of `,`, which parts the fields of a record.
pub const COMMA: u8 = 0x2c;

/// The line feed, which ends a record.
pub const LINE_FEED: u8 = 0x0a;

/// The carriage return, which ends a record too.
pub const CARRIAGE_RETURN: u8 = 0x0d;

/// Where a scan stands in its field after some input.
#[derive(Clone, Copy, Debug, PartialEq, Eq, Structural)]
pub enum Place {
    /// At the start of a field: nothing of it has been seen.
    Start,
    /// Inside a field that is not quoted.
    Bare,
    /// Inside a quoted field, which is still open.
    Quoted,
    /// Just after a `"` inside a quoted field: it closes the field unless
    /// another `"` follows.
    Closing,
}

/// Whether `b` ends a field: a comma, a line feed or a carriage return.
pub open spec fn ends_field(b: u8) -> bool {
    b == COMMA || b == LINE_FEED || b == CARRIAGE_RETURN
}

/// Where the scan stands after the byte `b`, having stood at `place`.
pub open spec fn step(place: Place, b: u8) -> Place {
    match place {
        Place::Start => if b == QUOTE {
            Place::Quoted
        } else if ends_field(b) {
            Place::Start
        } else {
            Place::Bare
        },
        Place::Bare => if ends_field(b) {
            Place::Start
        } else {
            Place::Bare
        },
        Place::Quoted => if b == QUOTE {
            Place::Closing
        } else {
            Place::Quoted
        },
        Place::Closing => if b == QUOTE {
            Place::Quoted
        } else if ends_field(b) {
            Place::Start
        } else {
            Place::Bare
        },
    }
}

/// Where the scan stands after all of `data`, having begun at the start of a
/// field.
pub open spec fn place_after(data: Seq<u8>) -> Place
    decreases data.len(),
{
    if data.len() == 0 {
        Place::Start
    } else {
        step(place_after(data.drop_last()), data.last())
    }
}

/// Whether `data` begins with the UTF-8 byte order mark.
pub open spec fn has_mark(data: Seq<u8>) -> bool {
    data.len() >= 3 && data[0] == 0xef && data[1] == 0xbb && data[2] == 0xbf
}

/// Whether `data` stops inside a quoted field that it never closes.
pub open spec fn ends_in_open_quote(data: Seq<u8>) -> bool {
    if has_mark(data) {
        place_after(data.skip(3)) == Place::Quoted
    } else {
        place_after(data) == Place::Quoted
    }
}

/// The exec form of `step`.
fn advance(place: Place, b: u8) -> (next: Place)
    ensures
        next == step(place, b),
{
    let ends: bool = b == COMMA || b == LINE_FEED || b == CARRIAGE_RETURN;
    match place {
        Place::Start => if b == QUOTE {
            Place::Quoted
        } else if ends {
            Place::Start
        } else {
            Place::Bare
        },
        Place::Bare => if ends {
            Place::Start
        } else {
            Place::Bare
        },
        Place::Quoted => if b == QUOTE {
            Place::Closing
        } else {
            Place::Quoted
        },
        Place::Closing => if b == QUOTE {
            Place::Quoted
        } else if ends {
            Place::Start
        } else {
            Place::Bare
        },
    }
}

/// Tells whether `data` stops inside a quoted field that it never closes.
pub fn stops_in_open_quote(data: &[u8]) -> (open: bool)
    ensures
        open == ends_in_open_quote(data@),
{
    let n: usize = data.len();
    let first: usize = if n >= 3 && data[0] == 0xef && data[1] == 0xbb && data[2] == 0xbf {
        3
    } else {
        0
    };
    let ghost body: Seq<u8> = data@.skip(first as int);
    let mut place: Place = Place::Start;
    let mut i: usize = first;
    while i < n
        invariant
            first <= i <= n,
            n == data@.len(),
            body == data@.skip(first as int),
            place == place_after(body.take(i - first)),
        decreases n - i,
    {
        proof {
            assert(body.take(i + 1 - first).drop_last() =~= body.take(i - first));
        }
        place = advance(place, data[i]);
        i = i + 1;
    }
    proof {
        assert(body.take(n - first) =~= body);
        assert(data@.skip(0) =~= data@);
    }
    place == Place::Quoted
}

} // verus!
