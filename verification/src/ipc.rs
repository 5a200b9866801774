//! The command surface of the control socket: the request vocabulary, the
//! connection errors, and the one-record-per-line framing of messages. The
//! socket itself, and turning request values into bytes, stay with the
//! binaries around the library.

use vstd::prelude::*;

verus! {

/// One request to the daemon, one per connection.
pub enum Request {
    ReloadGraph,
    ServiceStatus { service: String },
    StartService { service: String },
    StopService { service: String },
}

/// What can go wrong on the control socket.
#[derive(Debug)]
pub enum Error {
    /// Connecting to the socket at this path failed.
    ConnectionFailed { socket: String },
    /// Reading a request failed.
    ReadFailed,
    /// Writing a request failed.
    WriteFailed,
}

/// The newline that terminates one framed record.
pub open spec fn line_end() -> u8 {
    10u8
}

/// Frames one record: the payload followed by the line terminator.
pub fn frame_line(payload: &Vec<u8>) -> (r: Vec<u8>)
    ensures
        r@ == payload@.push(line_end()),
{
    let mut r: Vec<u8> = Vec::new();
    let mut i: usize = 0;
    while i < payload.len()
        invariant
            i <= payload@.len(),
            r@ =~= payload@.subrange(0, i as int),
        decreases payload@.len() - i,
    {
        r.push(payload[i]);
        proof {
            assert(r@ =~= payload@.subrange(0, i + 1));
        }
        i += 1;
    }
    r.push(10u8);
    proof {
        assert(r@ =~= payload@.push(line_end()));
    }
    r
}

/// Splits the first framed record off a read buffer: the payload before the
/// first line terminator and everything after it, or nothing when no
/// complete record has arrived yet.
pub fn take_line(buf: &Vec<u8>) -> (r: Option<(Vec<u8>, Vec<u8>)>)
    ensures
        match r {
            Option::Some((line, rest)) => buf@ =~= line@ + seq![line_end()] + rest@ && forall|
                i: int,
            | 0 <= i < line@.len() ==> line@[i] != line_end(),
            Option::None => forall|i: int| 0 <= i < buf@.len() ==> buf@[i] != line_end(),
        },
{
    let mut pos: usize = 0;
    while pos < buf.len()
        invariant
            pos <= buf@.len(),
            forall|i: int| 0 <= i < pos ==> buf@[i] != line_end(),
        decreases buf@.len() - pos,
    {
        if buf[pos] == 10u8 {
            let mut line: Vec<u8> = Vec::new();
            let mut i: usize = 0;
            while i < pos
                invariant
                    i <= pos,
                    pos < buf@.len(),
                    line@ =~= buf@.subrange(0, i as int),
                decreases pos - i,
            {
                line.push(buf[i]);
                proof {
                    assert(line@ =~= buf@.subrange(0, i + 1));
                }
                i += 1;
            }
            let mut rest: Vec<u8> = Vec::new();
            let mut j: usize = pos + 1;
            while j < buf.len()
                invariant
                    pos < buf@.len(),
                    pos + 1 <= j <= buf@.len(),
                    rest@ =~= buf@.subrange(pos + 1, j as int),
                decreases buf@.len() - j,
            {
                rest.push(buf[j]);
                proof {
                    assert(rest@ =~= buf@.subrange(pos + 1, j + 1));
                }
                j += 1;
            }
            proof {
                assert(buf@ =~= line@ + seq![line_end()] + rest@);
                assert(forall|i2: int| 0 <= i2 < line@.len() ==> line@[i2] != line_end());
            }
            return Option::Some((line, rest));
        }
        pos += 1;
    }
    Option::None
}

} // verus!
