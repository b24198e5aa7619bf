//! The byte transport the protocol runs over, and a port that records every
//! exchange made through it.

use vstd::prelude::*;
use vstd::slice::slice_to_vec;
use vstd::utf8::{encode_utf8, valid_utf8};

verus! {

/// Why an exchange with the device failed.
#[derive(Debug, PartialEq, Eq)]
pub enum Error {
    /// The transport reported a failure; the text is the transport's own.
    Io(String),
    /// A read came back with another number of bytes than was asked for,
    /// as happens when the transport times out.
    Short { wanted: usize, got: usize },
}

/// A duplex, blocking byte channel. Implementations decide what a timeout
/// is; nothing is assumed of what they answer.
pub trait IOMethods {
    /// Sends `buf` to the device.
    fn write_buf(&mut self, buf: Vec<u8>) -> Result<(), Error>;

    /// Asks the device for `len` bytes.
    fn read_buf(&mut self, len: usize) -> Result<Vec<u8>, Error>;
}

/// One call made on the transport, with how it ended.
pub ghost enum Exchange {
    /// `data` was handed to the transport, which reported `fault`, if any.
    Sent { data: Seq<u8>, fault: Option<Error> },
    /// `len` bytes were asked for and the transport answered `reply`.
    Received { len: nat, reply: Result<Seq<u8>, Error> },
}

/// The failure a write ended with, if it ended with one.
pub open spec fn fault_of(r: Result<(), Error>) -> Option<Error> {
    match r {
        Ok(_) => None,
        Err(e) => Some(e),
    }
}

/// A read's result with the bytes as a sequence.
pub open spec fn reply_of(r: Result<Vec<u8>, Error>) -> Result<Seq<u8>, Error> {
    match r {
        Ok(bytes) => Ok(bytes@),
        Err(e) => Err(e),
    }
}

/// The four bytes of `x`, least significant first.
pub open spec fn le_bytes(x: u32) -> Seq<u8> {
    seq![
        (x % 256) as u8,
        (x / 256 % 256) as u8,
        (x / 65536 % 256) as u8,
        (x / 16777216) as u8,
    ]
}

/// The number whose four bytes, least significant first, are `b`.
pub open spec fn le_value(b: Seq<u8>) -> u32
    recommends
        b.len() == 4,
{
    (b[0] + 256 * b[1] + 65536 * b[2] + 16777216 * b[3]) as u32
}

/// Reading the bytes of a number back gives the number.
pub proof fn lemma_le_round_trip(x: u32)
    ensures
        le_bytes(x).len() == 4,
        le_value(le_bytes(x)) == x,
{
}

/// Four bytes are the bytes of the number they are read as.
pub proof fn lemma_le_bytes_of_value(b: Seq<u8>)
    requires
        b.len() == 4,
    ensures
        le_bytes(le_value(b)) == b,
{
    let (b0, b1, b2, b3) = (b[0] as int, b[1] as int, b[2] as int, b[3] as int);
    let x = b0 + 256 * b1 + 65536 * b2 + 16777216 * b3;
    assert(x % 256 == b0 && x / 256 == b1 + 256 * b2 + 65536 * b3);
    assert((x / 256) % 256 == b1 && x / 65536 == b2 + 256 * b3);
    assert((x / 65536) % 256 == b2 && x / 16777216 == b3);
    assert(le_bytes(le_value(b)) =~= b);
}

/// What a read of `len` bytes makes of the transport's answer: the bytes
/// where exactly `len` came, a failure otherwise.
pub open spec fn checked_reply(len: nat, answer: Result<Seq<u8>, Error>) -> Result<
    Seq<u8>,
    Error,
> {
    match answer {
        Ok(bytes) => if bytes.len() == len {
            Ok(bytes)
        } else {
            Err(Error::Short { wanted: len as usize, got: bytes.len() as usize })
        },
        Err(e) => Err(e),
    }
}

/// The text that `String::from_utf8_lossy` makes of `bytes`.
pub uninterp spec fn utf8_lossy(bytes: Seq<u8>) -> Seq<char>;

/// Decodes bytes as text with `String::from_utf8_lossy`. The result is what
/// that function makes of these bytes; where they are valid UTF-8, it is the
/// text they encode, as the function documents.
#[verifier::external_body]
fn lossy_text(bytes: &Vec<u8>) -> (text: String)
    ensures
        text@ == utf8_lossy(bytes@),
        valid_utf8(bytes@) ==> encode_utf8(text@) == bytes@,
{
    String::from_utf8_lossy(bytes).into_owned()
}

/// The log `after` is the log `before` and then one write of `data`, which
/// ended with `fault`.
pub open spec fn wrote(
    before: Seq<Exchange>,
    after: Seq<Exchange>,
    data: Seq<u8>,
    fault: Option<Error>,
) -> bool {
    after == before.push(Exchange::Sent { data, fault })
}

/// The log `after` is the log `before` and then one read of `len` bytes.
pub open spec fn asked(before: Seq<Exchange>, after: Seq<Exchange>, len: nat) -> bool {
    &&& after.len() == before.len() + 1
    &&& after.drop_last() == before
    &&& after.last() is Received
    &&& after.last()->len == len
}

/// What the latest exchange of `log`, a read, came to.
pub open spec fn last_reply(log: Seq<Exchange>) -> Result<Seq<u8>, Error> {
    checked_reply(log.last()->len, log.last()->reply)
}

/// Holds a transport's answer to a read of `len` bytes to that length: the
/// bytes where exactly `len` came, and a failure for any other number. A
/// failure of the transport stays what it is.
pub fn check_length(len: usize, answer: Result<Vec<u8>, Error>) -> (r: Result<Vec<u8>, Error>)
    ensures
        reply_of(r) == checked_reply(len as nat, reply_of(answer)),
        r matches Ok(bytes) ==> answer == Ok::<Vec<u8>, Error>(bytes),
{
    match answer {
        Ok(bytes) => {
            if bytes.len() == len {
                Ok(bytes)
            } else {
                Err(Error::Short { wanted: len, got: bytes.len() })
            }
        },
        Err(e) => Err(e),
    }
}

/// A transport together with the record of all exchanges made through it.
pub struct ComPort<T: IOMethods> {
    port: T,
    log: Ghost<Seq<Exchange>>,
}

impl<T: IOMethods> ComPort<T> {
    /// Every exchange made through this port so far, oldest first.
    pub closed spec fn log(&self) -> Seq<Exchange> {
        self.log@
    }

    /// The transport in use.
    pub closed spec fn transport(&self) -> T {
        self.port
    }

    /// Wraps a transport; nothing has been exchanged yet.
    pub fn new(port: T) -> (r: Self)
        ensures
            r.transport() == port,
            r.log() == Seq::<Exchange>::empty(),
    {
        ComPort { port, log: Ghost(Seq::empty()) }
    }

    /// Gives the transport back.
    pub fn into_inner(self) -> (port: T)
        ensures
            port == self.transport(),
    {
        self.port
    }

    /// Goes on with another transport and hands back the one used so far.
    /// The record of exchanges goes on too.
    pub fn replace(&mut self, port: T) -> (previous: T)
        ensures
            previous == old(self).transport(),
            final(self).transport() == port,
            final(self).log() == old(self).log(),
    {
        let mut port = port;
        core::mem::swap(&mut self.port, &mut port);
        port
    }

    /// Lends the transport for a look.
    pub fn inner(&self) -> (port: &T)
        ensures
            *port == self.transport(),
    {
        &self.port
    }

    /// Sends `buf` in one call of the transport and hands on how it ended.
    /// The record grows by that call and no other: the transport was called
    /// once, with these bytes, as it stood, and stands as the call left it.
    pub fn write_buf(&mut self, buf: Vec<u8>) -> (r: Result<(), Error>)
        ensures
            exists|p: &mut T, bytes: Vec<u8>|
                #[trigger] call_ensures(T::write_buf, (p, bytes), r) && bytes@ == buf@ && *p
                    == old(self).transport() && *final(p) == final(self).transport(),
            wrote(old(self).log(), final(self).log(), buf@, fault_of(r)),
    {
        let ghost data = buf@;
        let r = self.port.write_buf(buf);
        proof {
            self.log@ = self.log@.push(Exchange::Sent { data, fault: fault_of(r) });
        }
        r
    }

    /// Sends the bytes of `buf`.
    pub fn write_str(&mut self, buf: &str) -> (r: Result<(), Error>)
        ensures
            exists|p: &mut T, bytes: Vec<u8>|
                #[trigger] call_ensures(T::write_buf, (p, bytes), r) && bytes@ == encode_utf8(buf@) && *p
                    == old(self).transport() && *final(p) == final(self).transport(),
            wrote(old(self).log(), final(self).log(), encode_utf8(buf@), fault_of(r)),
    {
        self.write_buf(slice_to_vec(buf.as_bytes()))
    }

    /// Sends `value` as four bytes, least significant first.
    pub fn write_u32(&mut self, value: u32) -> (r: Result<(), Error>)
        ensures
            exists|p: &mut T, bytes: Vec<u8>|
                #[trigger] call_ensures(T::write_buf, (p, bytes), r) && bytes@ == le_bytes(value) && *p
                    == old(self).transport() && *final(p) == final(self).transport(),
            wrote(old(self).log(), final(self).log(), le_bytes(value), fault_of(r)),
    {
        let mut buf: Vec<u8> = Vec::new();
        buf.push((value % 256) as u8);
        buf.push((value / 256 % 256) as u8);
        buf.push((value / 65536 % 256) as u8);
        buf.push((value / 16777216) as u8);
        assert(buf@ =~= le_bytes(value));
        self.write_buf(buf)
    }

    /// Asks the transport for `len` bytes in one call. An answer of any other
    /// length counts as a failure of the exchange. The record grows by that
    /// call and no other, and holds the answer as the transport gave it.
    pub fn read_buf(&mut self, len: usize) -> (r: Result<Vec<u8>, Error>)
        ensures
            exists|p: &mut T, answer: Result<Vec<u8>, Error>|
                #[trigger] call_ensures(T::read_buf, (p, len), answer)
                    && *p == old(self).transport()
                    && *final(p) == final(self).transport()
                    && final(self).log().last()->reply == reply_of(answer),
            asked(old(self).log(), final(self).log(), len as nat),
            reply_of(r) == last_reply(final(self).log()),
    {
        let answer = self.port.read_buf(len);
        proof {
            self.log@ = self.log@.push(
                Exchange::Received { len: len as nat, reply: reply_of(answer) },
            );
            assert(self.log@.drop_last() =~= old(self).log@);
        }
        check_length(len, answer)
    }

    /// Reads `len` bytes and decodes them as text, lossily.
    pub fn read_str(&mut self, len: usize) -> (r: Result<String, Error>)
        ensures
            exists|p: &mut T, answer: Result<Vec<u8>, Error>|
                #[trigger] call_ensures(T::read_buf, (p, len), answer)
                    && *p == old(self).transport()
                    && *final(p) == final(self).transport()
                    && final(self).log().last()->reply == reply_of(answer),
            asked(old(self).log(), final(self).log(), len as nat),
            match last_reply(final(self).log()) {
                Ok(bytes) => r is Ok && r->Ok_0@ == utf8_lossy(bytes) && (valid_utf8(bytes)
                    ==> encode_utf8(r->Ok_0@) == bytes),
                Err(e) => r == Err::<String, Error>(e),
            },
    {
        match self.read_buf(len) {
            Ok(bytes) => Ok(lossy_text(&bytes)),
            Err(e) => Err(e),
        }
    }

    /// Reads four bytes as a number, least significant byte first.
    pub fn read_u32(&mut self) -> (r: Result<u32, Error>)
        ensures
            exists|p: &mut T, answer: Result<Vec<u8>, Error>|
                #[trigger] call_ensures(T::read_buf, (p, 4), answer)
                    && *p == old(self).transport()
                    && *final(p) == final(self).transport()
                    && final(self).log().last()->reply == reply_of(answer),
            asked(old(self).log(), final(self).log(), 4),
            r == match last_reply(final(self).log()) {
                Ok(bytes) => Ok(le_value(bytes)),
                Err(e) => Err(e),
            },
    {
        match self.read_buf(4) {
            Ok(bytes) => {
                let value: u32 = bytes[0] as u32 + 256 * (bytes[1] as u32) + 65536 * (
                bytes[2] as u32) + 16777216 * (bytes[3] as u32);
                Ok(value)
            },
            Err(e) => Err(e),
        }
    }

    /// Reads one byte.
    pub fn read_byte(&mut self) -> (r: Result<u8, Error>)
        ensures
            exists|p: &mut T, answer: Result<Vec<u8>, Error>|
                #[trigger] call_ensures(T::read_buf, (p, 1), answer)
                    && *p == old(self).transport()
                    && *final(p) == final(self).transport()
                    && final(self).log().last()->reply == reply_of(answer),
            asked(old(self).log(), final(self).log(), 1),
            r == match last_reply(final(self).log()) {
                Ok(bytes) => Ok(bytes[0]),
                Err(e) => Err(e),
            },
    {
        match self.read_buf(1) {
            Ok(bytes) => Ok(bytes[0]),
            Err(e) => Err(e),
        }
    }
}

/// Why no port was picked.
#[derive(Debug, PartialEq, Eq)]
pub enum ProbeError {
    /// There is no candidate.
    NotFound,
    /// There are several candidates, and the user has to name one.
    Several { names: Vec<String> },
}

/// Picks the port to use from the names of the candidates: the one
/// candidate, where there is exactly one.
pub fn probe_port(names: Vec<String>) -> (r: Result<String, ProbeError>)
    ensures
        names@.len() == 0 ==> r == Err::<String, ProbeError>(ProbeError::NotFound),
        names@.len() == 1 ==> r == Ok::<String, ProbeError>(names@[0]),
        names@.len() > 1 ==> (r matches Err(ProbeError::Several { names: all }) && all@ == names@),
{
    let mut names = names;
    if names.len() == 0 {
        Err(ProbeError::NotFound)
    } else if names.len() == 1 {
        match names.pop() {
            Some(name) => Ok(name),
            None => Err(ProbeError::NotFound),
        }
    } else {
        Err(ProbeError::Several { names })
    }
}

} // verus!
