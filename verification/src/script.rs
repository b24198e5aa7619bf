//! Scripts: what a command exchanges with the device, step by step.
//!
//! A script is a sequence of steps, each a write or a read whose reply is
//! checked. It is run in order and stops at the first exchange that fails,
//! whether the transport failed or the reply was not the expected one. The
//! predicates here say of a port's record of exchanges that a script was run
//! so, and what error tells of the exchange that failed.

use crate::com_port::{checked_reply, last_reply, Exchange};
use crate::command::{Ack, Error};
use vstd::prelude::*;

verus! {

/// What a reply has to be.
pub ghost enum Check {
    /// Any reply of the right length will do.
    Any,
    /// The reply is `expect`, byte for byte.
    Exactly { ack: Ack, expect: Seq<u8> },
    /// The reply begins with `first` and ends with `last`.
    Framed { ack: Ack, first: u8, last: u8 },
    /// The reply is the one byte `expected`, the checksum of chunk `chunk`.
    Sum { chunk: nat, expected: u8 },
    /// The reply begins with `block`, the bytes at `offset` of the image.
    Echo { offset: nat, block: Seq<u8> },
}

/// One step of a command's script.
pub ghost enum Step {
    /// Write these bytes in one transfer.
    Send(Seq<u8>),
    /// Read `len` bytes in one transfer and hold them to `check`.
    Recv { len: nat, check: Check },
}

/// The reply `bytes` is what `check` asks for.
pub open spec fn accepts(check: Check, bytes: Seq<u8>) -> bool {
    match check {
        Check::Any => true,
        Check::Exactly { ack, expect } => bytes == expect,
        Check::Framed { ack, first, last } => bytes.len() > 0 && bytes.first() == first
            && bytes.last() == last,
        Check::Sum { chunk, expected } => bytes.len() == 1 && bytes[0] == expected,
        Check::Echo { offset, block } => block.len() <= bytes.len() && bytes.take(
            block.len() as int,
        ) == block,
    }
}

/// `e` is the error for a reply `bytes` that `check` does not accept.
pub open spec fn rejects_with(check: Check, bytes: Seq<u8>, e: Error) -> bool {
    match check {
        Check::Any => false,
        Check::Exactly { ack, expect } => e matches Error::Protocol { ack: a, reply } && a == ack
            && reply@ == bytes,
        Check::Framed { ack, first, last } => e matches Error::Protocol { ack: a, reply } && a
            == ack && reply@ == bytes,
        Check::Sum { chunk, expected } => bytes.len() == 1 && e == (Error::Checksum {
            chunk: chunk as usize,
            expected,
            actual: bytes[0],
        }),
        Check::Echo { offset, block } => e matches Error::Verify { offset: at } && offset <= at
            < offset + block.len() && at - offset < bytes.len() && bytes[at - offset]
            != block[at - offset] && forall|i: int|
            0 <= i < at - offset ==> bytes[i] == block[i],
    }
}

/// The exchange `x` is the one that `step` calls for.
pub open spec fn asks(step: Step, x: Exchange) -> bool {
    match step {
        Step::Send(bytes) => x matches Exchange::Sent { data, fault } && data == bytes,
        Step::Recv { len, check } => x matches Exchange::Received { len: asked, reply } && asked
            == len,
    }
}

/// The exchange `x` went through as `step` wants it: the transport did its
/// part and, for a read, the reply is the expected one.
pub open spec fn passes(step: Step, x: Exchange) -> bool {
    match x {
        Exchange::Sent { data, fault } => fault is None,
        Exchange::Received { len, reply } => checked_reply(len, reply) matches Ok(bytes)
            && step matches Step::Recv { len: asked, check } && accepts(check, bytes),
    }
}

/// `e` is the error that tells of the exchange `x` failing at `step`: the
/// transport's failure, or the rejection of the reply.
pub open spec fn reports(e: Error, step: Step, x: Exchange) -> bool {
    match x {
        Exchange::Sent { data, fault } => fault matches Some(f) && e == Error::SerialPort(f),
        Exchange::Received { len, reply } => match checked_reply(len, reply) {
            Err(f) => e == Error::SerialPort(f),
            Ok(bytes) => step matches Step::Recv { len: asked, check } && rejects_with(
                check,
                bytes,
                e,
            ),
        },
    }
}

/// Since the log stood at `base`, the first `k` steps of `script` were
/// exchanged, in order, each went through, and nothing else was exchanged.
pub open spec fn progressed(
    script: Seq<Step>,
    base: Seq<Exchange>,
    log: Seq<Exchange>,
    k: int,
) -> bool {
    &&& 0 <= k <= script.len()
    &&& log.len() == base.len() + k
    &&& log.take(base.len() as int) == base
    &&& forall|i: int|
        0 <= i < k ==> asks(#[trigger] script[i], log[base.len() + i]) && passes(
            script[i],
            log[base.len() + i],
        )
}

/// Since the log stood at `base`, all of `script` was exchanged and went
/// through, and nothing else was exchanged.
pub open spec fn passed(script: Seq<Step>, base: Seq<Exchange>, log: Seq<Exchange>) -> bool {
    progressed(script, base, log, script.len() as int)
}

/// Since the log stood at `base`, `script` was exchanged up to a step that
/// failed, nothing was exchanged after it, and `e` tells of that failure.
pub open spec fn halted(
    script: Seq<Step>,
    base: Seq<Exchange>,
    log: Seq<Exchange>,
    e: Error,
) -> bool {
    let n = log.len() - base.len();
    &&& 1 <= n <= script.len()
    &&& progressed(script, base, log.drop_last(), n - 1)
    &&& asks(script[n - 1], log.last())
    &&& !passes(script[n - 1], log.last())
    &&& reports(e, script[n - 1], log.last())
}

/// `r` is how running `script` from the log `base` to the log `log` ended.
pub open spec fn drove(
    script: Seq<Step>,
    base: Seq<Exchange>,
    log: Seq<Exchange>,
    r: Result<(), Error>,
) -> bool {
    match r {
        Ok(_) => passed(script, base, log),
        Err(e) => halted(script, base, log, e),
    }
}

/// A run either went through or halted, never both: whether a command
/// succeeded is decided by what was exchanged.
pub proof fn lemma_passed_or_halted(
    script: Seq<Step>,
    base: Seq<Exchange>,
    log: Seq<Exchange>,
    e: Error,
)
    ensures
        !(passed(script, base, log) && halted(script, base, log, e)),
{
    if passed(script, base, log) && halted(script, base, log, e) {
        let n = script.len() as int;
        assert(passes(script[n - 1], log[base.len() + (n - 1)]));
        assert(log[base.len() + (n - 1)] == log.last());
    }
}

/// A run that halted on a failure of the transport reports that failure,
/// and no other error.
pub proof fn lemma_transport_failure(
    script: Seq<Step>,
    base: Seq<Exchange>,
    log: Seq<Exchange>,
    e: Error,
)
    requires
        halted(script, base, log, e),
    ensures
        log.last() matches Exchange::Sent { data, fault } ==> e == Error::SerialPort(fault->0),
        log.last() matches Exchange::Received { len, reply } ==> (checked_reply(len, reply)
            matches Err(f) ==> e == Error::SerialPort(f)),
{
}

/// The bytes that the latest exchange of `log` brought, where it was a read
/// that brought all it asked for.
pub open spec fn last_bytes(log: Seq<Exchange>) -> Seq<u8> {
    match last_reply(log) {
        Ok(bytes) => bytes,
        Err(_) => Seq::empty(),
    }
}

} // verus!
