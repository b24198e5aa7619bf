//! The boot loader's commands.
//!
//! Each command runs a fixed script of exchanges with the device and stops
//! at the first exchange that fails. Its contract names the script and says,
//! over the port's record of exchanges, how far the script was run and what
//! the result tells of it.

use crate::com_port;
use crate::com_port::{
    asked, checked_reply, fault_of, last_reply, le_bytes, le_value, utf8_lossy, wrote, ComPort,
    Exchange, IOMethods,
};
use crate::firmware::{HexFile, Image};
use crate::script::{
    accepts, asks, drove, halted, last_bytes, passed, passes, progressed, rejects_with, Check,
    Step,
};
use vstd::prelude::*;
use vstd::slice::{slice_subrange, slice_to_vec};
use vstd::utf8::{encode_utf8, is_ascii_chars, is_ascii_chars_encode_utf8, valid_utf8};

verus! {

/// The acknowledgements that the commands wait for.
#[derive(Debug, Clone, Copy, PartialEq, Eq)]
pub enum Ack {
    /// The prompt `0D 0A 3E` after a change of baud rate.
    BaudRate,
    /// `L`, after the address and size of the boot loader.
    LoadHeader,
    /// `K`, after the boot loader's bytes.
    LoadBody,
    /// `Y` ... `K`, the read-back of what was loaded.
    LoadCheck,
    /// `R`, after the order to run the boot loader.
    LoadRun,
    /// `E`, after the order to erase.
    Erase,
    /// `08`, after the address to program or verify from.
    FlashAddress,
}

/// Why a command failed.
#[derive(Debug, PartialEq, Eq)]
pub enum Error {
    /// The transport failed, or gave fewer bytes than asked for.
    SerialPort(com_port::Error),
    /// The device answered `reply` where `ack` was expected.
    Protocol { ack: Ack, reply: Vec<u8> },
    /// The device's checksum of chunk `chunk` is `actual`, not `expected`.
    Checksum { chunk: usize, expected: u8, actual: u8 },
    /// The byte at `offset` of the image reads back as another.
    Verify { offset: usize },
    /// After the erase the device reported `addr` and `data`, not the end of
    /// flash and an erased word.
    Erase { addr: u32, data: u32 },
}

impl From<com_port::Error> for Error {
    /// A failure of the transport as a failure of the command.
    fn from(err: com_port::Error) -> (e: Error) {
        Error::SerialPort(err)
    }
}

impl vstd::std_specs::convert::FromSpecImpl<com_port::Error> for Error {
    open spec fn obeys_from_spec() -> bool {
        true
    }

    open spec fn from_spec(err: com_port::Error) -> Error {
        Error::SerialPort(err)
    }
}

/// Opcode: set the baud rate.
pub const OP_BAUD: u8 = 0x42;

/// Opcode: load bytes into RAM.
pub const OP_LOAD: u8 = 0x4C;

/// Opcode: read RAM back.
pub const OP_READ_BACK: u8 = 0x59;

/// Opcode: run the code in RAM.
pub const OP_RUN: u8 = 0x52;

/// Opcode: report the boot loader's identity.
pub const OP_IDENTITY: u8 = 0x49;

/// Opcode: erase the flash.
pub const OP_ERASE: u8 = 0x45;

/// Opcode: set the flash address.
pub const OP_ADDRESS: u8 = 0x41;

/// Opcode: program one chunk.
pub const OP_PROGRAM: u8 = 0x50;

/// Opcode: read eight bytes of flash back.
pub const OP_VERIFY: u8 = 0x56;

/// The byte that ends a line sent to the device.
pub const CARRIAGE_RETURN: u8 = 0x0D;

/// The byte `K`, with which the device confirms what it took.
pub const CONFIRM: u8 = 0x4B;

/// The device's answer to a flash address.
pub const ADDRESS_TAKEN: u8 = 0x08;

/// The address the device reports after a full erase: the end of flash.
pub const ERASE_END: u32 = 0x0802_0000;

/// The word the device reports after a full erase: erased flash.
pub const ERASED_WORD: u32 = 0xFFFF_FFFF;

/// The word sent with the address when the loaded bytes are read back.
pub const READ_BACK_WORD: u32 = 0x0000_0008;

/// The length of a chunk, the unit in which the device takes firmware.
pub const CHUNK: usize = 256;

/// The length of a block, the unit in which the device reads flash back.
pub const BLOCK: usize = 8;

/// A script under way: the log it started from and the steps done.
ghost struct Run {
    script: Seq<Step>,
    base: Seq<Exchange>,
    done: int,
}

impl Run {
    spec fn start(script: Seq<Step>, base: Seq<Exchange>) -> Run {
        Run { script, base, done: 0 }
    }

    spec fn at(self, log: Seq<Exchange>) -> bool {
        progressed(self.script, self.base, log, self.done)
    }

    spec fn due(self, step: Step) -> bool {
        self.done < self.script.len() && self.script[self.done] == step
    }

    spec fn next(self) -> Run {
        Run { done: self.done + 1, ..self }
    }

    spec fn stopped(self, log: Seq<Exchange>, e: Error) -> bool {
        halted(self.script, self.base, log, e)
    }
}

/// A write that the run was due takes the run one step on where it went
/// through, and stops the run where the transport failed.
proof fn lemma_sent(
    run: Run,
    before: Seq<Exchange>,
    after: Seq<Exchange>,
    data: Seq<u8>,
    fault: Option<com_port::Error>,
)
    requires
        run.at(before),
        run.due(Step::Send(data)),
        wrote(before, after, data, fault),
    ensures
        fault is None ==> run.next().at(after),
        fault matches Some(f) ==> run.stopped(after, Error::SerialPort(f)),
{
    assert(after.drop_last() =~= before);
    assert(after.take(run.base.len() as int) =~= before.take(run.base.len() as int));
}

/// Does the step `Send(buf)` of a run.
fn put<T: IOMethods>(port: &mut ComPort<T>, buf: Vec<u8>, Ghost(run): Ghost<Run>) -> (r: Result<
    (),
    Error,
>)
    requires
        run.at(old(port).log()),
        run.due(Step::Send(buf@)),
    ensures
        r is Ok ==> run.next().at(final(port).log()),
        r matches Err(e) ==> run.stopped(final(port).log(), e),
{
    let r = port.write_buf(buf);
    proof {
        lemma_sent(run, old(port).log(), port.log(), buf@, fault_of(r));
    }
    match r {
        Ok(()) => Ok(()),
        Err(e) => Err(Error::from(e)),
    }
}

/// Does a step that sends the one byte `code`, written as the text `op`.
fn put_op<T: IOMethods>(
    port: &mut ComPort<T>,
    op: &str,
    Ghost(code): Ghost<u8>,
    Ghost(run): Ghost<Run>,
) -> (r: Result<(), Error>)
    requires
        run.at(old(port).log()),
        run.due(Step::Send(seq![code])),
        op@.len() == 1,
        is_ascii_chars(op@),
        op@[0] as u8 == code,
    ensures
        r is Ok ==> run.next().at(final(port).log()),
        r matches Err(e) ==> run.stopped(final(port).log(), e),
{
    proof {
        is_ascii_chars_encode_utf8(op@);
        assert(encode_utf8(op@) =~= seq![code]);
    }
    let r = port.write_str(op);
    proof {
        lemma_sent(run, old(port).log(), port.log(), seq![code], fault_of(r));
    }
    match r {
        Ok(()) => Ok(()),
        Err(e) => Err(Error::from(e)),
    }
}

/// Does a step that sends a number as four bytes.
fn put_u32<T: IOMethods>(port: &mut ComPort<T>, value: u32, Ghost(run): Ghost<Run>) -> (r: Result<
    (),
    Error,
>)
    requires
        run.at(old(port).log()),
        run.due(Step::Send(le_bytes(value))),
    ensures
        r is Ok ==> run.next().at(final(port).log()),
        r matches Err(e) ==> run.stopped(final(port).log(), e),
{
    let r = port.write_u32(value);
    proof {
        lemma_sent(run, old(port).log(), port.log(), le_bytes(value), fault_of(r));
    }
    match r {
        Ok(()) => Ok(()),
        Err(e) => Err(Error::from(e)),
    }
}

/// The run `run` stood at the log `before`, its next step is a read of
/// `len` bytes, and the log `after` adds that read, which brought `bytes`.
spec fn delivered(
    run: Run,
    before: Seq<Exchange>,
    after: Seq<Exchange>,
    len: nat,
    bytes: Seq<u8>,
) -> bool {
    &&& run.at(before)
    &&& run.done < run.script.len()
    &&& run.script[run.done] is Recv
    &&& run.script[run.done]->len == len
    &&& asked(before, after, len)
    &&& last_reply(after) == Ok::<Seq<u8>, com_port::Error>(bytes)
}

/// A read that the transport failed stops the run.
proof fn lemma_undelivered(run: Run, before: Seq<Exchange>, after: Seq<Exchange>, len: nat, f: com_port::Error)
    requires
        run.at(before),
        run.done < run.script.len(),
        run.script[run.done] is Recv,
        run.script[run.done]->len == len,
        asked(before, after, len),
        last_reply(after) == Err::<Seq<u8>, com_port::Error>(f),
    ensures
        run.stopped(after, Error::SerialPort(f)),
{
}

/// A delivered reply that the step's check accepts takes the run one step
/// on.
proof fn lemma_accepted(run: Run, before: Seq<Exchange>, after: Seq<Exchange>, len: nat, bytes: Seq<u8>)
    requires
        delivered(run, before, after, len, bytes),
        accepts(run.script[run.done]->check, bytes),
    ensures
        run.next().at(after),
{
    assert(after.take(run.base.len() as int) =~= before.take(run.base.len() as int));
    assert forall|i: int| 0 <= i < run.done + 1 implies asks(
        #[trigger] run.script[i],
        after[run.base.len() + i],
    ) && passes(run.script[i], after[run.base.len() + i]) by {
        if i < run.done {
            assert(after[run.base.len() + i] == before[run.base.len() + i]);
        }
    }
}

/// A delivered reply that the step's check rejects stops the run.
proof fn lemma_rejected(
    run: Run,
    before: Seq<Exchange>,
    after: Seq<Exchange>,
    len: nat,
    bytes: Seq<u8>,
    e: Error,
)
    requires
        delivered(run, before, after, len, bytes),
        !accepts(run.script[run.done]->check, bytes),
        rejects_with(run.script[run.done]->check, bytes, e),
    ensures
        run.stopped(after, e),
{
}

/// Does the reading of a step `Recv`, and leaves the check of the reply to
/// the caller.
fn take<T: IOMethods>(port: &mut ComPort<T>, len: usize, Ghost(run): Ghost<Run>) -> (r: Result<
    Vec<u8>,
    Error,
>)
    requires
        run.at(old(port).log()),
        run.done < run.script.len(),
        run.script[run.done] is Recv,
        run.script[run.done]->len == len,
    ensures
        r matches Ok(bytes) ==> bytes.len() == len && delivered(
            run,
            old(port).log(),
            final(port).log(),
            len as nat,
            bytes@,
        ),
        r matches Err(e) ==> run.stopped(final(port).log(), e),
{
    match port.read_buf(len) {
        Ok(bytes) => Ok(bytes),
        Err(f) => {
            proof {
                lemma_undelivered(run, old(port).log(), port.log(), len as nat, f);
            }
            Err(Error::from(f))
        },
    }
}

/// Does a step `Recv` whose reply may be anything.
fn take_any<T: IOMethods>(port: &mut ComPort<T>, len: usize, Ghost(run): Ghost<Run>) -> (r: Result<
    Vec<u8>,
    Error,
>)
    requires
        run.at(old(port).log()),
        run.due(Step::Recv { len: len as nat, check: Check::Any }),
    ensures
        r matches Ok(bytes) ==> run.next().at(final(port).log()) && last_reply(final(port).log())
            == Ok::<Seq<u8>, com_port::Error>(bytes@) && bytes.len() == len,
        r matches Err(e) ==> run.stopped(final(port).log(), e),
{
    let bytes = take(port, len, Ghost(run))?;
    proof {
        lemma_accepted(run, old(port).log(), port.log(), len as nat, bytes@);
    }
    Ok(bytes)
}

/// Does a step `Recv` of four bytes of any kind, read as a number.
fn take_u32<T: IOMethods>(port: &mut ComPort<T>, Ghost(run): Ghost<Run>) -> (r: Result<u32, Error>)
    requires
        run.at(old(port).log()),
        run.due(Step::Recv { len: 4, check: Check::Any }),
    ensures
        r matches Ok(value) ==> run.next().at(final(port).log()) && asked(
            old(port).log(),
            final(port).log(),
            4,
        ) && last_reply(final(port).log()) is Ok && value == le_value(
            last_bytes(final(port).log()),
        ),
        r matches Err(e) ==> run.stopped(final(port).log(), e),
{
    match port.read_u32() {
        Ok(value) => {
            proof {
                lemma_accepted(run, old(port).log(), port.log(), 4, last_bytes(port.log()));
            }
            Ok(value)
        },
        Err(f) => {
            proof {
                lemma_undelivered(run, old(port).log(), port.log(), 4, f);
            }
            Err(Error::from(f))
        },
    }
}

/// Whether two buffers hold the same bytes.
fn same_bytes(a: &[u8], b: &[u8]) -> (same: bool)
    ensures
        same == (a@ == b@),
{
    if a.len() != b.len() {
        return false;
    }
    let mut i: usize = 0;
    while i < a.len()
        invariant
            i <= a.len(),
            a.len() == b.len(),
            a@.take(i as int) == b@.take(i as int),
        decreases a.len() - i,
    {
        if a[i] != b[i] {
            return false;
        }
        i += 1;
        assert(a@.take(i as int) =~= a@.take(i - 1).push(a@[i - 1]));
        assert(b@.take(i as int) =~= b@.take(i - 1).push(b@[i - 1]));
    }
    assert(a@.take(i as int) =~= a@ && b@.take(i as int) =~= b@);
    true
}

/// Does a step `Recv` whose reply has to be `expect`.
fn take_exactly<T: IOMethods>(
    port: &mut ComPort<T>,
    expect: &[u8],
    ack: Ack,
    Ghost(run): Ghost<Run>,
) -> (r: Result<Vec<u8>, Error>)
    requires
        run.at(old(port).log()),
        run.due(
            Step::Recv { len: expect@.len(), check: Check::Exactly { ack, expect: expect@ } },
        ),
    ensures
        r matches Ok(bytes) ==> run.next().at(final(port).log()) && bytes@ == expect@,
        r matches Err(e) ==> run.stopped(final(port).log(), e),
{
    let bytes = take(port, expect.len(), Ghost(run))?;
    if same_bytes(bytes.as_slice(), expect) {
        proof {
            lemma_accepted(run, old(port).log(), port.log(), expect@.len(), bytes@);
        }
        Ok(bytes)
    } else {
        let e = Error::Protocol { ack, reply: bytes };
        proof {
            lemma_rejected(run, old(port).log(), port.log(), expect@.len(), bytes@, e);
        }
        Err(e)
    }
}

/// A run that has not begun stands at the log it starts from.
proof fn lemma_start(script: Seq<Step>, base: Seq<Exchange>)
    ensures
        Run::start(script, base).at(base),
{
    assert(base.take(base.len() as int) =~= base);
}

/// A run goes on with a script of its own steps: where the run stood at
/// `before` and its next steps are those of `sub`, running `sub` from
/// `before` takes the run on by as many steps where `sub` went through, and
/// stops the run where `sub` halted.
proof fn lemma_continued(
    run: Run,
    before: Seq<Exchange>,
    after: Seq<Exchange>,
    sub: Seq<Step>,
    r: Result<(), Error>,
)
    requires
        run.at(before),
        run.done + sub.len() <= run.script.len(),
        forall|i: int| 0 <= i < sub.len() ==> run.script[run.done + i] == sub[i],
        drove(sub, before, after, r),
    ensures
        r is Ok ==> (Run { done: run.done + sub.len(), ..run }).at(after),
        r matches Err(e) ==> run.stopped(after, e),
{
    let base = run.base.len() as int;
    let done = run.done;
    assert(before.len() == base + done);
    match r {
        Ok(_) => {
            assert(after.take(base) =~= after.take(before.len() as int).take(base));
            assert forall|i: int| 0 <= i < done + sub.len() implies asks(
                #[trigger] run.script[i],
                after[base + i],
            ) && passes(run.script[i], after[base + i]) by {
                if i < done {
                    assert(after[base + i] == after.take(before.len() as int)[base + i]);
                } else {
                    assert(run.script[done + (i - done)] == sub[i - done]);
                    assert(after[before.len() + (i - done)] == after[base + i]);
                }
            }
        },
        Err(e) => {
            let n = after.len() - before.len();
            let prior = after.drop_last();
            assert(run.script[done + (n - 1)] == sub[n - 1]);
            assert(prior.take(base) =~= prior.take(before.len() as int).take(base));
            assert forall|i: int| 0 <= i < done + n - 1 implies asks(
                #[trigger] run.script[i],
                prior[base + i],
            ) && passes(run.script[i], prior[base + i]) by {
                if i < done {
                    assert(prior[base + i] == prior.take(before.len() as int)[base + i]);
                } else {
                    assert(run.script[done + (i - done)] == sub[i - done]);
                    assert(prior[before.len() + (i - done)] == prior[base + i]);
                }
            }
        },
    }
}

/// `n` zero bytes.
pub open spec fn zeros(n: nat) -> Seq<u8> {
    Seq::new(n, |i: int| 0u8)
}

/// Makes `n` zero bytes.
fn zero_bytes(n: usize) -> (buf: Vec<u8>)
    ensures
        buf@ == zeros(n as nat),
{
    let mut buf: Vec<u8> = Vec::new();
    let mut i: usize = 0;
    while i < n
        invariant
            i <= n,
            buf@ == zeros(i as nat),
        decreases n - i,
    {
        buf.push(0);
        i += 1;
        assert(buf@ =~= zeros(i as nat));
    }
    buf
}

/// Makes a buffer of the one byte `b`.
fn one_byte(b: u8) -> (buf: Vec<u8>)
    ensures
        buf@ == seq![b],
{
    let buf: Vec<u8> = vec![b];
    assert(buf@ =~= seq![b]);
    buf
}

/// The script of the liveness check: 512 zero bytes go out, three bytes of
/// any kind come back.
pub open spec fn check_port_script() -> Seq<Step> {
    seq![Step::Send(zeros(512)), Step::Recv { len: 3, check: Check::Any }]
}

/// Checks that the device answers at all.
///
/// Succeeds exactly when the write and the read both go through; what the
/// three bytes are does not matter.
pub fn check_port<T: IOMethods>(port: &mut ComPort<T>) -> (r: Result<(), Error>)
    ensures
        drove(check_port_script(), old(port).log(), final(port).log(), r),
{
    let ghost mut run = Run::start(check_port_script(), port.log());
    proof {
        lemma_start(run.script, run.base);
    }
    put(port, zero_bytes(512), Ghost(run))?;
    proof {
        run = run.next();
    }
    take_any(port, 3, Ghost(run))?;
    Ok(())
}

/// The liveness check succeeds exactly when the write and the read both go
/// through, and its only error is a failure of the transport.
pub proof fn lemma_check_port_outcome(
    base: Seq<Exchange>,
    log: Seq<Exchange>,
    r: Result<(), Error>,
)
    requires
        drove(check_port_script(), base, log, r),
    ensures
        r is Ok <==> {
            let first = base.len() as int;
            &&& log.len() == first + 2
            &&& log[first] matches Exchange::Sent { data, fault } && fault is None
            &&& log[first + 1] matches Exchange::Received { len, reply } && checked_reply(
                len,
                reply,
            ) is Ok
        },
        r matches Err(e) ==> e is SerialPort,
{
    let script = check_port_script();
    let first = base.len() as int;
    match r {
        Ok(_) => {
            assert(passes(script[0], log[first + 0]));
            assert(passes(script[1], log[first + 1]));
        },
        Err(e) => {
            let n = log.len() - base.len();
            if n == 2 {
                assert(log.drop_last()[first + 0] == log[first + 0]);
            }
        },
    }
}

/// The script that sets the baud rate: `B`, the rate, a carriage return;
/// one byte of any kind comes back.
pub open spec fn set_baud_rate_script(baud_rate: u32) -> Seq<Step> {
    seq![
        Step::Send(seq![OP_BAUD]),
        Step::Send(le_bytes(baud_rate)),
        Step::Send(seq![CARRIAGE_RETURN]),
        Step::Recv { len: 1, check: Check::Any },
    ]
}

/// Tells the device to go on at `baud_rate`. The caller then has to reopen
/// the transport at that rate.
pub fn set_baud_rate<T: IOMethods>(port: &mut ComPort<T>, baud_rate: u32) -> (r: Result<
    (),
    Error,
>)
    ensures
        drove(set_baud_rate_script(baud_rate), old(port).log(), final(port).log(), r),
{
    let ghost mut run = Run::start(set_baud_rate_script(baud_rate), port.log());
    proof {
        lemma_start(run.script, run.base);
        reveal_strlit("B");
    }
    put_op(port, "B", Ghost(OP_BAUD), Ghost(run))?;
    proof {
        run = run.next();
    }
    put_u32(port, baud_rate, Ghost(run))?;
    proof {
        run = run.next();
    }
    put(port, one_byte(CARRIAGE_RETURN), Ghost(run))?;
    proof {
        run = run.next();
    }
    take_any(port, 1, Ghost(run))?;
    Ok(())
}

/// The prompt with which the device confirms a baud rate.
pub open spec fn prompt() -> Seq<u8> {
    seq![0x0Du8, 0x0Au8, 0x3Eu8]
}

/// The script that confirms the baud rate: a carriage return goes out and
/// the prompt comes back.
pub open spec fn read_baud_rate_script() -> Seq<Step> {
    seq![
        Step::Send(seq![CARRIAGE_RETURN]),
        Step::Recv { len: 3, check: Check::Exactly { ack: Ack::BaudRate, expect: prompt() } },
    ]
}

/// Checks that the device answers at the new baud rate, and returns its
/// prompt.
pub fn read_baud_rate<T: IOMethods>(port: &mut ComPort<T>) -> (r: Result<Vec<u8>, Error>)
    ensures
        match r {
            Ok(reply) => passed(read_baud_rate_script(), old(port).log(), final(port).log())
                && reply@ == prompt(),
            Err(e) => halted(read_baud_rate_script(), old(port).log(), final(port).log(), e),
        },
{
    let ghost mut run = Run::start(read_baud_rate_script(), port.log());
    proof {
        lemma_start(run.script, run.base);
    }
    put(port, one_byte(CARRIAGE_RETURN), Ghost(run))?;
    proof {
        run = run.next();
    }
    let expect: Vec<u8> = vec![0x0D, 0x0A, 0x3E];
    assert(expect@ =~= prompt());
    take_exactly(port, expect.as_slice(), Ack::BaudRate, Ghost(run))
}

/// Once the carriage return is out and three bytes are back, the baud rate
/// is confirmed exactly if the three bytes are `0D 0A 3E`; any other three
/// bytes are a protocol error that carries them.
pub proof fn lemma_read_baud_rate_outcome(
    base: Seq<Exchange>,
    log: Seq<Exchange>,
    r: Result<(), Error>,
)
    requires
        drove(read_baud_rate_script(), base, log, r),
        log.len() == base.len() + 2,
        last_reply(log) is Ok,
    ensures
        r is Ok <==> last_bytes(log) == seq![0x0Du8, 0x0Au8, 0x3Eu8],
        r matches Err(e) ==> (e matches Error::Protocol { ack, reply } && ack == Ack::BaudRate
            && reply@ == last_bytes(log)),
{
    let script = read_baud_rate_script();
    let first = base.len() as int;
    assert(log.last() == log[first + 1]);
    match r {
        Ok(_) => {
            assert(passes(script[1], log[first + 1]));
        },
        Err(e) => {},
    }
}

/// The script that loads and starts the boot loader `image`.
///
/// The header `L`, address, size is acknowledged with `L`; the bytes, sent
/// in one transfer, with `K`; the read-back `Y`, address, 8 with ten bytes
/// from `Y` to `K`; and the order to run, `R`, address, size, with `R`.
pub open spec fn boot_load_script(image: Image) -> Seq<Step> {
    let addr = le_bytes(image.addr);
    let size = le_bytes(image.data.len() as u32);
    seq![
        Step::Send(seq![OP_LOAD]),
        Step::Send(addr),
        Step::Send(size),
        Step::Recv {
            len: 1,
            check: Check::Exactly { ack: Ack::LoadHeader, expect: seq![OP_LOAD] },
        },
        Step::Send(image.data),
        Step::Recv {
            len: 1,
            check: Check::Exactly { ack: Ack::LoadBody, expect: seq![CONFIRM] },
        },
        Step::Send(seq![OP_READ_BACK]),
        Step::Send(addr),
        Step::Send(le_bytes(READ_BACK_WORD)),
        Step::Recv {
            len: 10,
            check: Check::Framed { ack: Ack::LoadCheck, first: OP_READ_BACK, last: CONFIRM },
        },
        Step::Send(seq![OP_RUN]),
        Step::Send(addr),
        Step::Send(size),
        Step::Recv { len: 1, check: Check::Exactly { ack: Ack::LoadRun, expect: seq![OP_RUN] } },
    ]
}

/// Loads the boot loader `data` into the device's RAM and starts it.
#[verifier::rlimit(50)]
pub fn boot_load<T: IOMethods>(port: &mut ComPort<T>, data: HexFile) -> (r: Result<(), Error>)
    ensures
        drove(boot_load_script(data@), old(port).log(), final(port).log(), r),
{
    let ghost mut run = Run::start(boot_load_script(data@), port.log());
    proof {
        lemma_start(run.script, run.base);
        reveal_strlit("L");
        reveal_strlit("Y");
        reveal_strlit("R");
    }
    let addr = data.addr();
    let size = data.size();

    put_op(port, "L", Ghost(OP_LOAD), Ghost(run))?;
    proof {
        run = run.next();
    }
    put_u32(port, addr, Ghost(run))?;
    proof {
        run = run.next();
    }
    put_u32(port, size, Ghost(run))?;
    proof {
        run = run.next();
    }
    take_exactly(port, one_byte(OP_LOAD).as_slice(), Ack::LoadHeader, Ghost(run))?;
    proof {
        run = run.next();
    }

    put(port, data.into_buf(), Ghost(run))?;
    proof {
        run = run.next();
    }
    take_exactly(port, one_byte(CONFIRM).as_slice(), Ack::LoadBody, Ghost(run))?;
    proof {
        run = run.next();
    }

    put_op(port, "Y", Ghost(OP_READ_BACK), Ghost(run))?;
    proof {
        run = run.next();
    }
    put_u32(port, addr, Ghost(run))?;
    proof {
        run = run.next();
    }
    put_u32(port, READ_BACK_WORD, Ghost(run))?;
    proof {
        run = run.next();
    }
    let ghost before = port.log();
    let reply = take(port, 10, Ghost(run))?;
    if reply[0] == OP_READ_BACK && reply[9] == CONFIRM {
        proof {
            lemma_accepted(run, before, port.log(), 10, reply@);
        }
    } else {
        let e = Error::Protocol { ack: Ack::LoadCheck, reply };
        proof {
            lemma_rejected(run, before, port.log(), 10, reply@, e);
        }
        return Err(e);
    }
    proof {
        run = run.next();
    }

    put_op(port, "R", Ghost(OP_RUN), Ghost(run))?;
    proof {
        run = run.next();
    }
    put_u32(port, addr, Ghost(run))?;
    proof {
        run = run.next();
    }
    put_u32(port, size, Ghost(run))?;
    proof {
        run = run.next();
    }
    take_exactly(port, one_byte(OP_RUN).as_slice(), Ack::LoadRun, Ghost(run))?;
    Ok(())
}

/// The script that asks the boot loader who it is: `I` goes out, twelve
/// bytes come back.
pub open spec fn read_info_script() -> Seq<Step> {
    seq![Step::Send(seq![OP_IDENTITY]), Step::Recv { len: 12, check: Check::Any }]
}

/// Reads the boot loader's identity and returns it as text. The text is
/// not held to anything; a boot loader of this family answers
/// `1986BOOTUART`.
pub fn read_info<T: IOMethods>(port: &mut ComPort<T>) -> (r: Result<String, Error>)
    ensures
        match r {
            Ok(text) => {
                let bytes = last_bytes(final(port).log());
                &&& passed(read_info_script(), old(port).log(), final(port).log())
                &&& text@ == utf8_lossy(bytes)
                &&& valid_utf8(bytes) ==> encode_utf8(text@) == bytes
            },
            Err(e) => halted(read_info_script(), old(port).log(), final(port).log(), e),
        },
{
    let ghost mut run = Run::start(read_info_script(), port.log());
    proof {
        lemma_start(run.script, run.base);
        reveal_strlit("I");
    }
    put_op(port, "I", Ghost(OP_IDENTITY), Ghost(run))?;
    proof {
        run = run.next();
    }
    let ghost before = port.log();
    match port.read_str(12) {
        Ok(text) => {
            proof {
                lemma_accepted(run, before, port.log(), 12, last_bytes(port.log()));
            }
            Ok(text)
        },
        Err(f) => {
            proof {
                lemma_undelivered(run, before, port.log(), 12, f);
            }
            Err(Error::from(f))
        },
    }
}

/// The script of a full erase: `E` goes out and comes back, then the device
/// reports an address and a word, four bytes each.
pub open spec fn erase_script() -> Seq<Step> {
    seq![
        Step::Send(seq![OP_ERASE]),
        Step::Recv { len: 1, check: Check::Exactly { ack: Ack::Erase, expect: seq![OP_ERASE] } },
        Step::Recv { len: 4, check: Check::Any },
        Step::Recv { len: 4, check: Check::Any },
    ]
}

/// The report of a full erase that worked: the end of flash, and an erased
/// word.
pub open spec fn erased(addr: u32, data: u32) -> bool {
    addr == ERASE_END && data == ERASED_WORD
}

/// Judges the device's report of an erase: `Ok` for the end of flash with an
/// erased word, and for any other pair the error that carries the pair.
pub fn check_erase(addr: u32, data: u32) -> (r: Result<(), Error>)
    ensures
        erased(addr, data) ==> r is Ok,
        !erased(addr, data) ==> r == Err::<(), Error>(Error::Erase { addr, data }),
{
    if addr == ERASE_END && data == ERASED_WORD {
        Ok(())
    } else {
        Err(Error::Erase { addr, data })
    }
}

/// The address that an erase reported: the number in the reply before the
/// latest of `log`.
pub open spec fn erase_addr(log: Seq<Exchange>) -> u32 {
    le_value(last_bytes(log.drop_last()))
}

/// The word that an erase reported: the number in the latest reply of
/// `log`.
pub open spec fn erase_data(log: Seq<Exchange>) -> u32 {
    le_value(last_bytes(log))
}

/// `r` is how an erase that took the log from `base` to `log` ended.
///
/// It succeeded where the script went through and the device reported the
/// end of flash and an erased word. Where the script went through and the
/// device reported another pair, the error carries that pair. Otherwise the
/// script halted and the error tells where.
pub open spec fn erase_ended(base: Seq<Exchange>, log: Seq<Exchange>, r: Result<(), Error>) -> bool {
    match r {
        Ok(_) => passed(erase_script(), base, log) && erased(erase_addr(log), erase_data(log)),
        Err(e) => if passed(erase_script(), base, log) {
            &&& !erased(erase_addr(log), erase_data(log))
            &&& e == (Error::Erase { addr: erase_addr(log), data: erase_data(log) })
        } else {
            halted(erase_script(), base, log, e)
        },
    }
}

/// Erases the whole flash and checks the device's report.
///
/// Fails as the script fails; where the script went through, succeeds if
/// the device reported the end of flash and an erased word, and fails with
/// the reported pair otherwise.
pub fn erase<T: IOMethods>(port: &mut ComPort<T>) -> (r: Result<(), Error>)
    ensures
        erase_ended(old(port).log(), final(port).log(), r),
{
    let ghost mut run = Run::start(erase_script(), port.log());
    proof {
        lemma_start(run.script, run.base);
        reveal_strlit("E");
    }
    put_op(port, "E", Ghost(OP_ERASE), Ghost(run))?;
    proof {
        run = run.next();
    }
    take_exactly(port, one_byte(OP_ERASE).as_slice(), Ack::Erase, Ghost(run))?;
    proof {
        run = run.next();
    }
    let addr = take_u32(port, Ghost(run))?;
    proof {
        run = run.next();
    }
    let ghost middle = port.log();
    let data = take_u32(port, Ghost(run))?;
    proof {
        assert(port.log().drop_last() == middle);
    }
    check_erase(addr, data)
}

/// Once the erase's script went through, the erase succeeds for the report
/// `0x08020000`, `0xFFFFFFFF` and for no other; any other report is the
/// error, value for value.
pub proof fn lemma_erase_outcome(base: Seq<Exchange>, log: Seq<Exchange>, r: Result<(), Error>)
    requires
        passed(erase_script(), base, log),
        erase_ended(base, log, r),
    ensures
        r is Ok <==> erase_addr(log) == 0x0802_0000 && erase_data(log) == 0xFFFF_FFFF,
        r is Err ==> r == Err::<(), Error>(
            Error::Erase { addr: erase_addr(log), data: erase_data(log) },
        ),
{
}

/// The sum of the bytes of `s` as a mathematical integer.
pub open spec fn byte_sum(s: Seq<u8>) -> int
    decreases s.len(),
{
    if s.len() == 0 {
        0
    } else {
        byte_sum(s.drop_last()) + s.last()
    }
}

/// The checksum of a buffer: the sum of its bytes modulo 256.
pub open spec fn checksum_of(s: Seq<u8>) -> u8 {
    (byte_sum(s) % 256) as u8
}

/// Computes the checksum of `buf`: its bytes added up with wraparound.
pub fn checksum(buf: &[u8]) -> (sum: u8)
    ensures
        sum == checksum_of(buf@),
{
    let mut sum: u8 = 0;
    let mut i: usize = 0;
    while i < buf.len()
        invariant
            i <= buf.len(),
            sum == checksum_of(buf@.take(i as int)),
        decreases buf.len() - i,
    {
        proof {
            let next = buf@.take(i + 1);
            assert(next.drop_last() == buf@.take(i as int));
            assert(next.last() == buf@[i as int]);
        }
        sum = sum.wrapping_add(buf[i]);
        i += 1;
    }
    assert(buf@.take(i as int) == buf@);
    sum
}

/// The checksum is a function of the bytes: the same bytes always have
/// the same checksum.
pub proof fn lemma_checksum_is_fixed(a: Seq<u8>, b: Seq<u8>)
    requires
        a == b,
    ensures
        checksum_of(a) == checksum_of(b),
{
}

/// The checksum of a buffer with one more byte is the checksum of the
/// buffer plus that byte, modulo 256.
pub proof fn lemma_checksum_push(buf: Seq<u8>, b: u8)
    ensures
        checksum_of(buf.push(b)) == (checksum_of(buf) + b) % 256,
{
    assert(buf.push(b).drop_last() =~= buf);
}

/// The sum of two buffers joined is the sum of their sums.
pub proof fn lemma_byte_sum_concat(a: Seq<u8>, b: Seq<u8>)
    ensures
        byte_sum(a + b) == byte_sum(a) + byte_sum(b),
    decreases b.len(),
{
    if b.len() == 0 {
        assert(a + b =~= a);
    } else {
        assert((a + b).drop_last() =~= a + b.drop_last());
        lemma_byte_sum_concat(a, b.drop_last());
    }
}

/// The checksum of two buffers joined is the sum of their checksums,
/// modulo 256: the sum wraps, and may be taken piece by piece.
pub proof fn lemma_checksum_concat(a: Seq<u8>, b: Seq<u8>)
    ensures
        checksum_of(a + b) == (checksum_of(a) + checksum_of(b)) % 256,
{
    lemma_byte_sum_concat(a, b);
    lemma_byte_sum_nonnegative(a);
    lemma_byte_sum_nonnegative(b);
}

/// A sum of bytes is not negative.
pub proof fn lemma_byte_sum_nonnegative(s: Seq<u8>)
    ensures
        byte_sum(s) >= 0,
    decreases s.len(),
{
    if s.len() > 0 {
        lemma_byte_sum_nonnegative(s.drop_last());
    }
}

/// Zero bytes add nothing to a sum.
pub proof fn lemma_byte_sum_zeros(n: nat)
    ensures
        byte_sum(zeros(n)) == 0,
    decreases n,
{
    if n > 0 {
        assert(zeros(n).drop_last() =~= zeros((n - 1) as nat));
        lemma_byte_sum_zeros((n - 1) as nat);
    }
}

/// The script that sets the flash address: `A` and the address go out,
/// `08` comes back.
pub open spec fn address_script(addr: u32) -> Seq<Step> {
    seq![
        Step::Send(seq![OP_ADDRESS]),
        Step::Send(le_bytes(addr)),
        Step::Recv {
            len: 1,
            check: Check::Exactly { ack: Ack::FlashAddress, expect: seq![ADDRESS_TAKEN] },
        },
    ]
}

/// Does the three steps that set the flash address.
fn set_address<T: IOMethods>(port: &mut ComPort<T>, addr: u32, Ghost(run): Ghost<Run>) -> (r:
    Result<(), Error>)
    requires
        run.at(old(port).log()),
        run.done == 0,
        run.script.len() >= 3,
        run.script.take(3) == address_script(addr),
    ensures
        r is Ok ==> (Run { done: 3, ..run }).at(final(port).log()),
        r matches Err(e) ==> run.stopped(final(port).log(), e),
{
    let ghost mut run = run;
    proof {
        reveal_strlit("A");
        assert(run.script[0] == address_script(addr)[0]);
        assert(run.script[1] == address_script(addr)[1]);
        assert(run.script[2] == address_script(addr)[2]);
    }
    put_op(port, "A", Ghost(OP_ADDRESS), Ghost(run))?;
    proof {
        run = run.next();
    }
    put_u32(port, addr, Ghost(run))?;
    proof {
        run = run.next();
    }
    take_exactly(port, one_byte(ADDRESS_TAKEN).as_slice(), Ack::FlashAddress, Ghost(run))?;
    Ok(())
}

/// The number of chunks that `len` bytes make: the last one may be short.
pub open spec fn chunk_count(len: nat) -> nat {
    (len + 255) / 256
}

/// Counts the chunks that `len` bytes make.
fn chunks(len: usize) -> (count: usize)
    ensures
        count == chunk_count(len as nat),
{
    if len % CHUNK == 0 {
        len / CHUNK
    } else {
        len / CHUNK + 1
    }
}

/// Chunk `i` of `data`: the bytes from `256 * i` on, 256 of them or as many
/// as are left.
pub open spec fn chunk(data: Seq<u8>, i: int) -> Seq<u8> {
    data.subrange(256 * i, if 256 * i + 256 <= data.len() {
        256 * i + 256
    } else {
        data.len() as int
    })
}

/// How long chunk `index` of `len` bytes is, and where it ends: every chunk
/// but the last is 256 bytes, that is 32 blocks, and the last ends where
/// the bytes end.
proof fn lemma_chunk_lengths(len: nat, index: int)
    requires
        0 <= index < chunk_count(len),
    ensures
        256 * index < len,
        index + 1 < chunk_count(len) ==> 256 * index + 256 < len && block_count(
            (256 * index + 256) as nat,
        ) == 32 * (index + 1),
        index + 1 == chunk_count(len) ==> len <= 256 * index + 256,
        block_count((256 * index) as nat) == 32 * index,
{
}

/// Takes chunk `index` out of `buf`.
fn chunk_of(buf: &[u8], index: usize) -> (part: &[u8])
    requires
        index < chunk_count(buf@.len()),
    ensures
        part@ == chunk(buf@, index as int),
        part@.len() <= 256,
        part@.len() == 256 || 256 * index + part@.len() == buf@.len(),
{
    let len: usize = buf.len();
    proof {
        lemma_chunk_lengths(len as nat, index as int);
    }
    let start: usize = CHUNK * index;
    let end: usize = if len - start > CHUNK {
        start + CHUNK
    } else {
        len
    };
    slice_subrange(buf, start, end)
}

/// A chunk as it is sent: filled up to 256 bytes with zeros.
pub open spec fn padded(chunk: Seq<u8>) -> Seq<u8> {
    chunk + zeros((256 - chunk.len()) as nat)
}

/// The script for chunk number `index` of an image, `chunk`: `P` goes out,
/// then the chunk filled up to 256 bytes with zeros, and one byte comes
/// back that has to be the checksum of those 256 bytes.
pub open spec fn chunk_script(index: nat, chunk: Seq<u8>) -> Seq<Step> {
    seq![
        Step::Send(seq![OP_PROGRAM]),
        Step::Send(padded(chunk)),
        Step::Recv { len: 1, check: Check::Sum { chunk: index, expected: checksum_of(padded(chunk)) } },
    ]
}

/// Step `k` of the steps that program `data`, three to a chunk: the steps
/// of the chunks' scripts, one chunk after the other.
pub open spec fn program_step(data: Seq<u8>, k: int) -> Step {
    chunk_script((k / 3) as nat, chunk(data, k / 3))[k % 3]
}

/// The script that programs `image`: the flash address is set, then the
/// chunks go out in ascending order.
pub open spec fn program_script(image: Image) -> Seq<Step> {
    address_script(image.addr) + Seq::new(
        3 * chunk_count(image.data.len()),
        |k: int| program_step(image.data, k),
    )
}

/// A chunk filled up with zeros is 256 bytes long, begins with the chunk,
/// and has the chunk's checksum: the zeros add nothing.
pub proof fn lemma_padding_keeps_checksum(chunk: Seq<u8>)
    requires
        chunk.len() <= 256,
    ensures
        padded(chunk).len() == 256,
        padded(chunk).take(chunk.len() as int) == chunk,
        forall|i: int| chunk.len() <= i < 256 ==> padded(chunk)[i] == 0,
        checksum_of(padded(chunk)) == checksum_of(chunk),
{
    lemma_byte_sum_concat(chunk, zeros((256 - chunk.len()) as nat));
    lemma_byte_sum_zeros((256 - chunk.len()) as nat);
    assert(padded(chunk).take(chunk.len() as int) =~= chunk);
}

/// What `program` exchanges for chunk `i` of an image: after the three steps
/// that set the address and three steps for each chunk before it, `P` goes
/// out, then the chunk filled up to 256 bytes with zeros, and the byte that
/// comes back is held to the checksum of those 256 bytes.
pub proof fn lemma_program_chunk_steps(image: Image, i: int)
    requires
        0 <= i < chunk_count(image.data.len()),
    ensures
        program_script(image).len() == 3 + 3 * chunk_count(image.data.len()),
        program_script(image)[3 + 3 * i] == Step::Send(seq![OP_PROGRAM]),
        program_script(image)[3 + 3 * i + 1] == Step::Send(padded(chunk(image.data, i))),
        program_script(image)[3 + 3 * i + 2] == (Step::Recv {
            len: 1,
            check: Check::Sum {
                chunk: i as nat,
                expected: checksum_of(padded(chunk(image.data, i))),
            },
        }),
        chunk(image.data, i).len() <= 256,
        padded(chunk(image.data, i)).len() == 256,
{
}

/// What an exchange of one chunk comes to where both writes went through
/// and one byte came back: `P` went out, then the 256 bytes that are the
/// chunk and zeros after it, in that order, and one read of one byte
/// followed. The result is `Ok` exactly if that byte is the checksum of the
/// 256 bytes, and otherwise the error that holds the chunk's number, the
/// checksum and the byte.
pub proof fn lemma_chunk_outcome(
    index: nat,
    chunk: Seq<u8>,
    base: Seq<Exchange>,
    log: Seq<Exchange>,
    r: Result<(), Error>,
)
    requires
        chunk.len() <= 256,
        index <= usize::MAX,
        drove(chunk_script(index, chunk), base, log, r),
        log.len() == base.len() + 3,
        last_reply(log) is Ok,
    ensures
        log.take(base.len() as int) == base,
        log[base.len() as int] == (Exchange::Sent { data: seq![0x50u8], fault: None }),
        log[base.len() as int + 1] == (Exchange::Sent {
            data: chunk + zeros((256 - chunk.len()) as nat),
            fault: None,
        }),
        (chunk + zeros((256 - chunk.len()) as nat)).len() == 256,
        log[base.len() as int + 2] is Received,
        log[base.len() as int + 2]->len == 1,
        last_bytes(log).len() == 1,
        r is Ok <==> last_bytes(log)[0] == checksum_of(chunk + zeros((256 - chunk.len()) as nat)),
        r is Err ==> r == Err::<(), Error>(
            Error::Checksum {
                chunk: index as usize,
                expected: checksum_of(chunk + zeros((256 - chunk.len()) as nat)),
                actual: last_bytes(log)[0],
            },
        ),
{
    let script = chunk_script(index, chunk);
    let first = base.len() as int;
    assert(log.last() == log[first + 2]);
    match r {
        Ok(_) => {
            assert(asks(script[0], log[first + 0]) && passes(script[0], log[first + 0]));
            assert(asks(script[1], log[first + 1]) && passes(script[1], log[first + 1]));
            assert(asks(script[2], log[first + 2]) && passes(script[2], log[first + 2]));
        },
        Err(e) => {
            let before = log.drop_last();
            assert(asks(script[0], before[first + 0]) && passes(script[0], before[first + 0]));
            assert(asks(script[1], before[first + 1]) && passes(script[1], before[first + 1]));
            assert(before[first + 0] == log[first + 0]);
            assert(before[first + 1] == log[first + 1]);
            assert(before.take(first) =~= log.take(first));
        },
    }
}

/// Sends one chunk of an image, `buf`, filled up to 256 bytes with zeros,
/// and checks the checksum that the device answers with. `index` is the
/// chunk's number, for the error.
#[verifier::rlimit(50)]
pub fn write_program_chunk<T: IOMethods>(port: &mut ComPort<T>, buf: &[u8], index: usize) -> (r:
    Result<(), Error>)
    requires
        buf@.len() <= 256,
    ensures
        drove(chunk_script(index as nat, buf@), old(port).log(), final(port).log(), r),
{
    let ghost mut run = Run::start(chunk_script(index as nat, buf@), port.log());
    proof {
        lemma_start(run.script, run.base);
        reveal_strlit("P");
    }
    let mut wbuf = slice_to_vec(buf);
    let mut fill: usize = buf.len();
    while fill < CHUNK
        invariant
            buf@.len() <= fill <= 256,
            wbuf@ == buf@ + zeros((fill - buf@.len()) as nat),
        decreases 256 - fill,
    {
        wbuf.push(0);
        fill += 1;
        assert(wbuf@ =~= buf@ + zeros((fill - buf@.len()) as nat));
    }
    let sum = checksum(wbuf.as_slice());

    put_op(port, "P", Ghost(OP_PROGRAM), Ghost(run))?;
    proof {
        run = run.next();
    }
    put(port, wbuf, Ghost(run))?;
    proof {
        run = run.next();
    }
    let ghost before = port.log();
    match port.read_byte() {
        Ok(rsum) => {
            if rsum == sum {
                proof {
                    lemma_accepted(run, before, port.log(), 1, last_bytes(port.log()));
                }
                Ok(())
            } else {
                let e = Error::Checksum { chunk: index, expected: sum, actual: rsum };
                proof {
                    lemma_rejected(run, before, port.log(), 1, last_bytes(port.log()), e);
                }
                Err(e)
            }
        },
        Err(f) => {
            proof {
                lemma_undelivered(run, before, port.log(), 1, f);
            }
            Err(Error::from(f))
        },
    }
}

/// Writes `data` to the flash, from its load address on, in chunks of 256
/// bytes. The device answers each chunk with its checksum; the first
/// checksum that differs ends the command.
#[verifier::rlimit(50)]
pub fn program<T: IOMethods>(port: &mut ComPort<T>, data: &HexFile) -> (r: Result<(), Error>)
    ensures
        drove(program_script(data@), old(port).log(), final(port).log(), r),
{
    let ghost mut run = Run::start(program_script(data@), port.log());
    proof {
        lemma_start(run.script, run.base);
        assert(run.script.take(3) =~= address_script(data@.addr));
    }
    set_address(port, data.addr(), Ghost(run))?;
    proof {
        run = Run { done: 3, ..run };
    }
    let buf = data.buf().as_slice();
    let count: usize = chunks(buf.len());
    let mut index: usize = 0;
    while index < count
        invariant
            buf@ == data@.data,
            buf@.len() <= u32::MAX,
            count == chunk_count(buf@.len()),
            index <= count,
            run.script == program_script(data@),
            run.base == old(port).log(),
            run.done == 3 + 3 * index,
            run.at(port.log()),
        decreases count - index,
    {
        let part = chunk_of(buf, index);
        let ghost before = port.log();
        let sent = write_program_chunk(port, part, index);
        proof {
            let sub = chunk_script(index as nat, part@);
            assert forall|i: int| 0 <= i < 3 implies run.script[run.done + i] == sub[i] by {
                assert(run.script[run.done + i] == program_step(data@.data, 3 * index + i));
            }
            lemma_continued(run, before, port.log(), sub, sent);
        }
        sent?;
        proof {
            run = Run { done: run.done + 3, ..run };
        }
        index += 1;
    }
    Ok(())
}

/// The number of blocks that `len` bytes make: the last one may be short.
pub open spec fn block_count(len: nat) -> nat {
    (len + 7) / 8
}

/// Block `j` of `data`: the bytes from `8 * j` on, eight of them or as many
/// as are left. A chunk is 32 blocks, so the blocks of the chunks of an
/// image are the blocks of the image.
pub open spec fn block(data: Seq<u8>, j: int) -> Seq<u8> {
    data.subrange(8 * j, if 8 * j + 8 <= data.len() {
        8 * j + 8
    } else {
        data.len() as int
    })
}

/// Step `k` of the steps that verify `data`, two to a block: `V`, and
/// eight bytes back that have to begin with the block.
pub open spec fn verify_step(data: Seq<u8>, k: int) -> Step {
    if k % 2 == 0 {
        Step::Send(seq![OP_VERIFY])
    } else {
        Step::Recv {
            len: 8,
            check: Check::Echo { offset: (8 * (k / 2)) as nat, block: block(data, k / 2) },
        }
    }
}

/// The script that verifies `image`: the flash address is set, then the
/// blocks are read back in ascending order.
pub open spec fn verify_script(image: Image) -> Seq<Step> {
    address_script(image.addr) + Seq::new(
        2 * block_count(image.data.len()),
        |k: int| verify_step(image.data, k),
    )
}

/// Reads chunk `index` of an image back, block by block, and compares each
/// block with `buf`, the chunk.
#[verifier::rlimit(50)]
fn verify_program_chunk<T: IOMethods>(
    port: &mut ComPort<T>,
    buf: &[u8],
    index: usize,
    Ghost(run): Ghost<Run>,
    Ghost(image): Ghost<Image>,
) -> (r: Result<(), Error>)
    requires
        run.at(old(port).log()),
        run.script == verify_script(image),
        run.done == 3 + 64 * index,
        image.data.len() <= u32::MAX,
        index < chunk_count(image.data.len()),
        buf@ == chunk(image.data, index as int),
    ensures
        r is Ok ==> (Run {
            done: 3 + 2 * (block_count((256 * index + buf@.len()) as nat) as int),
            ..run
        }).at(final(port).log()),
        r matches Err(e) ==> run.stopped(final(port).log(), e),
{
    let ghost mut cur = run;
    let ghost data = image.data;
    assert(256 * index < data.len());
    let blocks: usize = if buf.len() % BLOCK == 0 {
        buf.len() / BLOCK
    } else {
        buf.len() / BLOCK + 1
    };
    let mut s: usize = 0;
    while s < blocks
        invariant
            s <= blocks,
            blocks == block_count(buf@.len()),
            buf@.len() <= 256,
            256 * index + buf@.len() <= data.len() <= u32::MAX,
            buf@.len() < 256 ==> 256 * index + buf@.len() == data.len(),
            buf@ == data.subrange(256 * index, 256 * index + buf@.len()),
            cur.script == verify_script(image),
            image.data == data,
            cur.script == run.script,
            cur.base == run.base,
            cur.done == 3 + 2 * (32 * index + s),
            cur.at(port.log()),
        decreases blocks - s,
    {
        let ghost j: int = 32 * index + s;
        proof {
            reveal_strlit("V");
            assert(8 * j < data.len());
            assert(j < block_count(data.len()));
            assert(cur.script[cur.done] == verify_step(data, 2 * j));
            assert(cur.script[cur.done + 1] == verify_step(data, 2 * j + 1));
        }
        put_op(port, "V", Ghost(OP_VERIFY), Ghost(cur))?;
        proof {
            cur = cur.next();
        }
        let ghost before = port.log();
        let rbuf = take(port, BLOCK, Ghost(cur))?;
        let lo: usize = BLOCK * s;
        let width: usize = if buf.len() - lo > BLOCK {
            BLOCK
        } else {
            buf.len() - lo
        };
        proof {
            assert(block(data, j).len() == width);
            assert(block(data, j) =~= buf@.subrange(lo as int, lo + width));
        }
        let mut m: usize = 0;
        while m < width
            invariant
                m <= width <= 8,
                rbuf@.len() == 8,
                lo + width <= buf@.len(),
                256 * index + buf@.len() <= u32::MAX,
                block(data, j) == buf@.subrange(lo as int, lo + width),
                forall|i: int| 0 <= i < m ==> rbuf@[i] == buf@[lo + i],
                delivered(cur, before, port.log(), 8, rbuf@),
                cur.script == run.script,
                cur.base == run.base,
                cur.script[cur.done]->check == (Check::Echo {
                    offset: (8 * j) as nat,
                    block: block(data, j),
                }),
                j == 32 * index + s,
                lo == 8 * s,
            decreases width - m,
        {
            if rbuf[m] != buf[lo + m] {
                let e = Error::Verify { offset: CHUNK * index + lo + m };
                proof {
                    assert(rbuf@.take(width as int)[m as int] != block(data, j)[m as int]);
                    lemma_rejected(cur, before, port.log(), 8, rbuf@, e);
                }
                return Err(e);
            }
            m += 1;
        }
        proof {
            assert(rbuf@.take(width as int) =~= block(data, j));
            lemma_accepted(cur, before, port.log(), 8, rbuf@);
            cur = cur.next();
        }
        s += 1;
    }
    Ok(())
}

/// Reads the flash back from the load address of `data` on, eight bytes at
/// a time, and compares what comes with `data`. The first byte that differs
/// ends the command, with its offset in the image.
#[verifier::rlimit(50)]
pub fn verify<T: IOMethods>(port: &mut ComPort<T>, data: &HexFile) -> (r: Result<(), Error>)
    ensures
        drove(verify_script(data@), old(port).log(), final(port).log(), r),
{
    let ghost mut run = Run::start(verify_script(data@), port.log());
    proof {
        lemma_start(run.script, run.base);
        assert(run.script.take(3) =~= address_script(data@.addr));
    }
    set_address(port, data.addr(), Ghost(run))?;
    proof {
        run = Run { done: 3, ..run };
    }
    let buf = data.buf().as_slice();
    let count: usize = chunks(buf.len());
    let mut index: usize = 0;
    while index < count
        invariant
            buf@ == data@.data,
            buf@.len() <= u32::MAX,
            count == chunk_count(buf@.len()),
            index <= count,
            run.script == verify_script(data@),
            run.base == old(port).log(),
            index < count ==> run.done == 3 + 64 * index,
            index == count ==> run.done == 3 + 2 * block_count(buf@.len()),
            run.at(port.log()),
        decreases count - index,
    {
        let part = chunk_of(buf, index);
        proof {
            lemma_chunk_lengths(buf@.len(), index as int);
        }
        verify_program_chunk(port, part, index, Ghost(run), Ghost(data@))?;
        proof {
            run = Run {
                done: 3 + 2 * (block_count((256 * index + part@.len()) as nat) as int),
                ..run
            };
        }
        index += 1;
    }
    Ok(())
}

} // verus!
