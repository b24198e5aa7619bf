//! A session with one device: the commands, held to their fixed order.
//!
//! A session goes from `Idle` through every phase to `Verified`, one step
//! at a time. A step called out of turn is refused before anything is
//! exchanged. A step that fails ends the session: from `Failed` no step
//! leads on, and the device has to be restarted.

use crate::com_port::{ComPort, Exchange, IOMethods};
use crate::command;
use crate::command::{erase_ended, prompt};
use crate::script::{halted, last_bytes, passed, Step};
use crate::com_port::utf8_lossy;
use vstd::utf8::{encode_utf8, valid_utf8};
use crate::firmware::HexFile;
use vstd::prelude::*;

verus! {

/// How far a session has come.
#[derive(Debug, Clone, Copy, PartialEq, Eq, Structural)]
pub enum Phase {
    /// Nothing has been done.
    Idle,
    /// The device answered the liveness check.
    LivenessChecked,
    /// The device was told the new baud rate.
    BaudSet,
    /// The device answered at the new baud rate.
    BaudConfirmed,
    /// The boot loader runs in the device's RAM.
    BootInjected,
    /// The boot loader said who it is.
    IdentityRead,
    /// The flash is erased.
    Erased,
    /// The firmware is written.
    Programmed,
    /// The firmware was read back and found as written.
    Verified,
    /// A step failed; the session is over.
    Failed,
}

/// Why a step of a session failed.
#[derive(Debug, PartialEq, Eq)]
pub enum FlashError {
    /// The step does not belong where the session stands, at `at`. Nothing
    /// was exchanged and the session stands as before.
    OutOfOrder { at: Phase },
    /// The step's command failed, and the session with it.
    Command(command::Error),
}

impl From<command::Error> for FlashError {
    /// A failure of a command as the failure of the step that ran it.
    fn from(err: command::Error) -> (e: FlashError) {
        FlashError::Command(err)
    }
}

impl vstd::std_specs::convert::FromSpecImpl<command::Error> for FlashError {
    open spec fn obeys_from_spec() -> bool {
        true
    }

    open spec fn from_spec(err: command::Error) -> FlashError {
        FlashError::Command(err)
    }
}

/// A port and the phase that the work on its device has reached.
pub struct Session<T: IOMethods> {
    port: ComPort<T>,
    phase: Phase,
}

/// A step was refused: it failed as out of order, and the session stands
/// as it stood.
pub open spec fn refused<R>(
    phase_before: Phase,
    log_before: Seq<Exchange>,
    phase_after: Phase,
    log_after: Seq<Exchange>,
    r: Result<R, FlashError>,
) -> bool {
    &&& r == Err::<R, FlashError>(FlashError::OutOfOrder { at: phase_before })
    &&& phase_after == phase_before
    &&& log_after == log_before
}

/// A step that belongs at the phase `from` and leads to the phase `to` went
/// as a session's steps go.
///
/// Out of turn it is refused and changes nothing. In turn its script is run:
/// where the script goes through, the session stands at `to`, and where it
/// halts, the session has failed and the error is the command's.
pub open spec fn stepped<R>(
    from: Phase,
    to: Phase,
    script: Seq<Step>,
    phase_before: Phase,
    log_before: Seq<Exchange>,
    phase_after: Phase,
    log_after: Seq<Exchange>,
    r: Result<R, FlashError>,
) -> bool {
    if phase_before != from {
        refused(phase_before, log_before, phase_after, log_after, r)
    } else {
        match r {
            Ok(_) => phase_after == to && passed(script, log_before, log_after),
            Err(FlashError::Command(e)) => phase_after == Phase::Failed && halted(
                script,
                log_before,
                log_after,
                e,
            ),
            Err(FlashError::OutOfOrder { at }) => false,
        }
    }
}

/// The place of a phase in the order of a session. A failed session is
/// past every other.
pub open spec fn rank(phase: Phase) -> nat {
    match phase {
        Phase::Idle => 0,
        Phase::LivenessChecked => 1,
        Phase::BaudSet => 2,
        Phase::BaudConfirmed => 3,
        Phase::BootInjected => 4,
        Phase::IdentityRead => 5,
        Phase::Erased => 6,
        Phase::Programmed => 7,
        Phase::Verified => 8,
        Phase::Failed => 9,
    }
}

/// A step never takes a session back: where it leads from one phase to
/// the next, the session afterwards stands where it stood, one phase on, or
/// has failed.
pub proof fn lemma_no_way_back<R>(
    from: Phase,
    to: Phase,
    script: Seq<Step>,
    phase_before: Phase,
    log_before: Seq<Exchange>,
    phase_after: Phase,
    log_after: Seq<Exchange>,
    r: Result<R, FlashError>,
)
    requires
        rank(to) == rank(from) + 1,
        stepped(from, to, script, phase_before, log_before, phase_after, log_after, r),
    ensures
        rank(phase_after) >= rank(phase_before),
        phase_after == phase_before || phase_after == Phase::Failed || rank(phase_after) == rank(
            phase_before,
        ) + 1,
        r is Ok ==> rank(phase_after) == rank(phase_before) + 1,
{
}

/// A failed session stays failed: every step is refused and nothing is
/// exchanged.
pub proof fn lemma_failed_is_final<R>(
    from: Phase,
    to: Phase,
    script: Seq<Step>,
    log_before: Seq<Exchange>,
    phase_after: Phase,
    log_after: Seq<Exchange>,
    r: Result<R, FlashError>,
)
    requires
        from != Phase::Failed,
        stepped(from, to, script, Phase::Failed, log_before, phase_after, log_after, r),
    ensures
        r is Err,
        phase_after == Phase::Failed,
        log_after == log_before,
{
}

impl<T: IOMethods> Session<T> {
    /// Where the session stands.
    pub closed spec fn at(&self) -> Phase {
        self.phase
    }

    /// Every exchange made in this session so far, oldest first.
    pub closed spec fn log(&self) -> Seq<Exchange> {
        self.port.log()
    }

    /// The transport in use.
    pub closed spec fn transport(&self) -> T {
        self.port.transport()
    }

    /// Begins a session on a transport, with nothing done.
    pub fn new(port: T) -> (session: Self)
        ensures
            session.at() == Phase::Idle,
            session.transport() == port,
            session.log() == Seq::<Exchange>::empty(),
    {
        Session { port: ComPort::new(port), phase: Phase::Idle }
    }

    /// Where the session stands.
    pub fn phase(&self) -> (phase: Phase)
        ensures
            phase == self.at(),
    {
        self.phase
    }

    /// Goes on with another transport, as is needed once the baud rate is
    /// set, and hands back the one used so far.
    pub fn reopen(&mut self, port: T) -> (previous: T)
        ensures
            previous == old(self).transport(),
            final(self).transport() == port,
            final(self).at() == old(self).at(),
            final(self).log() == old(self).log(),
    {
        self.port.replace(port)
    }

    /// Ends the session and gives the transport back.
    pub fn into_inner(self) -> (port: T)
        ensures
            port == self.transport(),
    {
        self.port.into_inner()
    }

    /// Lends the transport for a look.
    pub fn inner(&self) -> (port: &T)
        ensures
            *port == self.transport(),
    {
        self.port.inner()
    }
}

/// Checks that the device answers at all: the first step of a session.
pub fn check_port<T: IOMethods>(session: &mut Session<T>) -> (r: Result<(), FlashError>)
    ensures
        stepped(
            Phase::Idle,
            Phase::LivenessChecked,
            command::check_port_script(),
            old(session).at(),
            old(session).log(),
            final(session).at(),
            final(session).log(),
            r,
        ),
{
    if session.phase != Phase::Idle {
        return Err(FlashError::OutOfOrder { at: session.phase });
    }
    match command::check_port(&mut session.port) {
        Ok(()) => {
            session.phase = Phase::LivenessChecked;
            Ok(())
        },
        Err(e) => {
            session.phase = Phase::Failed;
            Err(FlashError::from(e))
        },
    }
}

/// Tells the device to go on at `baud_rate`. The transport has to be
/// reopened at that rate before the next step.
pub fn set_baud_rate<T: IOMethods>(session: &mut Session<T>, baud_rate: u32) -> (r: Result<
    (),
    FlashError,
>)
    ensures
        stepped(
            Phase::LivenessChecked,
            Phase::BaudSet,
            command::set_baud_rate_script(baud_rate),
            old(session).at(),
            old(session).log(),
            final(session).at(),
            final(session).log(),
            r,
        ),
{
    if session.phase != Phase::LivenessChecked {
        return Err(FlashError::OutOfOrder { at: session.phase });
    }
    match command::set_baud_rate(&mut session.port, baud_rate) {
        Ok(()) => {
            session.phase = Phase::BaudSet;
            Ok(())
        },
        Err(e) => {
            session.phase = Phase::Failed;
            Err(FlashError::from(e))
        },
    }
}

/// Checks that the device answers at the new baud rate, and returns its
/// prompt.
pub fn read_baud_rate<T: IOMethods>(session: &mut Session<T>) -> (r: Result<Vec<u8>, FlashError>)
    ensures
        stepped(
            Phase::BaudSet,
            Phase::BaudConfirmed,
            command::read_baud_rate_script(),
            old(session).at(),
            old(session).log(),
            final(session).at(),
            final(session).log(),
            r,
        ),
        r matches Ok(reply) ==> reply@ == prompt(),
{
    if session.phase != Phase::BaudSet {
        return Err(FlashError::OutOfOrder { at: session.phase });
    }
    match command::read_baud_rate(&mut session.port) {
        Ok(reply) => {
            session.phase = Phase::BaudConfirmed;
            Ok(reply)
        },
        Err(e) => {
            session.phase = Phase::Failed;
            Err(FlashError::from(e))
        },
    }
}

/// Loads the boot loader `data` into the device's RAM and starts it.
pub fn boot_load<T: IOMethods>(session: &mut Session<T>, data: HexFile) -> (r: Result<
    (),
    FlashError,
>)
    ensures
        stepped(
            Phase::BaudConfirmed,
            Phase::BootInjected,
            command::boot_load_script(data@),
            old(session).at(),
            old(session).log(),
            final(session).at(),
            final(session).log(),
            r,
        ),
{
    if session.phase != Phase::BaudConfirmed {
        return Err(FlashError::OutOfOrder { at: session.phase });
    }
    match command::boot_load(&mut session.port, data) {
        Ok(()) => {
            session.phase = Phase::BootInjected;
            Ok(())
        },
        Err(e) => {
            session.phase = Phase::Failed;
            Err(FlashError::from(e))
        },
    }
}

/// Reads the boot loader's identity and returns it as text.
pub fn read_info<T: IOMethods>(session: &mut Session<T>) -> (r: Result<String, FlashError>)
    ensures
        stepped(
            Phase::BootInjected,
            Phase::IdentityRead,
            command::read_info_script(),
            old(session).at(),
            old(session).log(),
            final(session).at(),
            final(session).log(),
            r,
        ),
        r matches Ok(text) ==> {
            let bytes = last_bytes(final(session).log());
            &&& text@ == utf8_lossy(bytes)
            &&& valid_utf8(bytes) ==> encode_utf8(text@) == bytes
        },
{
    if session.phase != Phase::BootInjected {
        return Err(FlashError::OutOfOrder { at: session.phase });
    }
    match command::read_info(&mut session.port) {
        Ok(text) => {
            session.phase = Phase::IdentityRead;
            Ok(text)
        },
        Err(e) => {
            session.phase = Phase::Failed;
            Err(FlashError::from(e))
        },
    }
}

/// Erases the whole flash and checks the device's report.
///
/// Out of turn the step is refused. In turn the session stands at `Erased`
/// where the erase succeeded, and has failed, with the erase's error, where
/// it did not.
pub fn erase<T: IOMethods>(session: &mut Session<T>) -> (r: Result<(), FlashError>)
    ensures
        if old(session).at() != Phase::IdentityRead {
            refused(
                old(session).at(),
                old(session).log(),
                final(session).at(),
                final(session).log(),
                r,
            )
        } else {
            match r {
                Ok(_) => final(session).at() == Phase::Erased && erase_ended(
                    old(session).log(),
                    final(session).log(),
                    Ok(()),
                ),
                Err(FlashError::Command(e)) => final(session).at() == Phase::Failed
                    && erase_ended(old(session).log(), final(session).log(), Err(e)),
                Err(FlashError::OutOfOrder { at }) => false,
            }
        },
{
    if session.phase != Phase::IdentityRead {
        return Err(FlashError::OutOfOrder { at: session.phase });
    }
    match command::erase(&mut session.port) {
        Ok(()) => {
            session.phase = Phase::Erased;
            Ok(())
        },
        Err(e) => {
            session.phase = Phase::Failed;
            Err(FlashError::from(e))
        },
    }
}

/// Writes `data` to the erased flash.
pub fn program<T: IOMethods>(session: &mut Session<T>, data: &HexFile) -> (r: Result<
    (),
    FlashError,
>)
    ensures
        stepped(
            Phase::Erased,
            Phase::Programmed,
            command::program_script(data@),
            old(session).at(),
            old(session).log(),
            final(session).at(),
            final(session).log(),
            r,
        ),
{
    if session.phase != Phase::Erased {
        return Err(FlashError::OutOfOrder { at: session.phase });
    }
    match command::program(&mut session.port, data) {
        Ok(()) => {
            session.phase = Phase::Programmed;
            Ok(())
        },
        Err(e) => {
            session.phase = Phase::Failed;
            Err(FlashError::from(e))
        },
    }
}

/// Reads the flash back and compares it with `data`, the image that was
/// written.
pub fn verify<T: IOMethods>(session: &mut Session<T>, data: &HexFile) -> (r: Result<
    (),
    FlashError,
>)
    ensures
        stepped(
            Phase::Programmed,
            Phase::Verified,
            command::verify_script(data@),
            old(session).at(),
            old(session).log(),
            final(session).at(),
            final(session).log(),
            r,
        ),
{
    if session.phase != Phase::Programmed {
        return Err(FlashError::OutOfOrder { at: session.phase });
    }
    match command::verify(&mut session.port, data) {
        Ok(()) => {
            session.phase = Phase::Verified;
            Ok(())
        },
        Err(e) => {
            session.phase = Phase::Failed;
            Err(FlashError::from(e))
        },
    }
}

} // verus!
