//! The scripted transport: a deterministic model of one open serial
//! connection.
//!
//! The real link delivers bytes in chunks, each read bounded by the
//! fixed per-read timeout, and may fault on read or write. The model
//! captures exactly that interface: a script of read outcomes consumed
//! front to back — each consumed entry standing for one read-timeout
//! window — a log of every byte written, and a switch that makes writes
//! fail. The session state machine is verified against this model; the
//! unverified serial layer implements the same interface over the real
//! port.

use vstd::prelude::*;

use crate::errors::AdapterError;

verus! {

/// What one read-timeout window of the device script yields.
pub enum ReadStep {
    /// Bytes that arrived within the window; an empty chunk means
    /// nothing arrived, which is not an error and must be retried.
    Chunk(Vec<u8>),
    /// The read faulted.
    Fault,
}

/// One open connection, scripted: reads are consumed from the front of
/// `script`; once the script is exhausted the device stays silent
/// (every further read yields an empty chunk). All written bytes
/// accumulate in `written`.
pub struct ScriptedTransport {
    pub script: Vec<ReadStep>,
    pub written: Vec<u8>,
    pub fail_writes: bool,
}

impl ScriptedTransport {
    /// A fresh connection that will answer reads from `script` and
    /// accept writes.
    pub fn new(script: Vec<ReadStep>) -> (r: ScriptedTransport)
        ensures
            r.script == script,
            r.written@ == Seq::<u8>::empty(),
            !r.fail_writes,
    {
        ScriptedTransport { script, written: Vec::new(), fail_writes: false }
    }

    /// A fresh connection whose writes all fail.
    pub fn new_failing_writes(script: Vec<ReadStep>) -> (r: ScriptedTransport)
        ensures
            r.script == script,
            r.written@ == Seq::<u8>::empty(),
            r.fail_writes,
    {
        ScriptedTransport { script, written: Vec::new(), fail_writes: true }
    }

    /// Write the whole buffer to the device; a partial write is a
    /// failure, never silently ignored, and a failed write sends
    /// nothing.
    pub fn write(&mut self, data: &[u8]) -> (r: Result<(), AdapterError>)
        ensures
            final(self).script == old(self).script,
            final(self).fail_writes == old(self).fail_writes,
            old(self).fail_writes ==> r == Err::<(), AdapterError>(AdapterError::WriteFailed)
                && final(self).written == old(self).written,
            !old(self).fail_writes ==> r == Ok::<(), AdapterError>(()) && final(self).written@
                == old(self).written@ + data@,
    {
        if self.fail_writes {
            return Err(AdapterError::WriteFailed);
        }
        let mut i: usize = 0;
        while i < data.len()
            invariant
                i <= data.len(),
                self.script == old(self).script,
                self.fail_writes == old(self).fail_writes,
                self.written@ == old(self).written@ + data@.take(i as int),
            decreases data.len() - i,
        {
            self.written.push(data[i]);
            proof {
                assert(data@.take(i + 1) =~= data@.take(i as int).push(data@[i as int]));
                assert(old(self).written@ + data@.take(i + 1) =~= (old(self).written@
                    + data@.take(i as int)).push(data@[i as int]));
            }
            i = i + 1;
        }
        proof {
            assert(data@.take(data@.len() as int) =~= data@);
        }
        Ok(())
    }

    /// One read of up to one read-timeout window: the next scripted
    /// outcome, or an empty chunk once the script is exhausted. A
    /// zero-length result is not an error and not end-of-stream.
    pub fn read_chunk(&mut self) -> (r: Result<Vec<u8>, AdapterError>)
        ensures
            final(self).written == old(self).written,
            final(self).fail_writes == old(self).fail_writes,
            old(self).script@.len() > 0 ==> final(self).script@ == old(self).script@.drop_first()
                && (match old(self).script@[0] {
                ReadStep::Chunk(c) => r matches Ok(v) && v == c,
                ReadStep::Fault => r == Err::<Vec<u8>, AdapterError>(AdapterError::ReadFailed),
            }),
            old(self).script@.len() == 0 ==> final(self).script == old(self).script && (r matches
            Ok(v) && v@ == Seq::<u8>::empty()),
    {
        if self.script.len() == 0 {
            return Ok(Vec::new());
        }
        let step = self.script.remove(0);
        proof {
            assert(old(self).script@.remove(0) =~= old(self).script@.drop_first());
        }
        match step {
            ReadStep::Chunk(c) => Ok(c),
            ReadStep::Fault => Err(AdapterError::ReadFailed),
        }
    }

    /// Release the connection. The model holds no handle, so this only
    /// marks the intent; it is idempotent and never fails.
    pub fn close(&mut self)
        ensures
            *final(self) == *old(self),
    {
    }
}

/// What one connection attempt against the scripted host yields.
pub enum OpenOutcome {
    /// The port opens, and the device behaves as scripted.
    Accept(ScriptedTransport),
    /// The port cannot be opened.
    Refuse,
}

/// A scripted host environment: whether port discovery can be queried
/// at all, and the outcome of each successive open attempt, consumed
/// front to back. Once the outcomes are exhausted every further open
/// attempt is refused.
pub struct ScriptedHost {
    pub opens: Vec<OpenOutcome>,
    pub discovery_fails: bool,
}

impl ScriptedHost {
    /// A host whose discovery succeeds and whose open attempts resolve
    /// as given.
    pub fn new(opens: Vec<OpenOutcome>) -> (r: ScriptedHost)
        ensures
            r.opens == opens,
            !r.discovery_fails,
    {
        ScriptedHost { opens, discovery_fails: false }
    }

    /// A host whose port enumeration cannot be queried at all.
    pub fn new_without_discovery() -> (r: ScriptedHost)
        ensures
            r.opens@ == Seq::<OpenOutcome>::empty(),
            r.discovery_fails,
    {
        ScriptedHost { opens: Vec::new(), discovery_fails: true }
    }

    /// Attempt to open the configured port at the fixed baud rate: the
    /// next scripted outcome decides.
    pub fn open_transport(&mut self) -> (r: Result<ScriptedTransport, AdapterError>)
        ensures
            final(self).discovery_fails == old(self).discovery_fails,
            old(self).opens@.len() > 0 ==> final(self).opens@ == old(self).opens@.drop_first()
                && (match old(self).opens@[0] {
                OpenOutcome::Accept(t) => r matches Ok(v) && v == t,
                OpenOutcome::Refuse => r == Err::<ScriptedTransport, AdapterError>(
                    AdapterError::OpenFailed,
                ),
            }),
            old(self).opens@.len() == 0 ==> final(self).opens == old(self).opens && r == Err::<
                ScriptedTransport,
                AdapterError,
            >(AdapterError::OpenFailed),
    {
        if self.opens.len() == 0 {
            return Err(AdapterError::OpenFailed);
        }
        let outcome = self.opens.remove(0);
        proof {
            assert(old(self).opens@.remove(0) =~= old(self).opens@.drop_first());
        }
        match outcome {
            OpenOutcome::Accept(t) => Ok(t),
            OpenOutcome::Refuse => Err(AdapterError::OpenFailed),
        }
    }
}

} // verus!
