//! Wire-protocol constants and line interpretation.
//!
//! Outbound commands are opaque text terminated by exactly one newline.
//! Inbound lines are free-form device telemetry; the only interpreted
//! substrings are the readiness acknowledgment marker and the device
//! fault marker. A fault marker takes precedence over the ready marker on
//! the same line, so a faulted device is never treated as acknowledged.

use vstd::prelude::*;
use vstd::string::StrSliceExecFns;
use vstd::string::StringSliceAdditionalSpecFns;

use crate::framer::NEWLINE;

verus! {

/// Baud rate every connection is opened with.
pub const BAUD_RATE: u32 = 115200;

/// The per-read timeout of the transport, in milliseconds: a read never
/// blocks longer than this before handing back what arrived (possibly
/// nothing).
pub const READ_TIMEOUT_MS: u64 = 250;

/// Upper bound of one transport read, in bytes.
pub const READ_BUFFER_SIZE: usize = 128;

/// The acknowledgment wait bound, in milliseconds, measured from the
/// start of the wait.
pub const ACK_TIMEOUT_MS: u64 = 5000;

/// The acknowledgment wait bound counted in read-timeout windows:
/// `ACK_TIMEOUT_MS / READ_TIMEOUT_MS` reads of up to `READ_TIMEOUT_MS`
/// each.
pub const ACK_TIMEOUT_TICKS: u64 = 20;

/// Seconds the reconnect supervisor sleeps between failed connection
/// attempts.
pub const RETRY_INTERVAL_SECS: u64 = 10;

/// The device's positive acknowledgment substring (`"ok"`).
pub open spec fn ready_marker() -> Seq<u8> {
    seq![111u8, 107u8]
}

/// The device's fault substring (`"cold extrusion"`).
pub open spec fn error_marker() -> Seq<u8> {
    seq![99u8, 111u8, 108u8, 100u8, 32u8, 101u8, 120u8, 116u8, 114u8, 117u8, 115u8, 105u8, 111u8, 110u8]
}

/// Whether `needle` occurs as a contiguous run inside `haystack`.
pub open spec fn contains_seq(haystack: Seq<u8>, needle: Seq<u8>) -> bool {
    exists|i: int|
        0 <= i && i + needle.len() <= haystack.len() && #[trigger] haystack.subrange(
            i,
            i + needle.len(),
        ) == needle
}

/// The ready marker as bytes.
pub fn ready_marker_bytes() -> (r: Vec<u8>)
    ensures
        r@ == ready_marker(),
{
    let mut v: Vec<u8> = Vec::new();
    v.push(111u8);
    v.push(107u8);
    proof {
        assert(v@ =~= ready_marker());
    }
    v
}

/// The fault marker as bytes.
pub fn error_marker_bytes() -> (r: Vec<u8>)
    ensures
        r@ == error_marker(),
{
    let mut v: Vec<u8> = Vec::new();
    v.push(99u8);
    v.push(111u8);
    v.push(108u8);
    v.push(100u8);
    v.push(32u8);
    v.push(101u8);
    v.push(120u8);
    v.push(116u8);
    v.push(114u8);
    v.push(117u8);
    v.push(115u8);
    v.push(105u8);
    v.push(111u8);
    v.push(110u8);
    proof {
        assert(v@ =~= error_marker());
    }
    v
}

/// Substring search over bytes.
pub fn contains_bytes(haystack: &[u8], needle: &[u8]) -> (r: bool)
    ensures
        r == contains_seq(haystack@, needle@),
{
    let n = needle.len();
    let h = haystack.len();
    if n > h {
        proof {
            assert(!contains_seq(haystack@, needle@));
        }
        return false;
    }
    let mut i: usize = 0;
    while i <= h - n
        invariant
            n <= h,
            h == haystack@.len(),
            n == needle@.len(),
            i <= h - n + 1,
            forall|k: int|
                0 <= k < i ==> #[trigger] haystack@.subrange(k, k + needle@.len()) != needle@,
        decreases h - n + 1 - i,
    {
        let mut j: usize = 0;
        let mut matched = true;
        while j < n
            invariant
                n <= h,
                h == haystack@.len(),
                n == needle@.len(),
                i + n <= h,
                j <= n,
                matched <==> (forall|k: int| 0 <= k < j ==> haystack@[i + k] == needle@[k]),
            decreases n - j,
        {
            if haystack[i + j] != needle[j] {
                matched = false;
                j = n;
            } else {
                assert(haystack@[i + j] == needle@[j as int]);
                j = j + 1;
            }
        }
        if matched {
            proof {
                assert(haystack@.subrange(i as int, i + needle@.len()) =~= needle@);
            }
            return true;
        }
        proof {
            assert(haystack@.subrange(i as int, i + needle@.len()) != needle@);
        }
        i = i + 1;
    }
    proof {
        assert forall|k: int| 0 <= k && k + needle@.len() <= haystack@.len() implies #[trigger]
        haystack@.subrange(k, k + needle@.len()) != needle@ by {
            assert(k < i);
        }
    }
    false
}

/// How a completed inbound line is interpreted.
#[derive(Clone, Copy, Debug, PartialEq, Eq, Structural)]
pub enum LineVerdict {
    /// The line matched the fault marker (which takes precedence).
    Fault,
    /// The line matched the ready marker and acknowledges the command.
    Ready,
    /// The line carries neither marker.
    Neither,
}

/// The verdict of a line: fault marker first, then ready marker.
pub open spec fn line_verdict(l: Seq<u8>) -> LineVerdict {
    if contains_seq(l, error_marker()) {
        LineVerdict::Fault
    } else if contains_seq(l, ready_marker()) {
        LineVerdict::Ready
    } else {
        LineVerdict::Neither
    }
}

/// Classify one completed inbound line.
pub fn scan_line(line: &[u8]) -> (r: LineVerdict)
    ensures
        r == line_verdict(line@),
{
    let fault = error_marker_bytes();
    if contains_bytes(line, fault.as_slice()) {
        return LineVerdict::Fault;
    }
    let ready = ready_marker_bytes();
    if contains_bytes(line, ready.as_slice()) {
        return LineVerdict::Ready;
    }
    LineVerdict::Neither
}

/// The exact bytes that go on the wire for a command: its UTF-8 bytes
/// followed by one newline.
pub open spec fn wire_of(cmd: Seq<u8>) -> Seq<u8> {
    cmd.push(NEWLINE)
}

/// Serialize a command for transmission.
pub fn wire_bytes(cmd: &str) -> (r: Vec<u8>)
    ensures
        r@ == wire_of(cmd.spec_bytes()),
{
    let mut v = cmd.as_bytes_vec();
    v.push(NEWLINE);
    v
}

} // verus!
