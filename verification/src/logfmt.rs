//! Log-record formatting into a reusable byte buffer: the prefix,
//! target and body layout shared by every logging sink.

use vstd::prelude::*;
use crate::text;

verus! {

/// Severity of one log record.
#[derive(Clone, Copy, PartialEq, Eq, Structural, Debug)]
pub enum LogLevel {
    Trace,
    Debug,
    Info,
    Warn,
    Error,
}

/// The level names of the host overlay's logging channel.
#[derive(Clone, Copy, PartialEq, Eq, Structural, Debug)]
pub enum NexusLogLevel {
    Trace,
    Debug,
    Info,
    Warning,
    Critical,
}

/// The host channel's level for one of ours.
pub fn nexus_log_level(level: LogLevel) -> (r: NexusLogLevel)
    ensures
        r == (match level {
            LogLevel::Trace => NexusLogLevel::Trace,
            LogLevel::Debug => NexusLogLevel::Debug,
            LogLevel::Info => NexusLogLevel::Info,
            LogLevel::Warn => NexusLogLevel::Warning,
            LogLevel::Error => NexusLogLevel::Critical,
        }),
{
    match level {
        LogLevel::Trace => NexusLogLevel::Trace,
        LogLevel::Debug => NexusLogLevel::Debug,
        LogLevel::Info => NexusLogLevel::Info,
        LogLevel::Warn => NexusLogLevel::Warning,
        LogLevel::Error => NexusLogLevel::Critical,
    }
}

/// The bracketed, width-padded level prefix.
pub open spec fn level_prefix(level: LogLevel) -> Seq<char> {
    match level {
        LogLevel::Trace => "[TRACE] "@,
        LogLevel::Debug => "[DEBUG] "@,
        LogLevel::Info => "[INFO ] "@,
        LogLevel::Warn => "[WARN ] "@,
        LogLevel::Error => "[ERROR] "@,
    }
}

/// One log record, reduced to plain values.
pub struct LogRecord {
    pub level: LogLevel,
    pub target: String,
    pub message: String,
}

/// The formatting buffer one record is written into.
pub struct LogBuffer {
    pub buffer: String,
}

impl LogBuffer {
    /// An empty buffer; the capacity is an allocation hint only.
    pub fn with_capacity(cap: usize) -> (r: LogBuffer)
        ensures
            r.buffer@.len() == 0,
    {
        let _ = cap;
        LogBuffer { buffer: String::new() }
    }

    /// How much has been written.
    pub fn len(&self) -> (r: usize)
        ensures
            r == self.buffer@.len(),
    {
        self.buffer.as_str().unicode_len()
    }

    /// Append text.
    pub fn write_str(&mut self, s: &str)
        ensures
            final(self).buffer@ == old(self).buffer@ + s@,
    {
        self.buffer.append(s);
    }
}

/// The logger itself: formatting state lives in the buffers it makes.
pub struct TaimiLog {}

impl TaimiLog {
    /// A logger value.
    pub fn new() -> (r: TaimiLog)
        ensures
            true,
    {
        TaimiLog {  }
    }
}

/// Write the metadata prefix: the level (unless the sink prints it
/// itself) and the target (unless the sink prints it and it is this
/// crate's own).  Returns whether a target was written.
pub fn write_metadata_prefix(
    w: &mut LogBuffer,
    level: LogLevel,
    target: &str,
    implicit_target_level: bool,
) -> (target_written: bool)
    ensures
        final(w).buffer@ == old(w).buffer@ + (if implicit_target_level {
            Seq::<char>::empty()
        } else {
            level_prefix(level)
        }) + (if implicit_target_level && target@ == "taimi_markers"@ {
            Seq::<char>::empty()
        } else {
            target@
        }),
        target_written == !(implicit_target_level && target@ == "taimi_markers"@),
{
    if !implicit_target_level {
        match level {
            LogLevel::Trace => w.write_str("[TRACE] "),
            LogLevel::Debug => w.write_str("[DEBUG] "),
            LogLevel::Info => w.write_str("[INFO ] "),
            LogLevel::Warn => w.write_str("[WARN ] "),
            LogLevel::Error => w.write_str("[ERROR] "),
        }
    }
    if implicit_target_level && text::str_is(target, "taimi_markers") {
        assert(final(w).buffer@ =~= old(w).buffer@ + (if implicit_target_level {
            Seq::<char>::empty()
        } else {
            level_prefix(level)
        }) + Seq::<char>::empty());
        false
    } else {
        w.write_str(target);
        true
    }
}

/// Write the record prefix that separates metadata from the body.
pub fn write_record_prefix(w: &mut LogBuffer, record: &LogRecord, target_written: bool) -> (r: bool)
    ensures
        final(w).buffer@ == old(w).buffer@ + (if target_written {
            "; "@
        } else {
            Seq::<char>::empty()
        }),
        r == target_written,
{
    let _ = record;
    if target_written {
        w.write_str("; ");
    } else {
        assert(final(w).buffer@ =~= old(w).buffer@ + Seq::<char>::empty());
    }
    target_written
}

/// Write the record's message.
pub fn write_record_body(w: &mut LogBuffer, record: &LogRecord)
    ensures
        final(w).buffer@ == old(w).buffer@ + record.message@,
{
    w.write_str(record.message.as_str());
}

/// Write a whole record: metadata prefix, separator, body.
pub fn write_record(w: &mut LogBuffer, record: &LogRecord)
    ensures
        final(w).buffer@ == old(w).buffer@ + level_prefix(record.level) + record.target@ + "; "@
            + record.message@,
{
    let tw = write_metadata_prefix(w, record.level, record.target.as_str(), false);
    assert(tw);
    let _ = write_record_prefix(w, record, tw);
    write_record_body(w, record);
}

} // verus!
