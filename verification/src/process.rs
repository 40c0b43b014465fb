//! What a process says of itself in a heartbeat.

use vstd::prelude::*;

verus! {

/// What stays the same for as long as the process runs.
pub struct ProcessInfo {
    pub hostname: String,
    pub identity: String,
    /// When the process started, in milliseconds since the Unix epoch.
    pub started_at_ms: i64,
    pub pid: u32,
    pub tag: String,
    pub concurrency: usize,
    pub queues: Vec<String>,
    pub labels: Vec<String>,
    pub version: String,
    pub embedded: bool,
}

/// What a [`ProcessInfo`] stands for.
pub struct ProcessInfoView {
    pub hostname: Seq<char>,
    pub identity: Seq<char>,
    pub started_at_ms: i64,
    pub pid: u32,
    pub tag: Seq<char>,
    pub concurrency: usize,
    pub queues: Seq<Seq<char>>,
    pub labels: Seq<Seq<char>>,
    pub version: Seq<char>,
    pub embedded: bool,
}

/// What a row of strings stands for.
pub open spec fn texts(strings: Seq<String>) -> Seq<Seq<char>> {
    Seq::new(strings.len(), |i: int| strings[i]@)
}

impl View for ProcessInfo {
    type V = ProcessInfoView;

    open spec fn view(&self) -> ProcessInfoView {
        ProcessInfoView {
            hostname: self.hostname@,
            identity: self.identity@,
            started_at_ms: self.started_at_ms,
            pid: self.pid,
            tag: self.tag@,
            concurrency: self.concurrency,
            queues: texts(self.queues@),
            labels: texts(self.labels@),
            version: self.version@,
            embedded: self.embedded,
        }
    }
}

/// The state of a process at one moment.
pub struct ProcessStats {
    pub rtt_us: String,
    pub quiet: String,
    pub busy: usize,
    /// The moment, in milliseconds since the Unix epoch.
    pub beat_ms: i64,
    pub concurrency: usize,
    pub info: ProcessInfo,
    pub rss: String,
}

/// What a [`ProcessStats`] stands for.
pub struct ProcessStatsView {
    pub rtt_us: Seq<char>,
    pub quiet: Seq<char>,
    pub busy: usize,
    pub beat_ms: i64,
    pub concurrency: usize,
    pub info: ProcessInfoView,
    pub rss: Seq<char>,
}

impl View for ProcessStats {
    type V = ProcessStatsView;

    open spec fn view(&self) -> ProcessStatsView {
        ProcessStatsView {
            rtt_us: self.rtt_us@,
            quiet: self.quiet@,
            busy: self.busy,
            beat_ms: self.beat_ms,
            concurrency: self.concurrency,
            info: self.info@,
            rss: self.rss@,
        }
    }
}

/// A row of strings stands for as many texts, each for its own.
pub proof fn lemma_texts(strings: Seq<String>)
    ensures
        texts(strings).len() == strings.len(),
        forall|i: int| 0 <= i < strings.len() ==> texts(strings)[i] == (#[trigger] strings[i])@,
{
}

} // verus!
