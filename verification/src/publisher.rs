//! Publishing the state of a process, and withdrawing it.

use crate::command::{Command, CommandView, Field, FieldView, Request, Value, ValueView};
use crate::counter::Counter;
use crate::process::{ProcessInfo, ProcessInfoView, ProcessStats, ProcessStatsView};
use vstd::prelude::*;

verus! {

/// For how many seconds a heartbeat is kept unless the next one renews it.
pub const HEARTBEAT_TTL_SECONDS: i64 = 30;

/// The key of the set that lists the identities of the running processes.
pub open spec fn processes_key() -> Seq<char> {
    "processes"@
}

/// Publishes the state of one process.
pub struct StatsPublisher {
    hostname: String,
    identity: String,
    queues: Vec<String>,
    started_at_ms: i64,
    busy_jobs: Counter,
    concurrency: usize,
}

/// What a [`StatsPublisher`] stands for, but for the count of busy jobs.
pub struct PublisherView {
    pub hostname: Seq<char>,
    pub identity: Seq<char>,
    pub queues: Seq<Seq<char>>,
    /// When the process started, in milliseconds since the Unix epoch.
    pub started_at_ms: i64,
    pub concurrency: usize,
}

impl View for StatsPublisher {
    type V = PublisherView;

    closed spec fn view(&self) -> PublisherView {
        PublisherView {
            hostname: self.hostname@,
            identity: self.identity@,
            queues: crate::process::texts(self.queues@),
            started_at_ms: self.started_at_ms,
            concurrency: self.concurrency,
        }
    }
}

impl PublisherView {
    /// Whether the identity is one that a process on the publisher's host can
    /// have drawn.
    pub open spec fn wf(self) -> bool {
        crate::identity::is_identity_on(self.identity, self.hostname)
    }

    /// What the publisher's process says of itself.
    pub open spec fn process_info(self, pid: u32, version: Seq<char>) -> ProcessInfoView {
        ProcessInfoView {
            hostname: self.hostname,
            identity: self.identity,
            started_at_ms: self.started_at_ms,
            pid,
            tag: Seq::empty(),
            concurrency: self.concurrency,
            queues: self.queues,
            labels: Seq::empty(),
            version,
            embedded: false,
        }
    }

    /// The state of the publisher's process at the moment `beat_ms`, with
    /// `busy` jobs at work and `rss_kb` kilobytes of memory in use.
    pub open spec fn process_stats(
        self,
        busy: usize,
        beat_ms: i64,
        rss_kb: u64,
        pid: u32,
        version: Seq<char>,
    ) -> ProcessStatsView {
        ProcessStatsView {
            rtt_us: "0"@,
            quiet: "false"@,
            busy,
            beat_ms,
            concurrency: self.concurrency,
            info: self.process_info(pid, version),
            rss: crate::text::decimal(rss_kb as nat),
        }
    }
}

/// The fields of a heartbeat; `info` is the process information as JSON.
pub open spec fn heartbeat_fields(stats: ProcessStatsView, info: Seq<char>) -> Seq<FieldView> {
    seq![
        FieldView { name: "info"@, value: ValueView::Text(info) },
        FieldView { name: "concurrency"@, value: ValueView::Number(stats.concurrency) },
        FieldView { name: "busy"@, value: ValueView::Number(stats.busy) },
        FieldView { name: "beat"@, value: ValueView::Seconds { millis: stats.beat_ms } },
        FieldView { name: "rtt_us"@, value: ValueView::Text(stats.rtt_us) },
        FieldView { name: "quiet"@, value: ValueView::Text(stats.quiet) },
        FieldView { name: "rss"@, value: ValueView::Text(stats.rss) },
    ]
}

/// The requests that publish a heartbeat of the process `identity`: store it,
/// have it expire, list the process.
pub open spec fn heartbeat_requests(
    identity: Seq<char>,
    stats: ProcessStatsView,
    info: Seq<char>,
) -> Seq<Seq<CommandView>> {
    seq![
        seq![CommandView::HashSet { key: identity, fields: heartbeat_fields(stats, info) }],
        seq![CommandView::Expire { key: identity, seconds: HEARTBEAT_TTL_SECONDS as int }],
        seq![CommandView::SetAdd { set: processes_key(), member: identity }],
    ]
}

/// The request that withdraws the process `identity`: strike it off the list
/// and delete its heartbeat, in one round trip.
pub open spec fn withdrawal_requests(identity: Seq<char>) -> Seq<Seq<CommandView>> {
    seq![
        seq![
            CommandView::SetRemove { set: processes_key(), member: identity },
            CommandView::Unlink { key: identity },
        ],
    ]
}

/// `chrono::Utc::now`, by `timestamp_millis` as a number: the milliseconds
/// since the Unix epoch. It depends on the clock of the machine, so nothing is
/// claimed of it: `is_read` holds of any number and only marks it as read. Where
/// that clock stands before the epoch, the call panics.
#[verifier::external_body]
fn utc_now_millis() -> (millis: i64)
    ensures
        crate::witness::is_read(millis),
{
    chrono::Utc::now().timestamp_millis()
}

fn clone_strings(strings: &Vec<String>) -> (copy: Vec<String>)
    ensures
        crate::process::texts(copy@) == crate::process::texts(strings@),
{
    let copy = strings.clone();
    assert(crate::process::texts(copy@) =~= crate::process::texts(strings@));
    copy
}

fn field(name: &str, value: Value) -> (field: Field)
    ensures
        field@ == (FieldView { name: name@, value: value@ }),
        field.name@ == name@,
        field.value == value,
{
    Field { name: name.to_owned(), value }
}

impl StatsPublisher {
    /// The shared count of busy jobs that the publisher reads.
    pub closed spec fn busy_counter(&self) -> Counter {
        self.busy_jobs
    }

    /// A publisher for process `pid`, which starts now, under an identity that
    /// is drawn for it.
    #[must_use]
    pub fn new(
        hostname: String,
        queues: Vec<String>,
        busy_jobs: Counter,
        concurrency: usize,
        pid: u32,
    ) -> (publisher: Self)
        ensures
            publisher@.wf(),
            crate::identity::is_identity(publisher@.identity, hostname@, pid),
            publisher@ == (PublisherView {
                hostname: hostname@,
                identity: publisher@.identity,
                queues: crate::process::texts(queues@),
                started_at_ms: publisher@.started_at_ms,
                concurrency,
            }),
            publisher.busy_counter() == busy_jobs,
            crate::witness::is_read(publisher@.started_at_ms),
            exists|nonce: Seq<u8>|
                nonce.len() == crate::identity::NONCE_BYTES && crate::witness::is_drawn(nonce)
                    && publisher@.identity == #[trigger] crate::identity::identity_text(
                    hostname@,
                    pid,
                    nonce,
                ),
    {
        let identity = crate::identity::generate_identity(hostname.as_str(), pid);
        let started_at_ms: i64 = utc_now_millis();
        Self::with_identity(hostname, identity, queues, started_at_ms, busy_jobs, concurrency)
    }

    /// A publisher for the process `identity`, which started at
    /// `started_at_ms`.
    #[must_use]
    pub fn with_identity(
        hostname: String,
        identity: String,
        queues: Vec<String>,
        started_at_ms: i64,
        busy_jobs: Counter,
        concurrency: usize,
    ) -> (publisher: Self)
        requires
            crate::identity::is_identity_on(identity@, hostname@),
        ensures
            publisher@.wf(),
            publisher@ == (PublisherView {
                hostname: hostname@,
                identity: identity@,
                queues: crate::process::texts(queues@),
                started_at_ms,
                concurrency,
            }),
            publisher.busy_counter() == busy_jobs,
    {
        Self { hostname, identity, queues, started_at_ms, busy_jobs, concurrency }
    }

    /// The name under which the process is known to the server.
    pub fn identity(&self) -> (identity: &str)
        ensures
            identity@ == self@.identity,
    {
        self.identity.as_str()
    }

    /// The state of the process now. The count of busy jobs and the time are
    /// what they are at the moment of the call: the publisher's counter was found
    /// to stand at the one, the clock was read for the other.
    pub fn create_process_stats(&self, rss_kb: u64, pid: u32, version: &str) -> (stats:
        ProcessStats)
        ensures
            stats@ == self@.process_stats(stats@.busy, stats@.beat_ms, rss_kb, pid, version@),
            self.busy_counter().may_stand_at(stats@.busy),
            self.busy_counter().place().was_found(stats@.busy),
            crate::witness::is_read(stats@.beat_ms),
            self.busy_counter().place().was_found(stats.busy),
            crate::witness::is_read(stats.beat_ms),
            stats.rtt_us@ == "0"@,
            stats.quiet@ == "false"@,
            stats.concurrency == self@.concurrency,
            stats.rss@ == crate::text::decimal(rss_kb as nat),
            crate::text::parsed_u64(stats.rss@) == Some(rss_kb),
            stats.info.hostname@ == self@.hostname,
            stats.info.identity@ == self@.identity,
            stats.info.started_at_ms == self@.started_at_ms,
            stats.info.pid == pid,
            stats.info.tag@.len() == 0,
            stats.info.concurrency == self@.concurrency,
            stats.info.queues@.len() == self@.queues.len(),
            forall|i: int|
                0 <= i < self@.queues.len() ==> (#[trigger] stats.info.queues@[i])@
                    == self@.queues[i],
            stats.info.labels@.len() == 0,
            stats.info.version@ == version@,
            !stats.info.embedded,
    {
        let busy: usize = self.busy_jobs.value();
        self.process_stats_at(busy, utc_now_millis(), rss_kb, pid, version)
    }

    /// The state of the process at the moment `beat_ms`, with `busy` jobs at
    /// work.
    pub fn process_stats_at(
        &self,
        busy: usize,
        beat_ms: i64,
        rss_kb: u64,
        pid: u32,
        version: &str,
    ) -> (stats: ProcessStats)
        ensures
            stats@ == self@.process_stats(busy, beat_ms, rss_kb, pid, version@),
            stats.busy == busy,
            stats.beat_ms == beat_ms,
            stats.rtt_us@ == "0"@,
            stats.quiet@ == "false"@,
            stats.concurrency == self@.concurrency,
            stats.rss@ == crate::text::decimal(rss_kb as nat),
            crate::text::parsed_u64(stats.rss@) == Some(rss_kb),
            stats.info.hostname@ == self@.hostname,
            stats.info.identity@ == self@.identity,
            stats.info.started_at_ms == self@.started_at_ms,
            stats.info.pid == pid,
            stats.info.tag@.len() == 0,
            stats.info.concurrency == self@.concurrency,
            stats.info.queues@.len() == self@.queues.len(),
            forall|i: int|
                0 <= i < self@.queues.len() ==> (#[trigger] stats.info.queues@[i])@
                    == self@.queues[i],
            stats.info.labels@.len() == 0,
            stats.info.version@ == version@,
            !stats.info.embedded,
    {
        let stats = ProcessStats {
            rtt_us: "0".to_owned(),
            busy,
            quiet: "false".to_owned(),
            rss: crate::text::decimal_text(rss_kb),
            concurrency: self.concurrency,
            beat_ms,
            info: ProcessInfo {
                concurrency: self.concurrency,
                hostname: self.hostname.clone(),
                identity: self.identity.clone(),
                queues: clone_strings(&self.queues),
                started_at_ms: self.started_at_ms,
                pid,
                labels: Vec::new(),
                tag: String::new(),
                version: version.to_owned(),
                embedded: false,
            },
        };
        assert(stats.info@.labels =~= Seq::<Seq<char>>::empty());
        proof {
            crate::text::lemma_parse_reads_decimal(rss_kb);
            crate::process::lemma_texts(stats.info.queues@);
            crate::process::lemma_texts(self.queues@);
            assert forall|i: int| 0 <= i < self@.queues.len() implies (
            #[trigger] stats.info.queues@[i])@ == self@.queues[i] by {
                assert(crate::process::texts(stats.info.queues@)[i] == self@.queues[i]);
            }
        }
        stats
    }

    /// The requests that publish `stats`, to be sent one after the other until
    /// one of them fails. `info` is `stats.info` as JSON.
    pub fn publish_stats(&self, stats: ProcessStats, info: String) -> (requests: Vec<Request>)
        ensures
            crate::command::requests_view(requests@) == heartbeat_requests(
                self@.identity,
                stats@,
                info@,
            ),
            requests@.len() == 3,
            forall|i: int| 0 <= i < 3 ==> (#[trigger] requests@[i]).commands@.len() == 1,
            requests@[0].commands@[0] matches Command::HashSet { key, fields } && key@
                == self@.identity && fields@.len() == 7 && fields@[0].name@ == "info"@
                && fields@[1].name@ == "concurrency"@ && fields@[2].name@ == "busy"@
                && fields@[3].name@ == "beat"@ && fields@[4].name@ == "rtt_us"@
                && fields@[5].name@ == "quiet"@ && fields@[6].name@ == "rss"@
                && fields@[0].value == Value::Text(info)
                && fields@[1].value == Value::Number(stats.concurrency) && fields@[2].value
                == Value::Number(stats.busy) && fields@[3].value == (Value::Seconds {
                millis: stats.beat_ms,
            }) && fields@[4].value == Value::Text(stats.rtt_us) && fields@[5].value
                == Value::Text(stats.quiet) && fields@[6].value == Value::Text(stats.rss),
            requests@[1].commands@[0] matches Command::Expire { key, seconds } && key@
                == self@.identity && seconds == 30,
            requests@[2].commands@[0] matches Command::SetAdd { set, member } && set@
                == "processes"@ && member@ == self@.identity,
    {
        let mut fields: Vec<Field> = Vec::new();
        fields.push(field("info", Value::Text(info)));
        fields.push(field("concurrency", Value::Number(stats.concurrency)));
        fields.push(field("busy", Value::Number(stats.busy)));
        fields.push(field("beat", Value::Seconds { millis: stats.beat_ms }));
        fields.push(field("rtt_us", Value::Text(stats.rtt_us)));
        fields.push(field("quiet", Value::Text(stats.quiet)));
        fields.push(field("rss", Value::Text(stats.rss)));
        let hset = Command::HashSet { key: self.identity.clone(), fields };
        let expire = Command::Expire {
            key: self.identity.clone(),
            seconds: HEARTBEAT_TTL_SECONDS,
        };
        let sadd = Command::SetAdd {
            set: "processes".to_owned(),
            member: self.identity.clone(),
        };
        assert(hset@->HashSet_fields =~= heartbeat_fields(stats@, info@));
        let requests = vec![
            Request { commands: vec![hset] },
            Request { commands: vec![expire] },
            Request { commands: vec![sadd] },
        ];
        proof {
            let expected = heartbeat_requests(self@.identity, stats@, info@);
            assert(requests@[0]@ =~= expected[0]);
            assert(requests@[1]@ =~= expected[1]);
            assert(requests@[2]@ =~= expected[2]);
            assert(crate::command::requests_view(requests@) =~= expected);
        }
        requests
    }

    /// The request that removes the process from the set of processes and
    /// deletes its heartbeat, in a single round trip.
    pub fn deregister(&self) -> (requests: Vec<Request>)
        ensures
            crate::command::requests_view(requests@) == withdrawal_requests(self@.identity),
            requests@.len() == 1,
            requests@[0].commands@.len() == 2,
            requests@[0].commands@[0] matches Command::SetRemove { set, member } && set@
                == "processes"@ && member@ == self@.identity,
            requests@[0].commands@[1] matches Command::Unlink { key } && key@ == self@.identity,
    {
        let srem = Command::SetRemove {
            set: "processes".to_owned(),
            member: self.identity.clone(),
        };
        let unlink = Command::Unlink { key: self.identity.clone() };
        let requests = vec![Request { commands: vec![srem, unlink] }];
        proof {
            let expected = withdrawal_requests(self@.identity);
            assert(requests@[0]@ =~= expected[0]);
            assert(crate::command::requests_view(requests@) =~= expected);
        }
        requests
    }
}

} // verus!
