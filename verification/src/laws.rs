//! What publishing and withdrawing mean to the server and to other processes.

use crate::command::{CommandView, ValueView};
use crate::counter::Update;
use crate::delivery::{DeliveryView, NextView};
use crate::process::ProcessStatsView;
use crate::publisher::PublisherView;
use crate::store::{Entry, Store};
use vstd::prelude::*;

verus! {

/// Whether a server with the data `store` can take the heartbeats of the
/// process `identity`: under the two keys that they use it holds nothing of
/// another kind.
pub open spec fn takes_heartbeats(store: Store, identity: Seq<char>) -> bool {
    &&& !store.has_hash(crate::publisher::processes_key())
    &&& !store.has_set(identity)
}

/// The data of a server after a heartbeat.
pub open spec fn after_heartbeat(
    store: Store,
    publisher: PublisherView,
    stats: ProcessStatsView,
    info: Seq<char>,
) -> Store {
    store.after_requests(crate::publisher::heartbeat_requests(publisher.identity, stats, info))
}

/// The data of a server after a process was withdrawn.
pub open spec fn after_withdrawal(store: Store, publisher: PublisherView) -> Store {
    store.after_requests(crate::publisher::withdrawal_requests(publisher.identity))
}

/// Whether the process `identity` is listed among the running ones.
pub open spec fn is_listed(store: Store, identity: Seq<char>) -> bool {
    store.members("processes"@).contains(identity)
}

/// An identity is never the key of the set that lists the processes.
pub proof fn lemma_identity_is_no_other_key(identity: Seq<char>, hostname: Seq<char>)
    requires
        crate::identity::is_identity_on(identity, hostname),
    ensures
        identity != crate::publisher::processes_key(),
{
    reveal_strlit("processes");
    assert("processes"@ =~= seq!['p', 'r', 'o', 'c', 'e', 's', 's', 'e', 's']);
    let pid = choose|pid: u32| #[trigger] crate::identity::is_identity(identity, hostname, pid);
    let nonce = choose|nonce: Seq<u8>|
        nonce.len() == crate::identity::NONCE_BYTES && identity
            == #[trigger] crate::identity::identity_text(hostname, pid, nonce);
    assert(identity[hostname.len() as int] == ':');
}

proof fn lemma_one_command(store: Store, command: CommandView)
    ensures
        store.after_request(seq![command]) == store.after(command),
        store.accepts_request(seq![command]) == store.accepts(command),
{
    let none = seq![command].drop_last();
    assert(store.after_request(none) == store);
    assert(store.accepts_request(none));
}

proof fn lemma_one_more_request(store: Store, requests: Seq<Seq<CommandView>>, n: int)
    requires
        0 <= n < requests.len(),
    ensures
        store.after_requests(requests.take(n + 1)) == store.after_requests(
            requests.take(n),
        ).after_request(requests[n]),
        store.accepts_requests(requests.take(n + 1)) == (store.accepts_requests(requests.take(n))
            && store.after_requests(requests.take(n)).accepts_request(requests[n])),
{
    assert(requests.take(n + 1).drop_last() =~= requests.take(n));
}

/// The stores that a heartbeat leads to, request by request, on any server.
proof fn lemma_heartbeat_commands(
    store: Store,
    identity: Seq<char>,
    stats: ProcessStatsView,
    info: Seq<char>,
) -> (steps: (Store, Store, Store))
    ensures
        ({
            let requests = crate::publisher::heartbeat_requests(identity, stats, info);
            let hset = requests[0][0];
            let expire = requests[1][0];
            let sadd = requests[2][0];
            &&& steps.0 == store.after(hset)
            &&& steps.1 == steps.0.after(expire)
            &&& steps.2 == steps.1.after(sadd)
            &&& store.after_requests(requests.take(0)) == store
            &&& store.after_requests(requests.take(1)) == steps.0
            &&& store.after_requests(requests.take(2)) == steps.1
            &&& store.after_requests(requests.take(3)) == steps.2
            &&& store.accepts_requests(requests.take(0))
            &&& store.accepts_requests(requests.take(1)) == store.accepts(hset)
            &&& store.accepts_requests(requests.take(2)) == (store.accepts(hset)
                && steps.0.accepts(expire))
            &&& store.accepts_requests(requests.take(3)) == (store.accepts(hset)
                && steps.0.accepts(expire) && steps.1.accepts(sadd))
            &&& requests.take(3) == requests
        }),
{
    let requests = crate::publisher::heartbeat_requests(identity, stats, info);
    let hset = requests[0][0];
    let expire = requests[1][0];
    let sadd = requests[2][0];
    let first = store.after(hset);
    let second = first.after(expire);
    assert(requests[0] =~= seq![hset]);
    assert(requests[1] =~= seq![expire]);
    assert(requests[2] =~= seq![sadd]);
    lemma_one_command(store, hset);
    lemma_one_command(first, expire);
    lemma_one_command(second, sadd);
    assert(store.after_requests(requests.take(0)) == store);
    assert(store.accepts_requests(requests.take(0)));
    lemma_one_more_request(store, requests, 0);
    lemma_one_more_request(store, requests, 1);
    lemma_one_more_request(store, requests, 2);
    assert(requests.take(3) =~= requests);
    (first, second, second.after(sadd))
}

/// The stores that a heartbeat leads to on a server that takes it.
proof fn lemma_heartbeat_steps(
    store: Store,
    identity: Seq<char>,
    stats: ProcessStatsView,
    info: Seq<char>,
) -> (steps: (Store, Store, Store))
    requires
        identity != crate::publisher::processes_key(),
        takes_heartbeats(store, identity),
    ensures
        ({
            let requests = crate::publisher::heartbeat_requests(identity, stats, info);
            let fields = crate::publisher::heartbeat_fields(stats, info);
            let key = crate::publisher::processes_key();
            &&& store.after_requests(requests.take(0)) == store
            &&& store.after_requests(requests.take(1)) == steps.0
            &&& store.after_requests(requests.take(2)) == steps.1
            &&& store.after_requests(requests.take(3)) == steps.2
            &&& store.after_requests(requests) == steps.2
            &&& store.accepts_requests(requests)
            &&& steps.0 == store.with(
                identity,
                Entry::Hash(crate::store::with_fields(store.hash(identity), fields)),
            )
            &&& steps.1 == (Store {
                entries: steps.0.entries,
                expiries: store.expiries.insert(
                    identity,
                    30,
                ),
            })
            &&& steps.2 == steps.1.with(key, Entry::Members(store.members(key).insert(identity)))
        }),
{
    lemma_heartbeat_commands(store, identity, stats, info)
}

/// The store that a withdrawal leaves behind.
proof fn lemma_withdrawal_steps(store: Store, identity: Seq<char>) -> (struck: Store)
    requires
        identity != crate::publisher::processes_key(),
        !store.has_hash(crate::publisher::processes_key()),
    ensures
        ({
            let requests = crate::publisher::withdrawal_requests(identity);
            let key = crate::publisher::processes_key();
            &&& store.accepts_requests(requests)
            &&& store.after_requests(requests) == struck.without(identity)
            &&& struck == store.after(CommandView::SetRemove { set: key, member: identity })
        }),
{
    let requests = crate::publisher::withdrawal_requests(identity);
    let key = crate::publisher::processes_key();
    let srem = CommandView::SetRemove { set: key, member: identity };
    let unlink = CommandView::Unlink { key: identity };
    let struck = store.after(srem);
    lemma_one_command(store, srem);
    assert(requests[0].drop_last() =~= seq![srem]);
    assert(store.after_request(requests[0]) == struck.after(unlink));
    assert(store.accepts_request(requests[0]));
    assert(store.after_requests(requests.take(0)) == store);
    assert(store.accepts_requests(requests.take(0)));
    lemma_one_more_request(store, requests, 0);
    assert(requests.take(1) =~= requests);
    struck
}

/// No two fields of a heartbeat have the same name.
proof fn lemma_field_names_differ(stats: ProcessStatsView, info: Seq<char>)
    ensures
        ({
            let fields = crate::publisher::heartbeat_fields(stats, info);
            forall|i: int, j: int|
                0 <= i < j < fields.len() ==> (#[trigger] fields[i]).name != (
                #[trigger] fields[j]).name
        }),
{
    reveal_strlit("info");
    reveal_strlit("concurrency");
    reveal_strlit("busy");
    reveal_strlit("beat");
    reveal_strlit("rtt_us");
    reveal_strlit("quiet");
    reveal_strlit("rss");
    assert("info"@[0] == 'i' && "busy"@[0] == 'b' && "beat"@[0] == 'b');
    assert("busy"@[1] == 'u' && "beat"@[1] == 'e');
    assert("info"@.len() == 4 && "busy"@.len() == 4 && "beat"@.len() == 4);
    assert("concurrency"@.len() == 11 && "rtt_us"@.len() == 6);
    assert("quiet"@.len() == 5 && "rss"@.len() == 3);
}

/// A heartbeat is taken, and then the process is listed, its heartbeat says
/// what the publisher says, and it expires unless the next one renews it.
pub proof fn lemma_heartbeat_is_published(
    store: Store,
    publisher: PublisherView,
    stats: ProcessStatsView,
    info: Seq<char>,
)
    requires
        publisher.wf(),
        takes_heartbeats(store, publisher.identity),
    ensures
        store.accepts_requests(
            crate::publisher::heartbeat_requests(publisher.identity, stats, info),
        ),
        ({
            let after = after_heartbeat(store, publisher, stats, info);
            let hash = after.hash(publisher.identity);
            &&& is_listed(after, publisher.identity)
            &&& after.has_hash(publisher.identity)
            &&& hash.contains_pair("info"@, ValueView::Text(info))
            &&& hash.contains_pair("concurrency"@, ValueView::Number(stats.concurrency))
            &&& hash.contains_pair("busy"@, ValueView::Number(stats.busy))
            &&& hash.contains_pair("beat"@, ValueView::Seconds { millis: stats.beat_ms })
            &&& hash.contains_pair("rtt_us"@, ValueView::Text(stats.rtt_us))
            &&& hash.contains_pair("quiet"@, ValueView::Text(stats.quiet))
            &&& hash.contains_pair("rss"@, ValueView::Text(stats.rss))
            &&& after.expiries.contains_pair(
                publisher.identity,
                30,
            )
            &&& takes_heartbeats(after, publisher.identity)
        }),
{
    lemma_identity_is_no_other_key(publisher.identity, publisher.hostname);
    lemma_heartbeat_steps(store, publisher.identity, stats, info);
    let fields = crate::publisher::heartbeat_fields(stats, info);
    lemma_field_names_differ(stats, info);
    crate::store::lemma_with_fields(store.hash(publisher.identity), fields);
    assert(fields[0].name == "info"@);
    assert(fields[1].name == "concurrency"@);
    assert(fields[2].name == "busy"@);
    assert(fields[3].name == "beat"@);
    assert(fields[4].name == "rtt_us"@);
    assert(fields[5].name == "quiet"@);
    assert(fields[6].name == "rss"@);
}

/// Whether `command` is for the process `identity` alone.
pub open spec fn is_for(command: CommandView, identity: Seq<char>) -> bool {
    match command {
        CommandView::HashSet { key, .. } => key == identity,
        CommandView::Expire { key, .. } => key == identity,
        CommandView::SetAdd { set, member } => set == crate::publisher::processes_key() && member
            == identity,
        CommandView::SetRemove { set, member } => set == crate::publisher::processes_key()
            && member == identity,
        CommandView::Unlink { key } => key == identity,
    }
}

/// Whether `before` and `after` agree on `other`: on whether it is listed, and,
/// unless it is the key of that list, on what is held under it and for how long.
pub open spec fn same_for(before: Store, after: Store, other: Seq<char>) -> bool {
    &&& is_listed(after, other) == is_listed(before, other)
    &&& other != crate::publisher::processes_key() ==> {
        &&& after.has(other) == before.has(other)
        &&& after.entries[other] == before.entries[other]
        &&& after.expiries.contains_key(other) == before.expiries.contains_key(other)
        &&& after.expiries[other] == before.expiries[other]
    }
}

proof fn lemma_command_changes_nothing_else(
    store: Store,
    command: CommandView,
    identity: Seq<char>,
    other: Seq<char>,
)
    requires
        is_for(command, identity),
        identity != crate::publisher::processes_key(),
        other != identity,
    ensures
        same_for(store, store.after(command), other),
{
    let key = crate::publisher::processes_key();
    assert(store.members(key).remove(identity).contains(other) == store.members(key).contains(
        other,
    ));
}

proof fn lemma_request_changes_nothing_else(
    store: Store,
    request: Seq<CommandView>,
    identity: Seq<char>,
    other: Seq<char>,
)
    requires
        forall|i: int| 0 <= i < request.len() ==> is_for(#[trigger] request[i], identity),
        identity != crate::publisher::processes_key(),
        other != identity,
    ensures
        same_for(store, store.after_request(request), other),
    decreases request.len(),
{
    if request.len() > 0 {
        let rest = request.drop_last();
        assert forall|i: int| 0 <= i < rest.len() implies is_for(#[trigger] rest[i], identity) by {
            assert(is_for(request[i], identity));
        }
        lemma_request_changes_nothing_else(store, rest, identity, other);
        assert(is_for(request[request.len() - 1], identity));
        lemma_command_changes_nothing_else(
            store.after_request(rest),
            request.last(),
            identity,
            other,
        );
    }
}

/// A heartbeat concerns no other process and no other key, whatever the server
/// holds, whether or not it takes the requests, and however many of them were
/// sent.
pub proof fn lemma_heartbeat_changes_nothing_else(
    store: Store,
    publisher: PublisherView,
    stats: ProcessStatsView,
    info: Seq<char>,
    sent: int,
    other: Seq<char>,
)
    requires
        publisher.wf(),
        0 <= sent <= crate::publisher::heartbeat_requests(publisher.identity, stats, info).len(),
        other != publisher.identity,
    ensures
        same_for(
            store,
            store.after_requests(
                crate::publisher::heartbeat_requests(publisher.identity, stats, info).take(sent),
            ),
            other,
        ),
    decreases sent,
{
    lemma_identity_is_no_other_key(publisher.identity, publisher.hostname);
    let requests = crate::publisher::heartbeat_requests(publisher.identity, stats, info);
    if sent > 0 {
        lemma_heartbeat_changes_nothing_else(store, publisher, stats, info, sent - 1, other);
        lemma_one_more_request(store, requests, sent - 1);
        lemma_request_changes_nothing_else(
            store.after_requests(requests.take(sent - 1)),
            requests[sent - 1],
            publisher.identity,
            other,
        );
    }
}

/// A heartbeat replaces the one before it: the server holds the same as if only
/// the last one had been sent.
pub proof fn lemma_heartbeat_renews_the_last(
    store: Store,
    publisher: PublisherView,
    stats1: ProcessStatsView,
    info1: Seq<char>,
    stats2: ProcessStatsView,
    info2: Seq<char>,
)
    requires
        publisher.wf(),
        takes_heartbeats(store, publisher.identity),
    ensures
        after_heartbeat(
            after_heartbeat(store, publisher, stats1, info1),
            publisher,
            stats2,
            info2,
        ) == after_heartbeat(store, publisher, stats2, info2),
{
    let identity = publisher.identity;
    let key = crate::publisher::processes_key();
    let fields1 = crate::publisher::heartbeat_fields(stats1, info1);
    let fields2 = crate::publisher::heartbeat_fields(stats2, info2);
    lemma_identity_is_no_other_key(identity, publisher.hostname);
    let once = lemma_heartbeat_steps(store, identity, stats1, info1).2;
    let twice = lemma_heartbeat_steps(once, identity, stats2, info2).2;
    let only = lemma_heartbeat_steps(store, identity, stats2, info2).2;
    let hash0 = store.hash(identity);
    let hash1 = crate::store::with_fields(hash0, fields1);
    lemma_field_names_differ(stats1, info1);
    lemma_field_names_differ(stats2, info2);
    crate::store::lemma_with_fields(hash0, fields1);
    crate::store::lemma_with_fields(hash1, fields2);
    crate::store::lemma_with_fields(hash0, fields2);
    let renewed = crate::store::with_fields(hash1, fields2);
    let direct = crate::store::with_fields(hash0, fields2);
    assert forall|name: Seq<char>|
        #![trigger renewed.contains_key(name)]
        #![trigger direct.contains_key(name)]
        renewed.contains_key(name) == direct.contains_key(name) && (direct.contains_key(name)
            ==> renewed[name] == direct[name]) by {
        if crate::store::has_field(fields2, name) {
            let i = choose|i: int| 0 <= i < fields2.len() && (#[trigger] fields2[i]).name == name;
            assert(direct.contains_pair(fields2[i].name, fields2[i].value));
            assert(renewed.contains_pair(fields2[i].name, fields2[i].value));
        } else {
            if crate::store::has_field(fields1, name) {
                let i = choose|i: int|
                    0 <= i < fields1.len() && (#[trigger] fields1[i]).name == name;
                assert(fields2[i].name == name);
            }
        }
    }
    assert(renewed =~= direct);
    assert(store.members(key).insert(identity).insert(identity) =~= store.members(key).insert(
        identity,
    ));
    assert(twice.entries =~= only.entries);
    assert(twice.expiries =~= only.expiries);
}

/// However far the requests of a heartbeat got, each sent only once the one
/// before was taken, and whatever the server held: a process that was not listed
/// before is listed only once its heartbeat is stored and set to expire, and
/// then every request was taken.
pub proof fn lemma_listed_only_with_heartbeat(
    store: Store,
    publisher: PublisherView,
    stats: ProcessStatsView,
    info: Seq<char>,
    sent: int,
)
    requires
        publisher.wf(),
        !is_listed(store, publisher.identity),
        0 <= sent <= crate::publisher::heartbeat_requests(publisher.identity, stats, info).len(),
        sent > 0 ==> store.accepts_requests(
            crate::publisher::heartbeat_requests(publisher.identity, stats, info).take(sent - 1),
        ),
    ensures
        ({
            let requests = crate::publisher::heartbeat_requests(publisher.identity, stats, info);
            let reached = store.after_requests(requests.take(sent));
            is_listed(reached, publisher.identity) ==> {
                &&& sent == requests.len()
                &&& store.accepts_requests(requests)
                &&& reached.has_hash(publisher.identity)
                &&& reached.hash(publisher.identity) == crate::store::with_fields(
                    store.hash(publisher.identity),
                    crate::publisher::heartbeat_fields(stats, info),
                )
                &&& reached.expiries.contains_pair(
                    publisher.identity,
                    30,
                )
            }
        }),
{
    lemma_identity_is_no_other_key(publisher.identity, publisher.hostname);
    lemma_heartbeat_commands(store, publisher.identity, stats, info);
}

/// The data of a server to which `delivery` is carried out to its end: whether
/// the server takes a request decides what comes next.
pub open spec fn after_delivery(store: Store, delivery: DeliveryView, taken: bool) -> Store
    decreases delivery.waiting.len(),
{
    match delivery.next(taken) {
        NextView::Send(request) => after_delivery(
            store.after_request(request),
            delivery.after(taken),
            store.accepts_request(request),
        ),
        _ => store,
    }
}

/// Where a delivery to a server ends: after the first request that it refused,
/// or after all of them.
proof fn lemma_delivery_ends(store: Store, requests: Seq<Seq<CommandView>>, n: int) -> (sent: int)
    requires
        0 <= n <= requests.len(),
        store.accepts_requests(requests.take(n)),
    ensures
        n <= sent <= requests.len(),
        sent > 0 ==> store.accepts_requests(requests.take(sent - 1)),
        sent < requests.len() ==> !store.accepts_requests(requests.take(sent)),
        after_delivery(
            store.after_requests(requests.take(n)),
            DeliveryView::of(requests.skip(n)),
            true,
        ) == store.after_requests(requests.take(sent)),
    decreases requests.len() - n,
{
    let reached = store.after_requests(requests.take(n));
    let delivery = DeliveryView::of(requests.skip(n));
    if n == requests.len() {
        assert(delivery.next(true) is Delivered);
        if n > 0 {
            lemma_one_more_request(store, requests, n - 1);
        }
        n
    } else {
        let request = requests[n];
        lemma_one_more_request(store, requests, n);
        assert(delivery.next(true) == NextView::Send(request));
        assert(delivery.after(true).waiting =~= requests.skip(n + 1));
        assert(delivery.after(true) == DeliveryView::of(requests.skip(n + 1)));
        if reached.accepts_request(request) {
            lemma_delivery_ends(store, requests, n + 1)
        } else {
            let rest = DeliveryView::of(requests.skip(n + 1));
            assert(rest.next(false) is Abandoned);
            assert(after_delivery(reached.after_request(request), rest, false)
                == reached.after_request(request));
            n + 1
        }
    }
}

/// A heartbeat that is delivered to any server lists a process that was not
/// listed before only where all of it was taken: then the heartbeat is stored
/// and set to expire. Where the server refuses a request, the process does not
/// get on the list.
pub proof fn lemma_delivery_lists_only_with_heartbeat(
    store: Store,
    publisher: PublisherView,
    stats: ProcessStatsView,
    info: Seq<char>,
)
    requires
        publisher.wf(),
        !is_listed(store, publisher.identity),
    ensures
        ({
            let requests = crate::publisher::heartbeat_requests(publisher.identity, stats, info);
            let after = after_delivery(store, DeliveryView::of(requests), true);
            &&& is_listed(after, publisher.identity) == store.accepts_requests(requests)
            &&& is_listed(after, publisher.identity) ==> {
                &&& after == after_heartbeat(store, publisher, stats, info)
                &&& after.has_hash(publisher.identity)
                &&& after.expiries.contains_pair(
                    publisher.identity,
                    30,
                )
            }
        }),
{
    let identity = publisher.identity;
    let requests = crate::publisher::heartbeat_requests(identity, stats, info);
    assert(store.after_requests(requests.take(0)) == store);
    assert(store.accepts_requests(requests.take(0)));
    assert(requests.skip(0) =~= requests);
    assert(requests.take(requests.len() as int) =~= requests);
    let sent = lemma_delivery_ends(store, requests, 0);
    lemma_listed_only_with_heartbeat(store, publisher, stats, info, sent);
    if store.accepts_requests(requests) {
        lemma_identity_is_no_other_key(identity, publisher.hostname);
        lemma_accepted_means_takes_heartbeats(store, identity, stats, info);
        lemma_heartbeat_is_published(store, publisher, stats, info);
        if sent < requests.len() {
            lemma_accepted_prefix(store, requests, sent);
        }
    }
}

proof fn lemma_accepted_prefix(store: Store, requests: Seq<Seq<CommandView>>, n: int)
    requires
        0 <= n <= requests.len(),
        store.accepts_requests(requests),
    ensures
        store.accepts_requests(requests.take(n)),
    decreases requests.len() - n,
{
    assert(requests.take(requests.len() as int) =~= requests);
    if n < requests.len() {
        lemma_accepted_prefix(store, requests, n + 1);
        lemma_one_more_request(store, requests, n);
    }
}

/// A server takes a heartbeat only where it holds nothing of another kind under
/// its keys.
pub proof fn lemma_accepted_means_takes_heartbeats(
    store: Store,
    identity: Seq<char>,
    stats: ProcessStatsView,
    info: Seq<char>,
)
    requires
        identity != crate::publisher::processes_key(),
        store.accepts_requests(crate::publisher::heartbeat_requests(identity, stats, info)),
    ensures
        takes_heartbeats(store, identity),
{
    lemma_heartbeat_commands(store, identity, stats, info);
}

/// A withdrawal is taken, and then the process is not listed and nothing is
/// left of its heartbeat.
pub proof fn lemma_withdrawal_removes_process(store: Store, publisher: PublisherView)
    requires
        publisher.wf(),
        !store.has_hash(crate::publisher::processes_key()),
    ensures
        store.accepts_requests(crate::publisher::withdrawal_requests(publisher.identity)),
        !is_listed(after_withdrawal(store, publisher), publisher.identity),
        !after_withdrawal(store, publisher).has(publisher.identity),
        !after_withdrawal(store, publisher).expiries.contains_key(publisher.identity),
        !after_withdrawal(store, publisher).has_hash(crate::publisher::processes_key()),
{
    lemma_identity_is_no_other_key(publisher.identity, publisher.hostname);
    lemma_withdrawal_steps(store, publisher.identity);
}

/// A withdrawal concerns no other process and no other key, whatever the server
/// holds. In particular a process that was listed stays listed, and keeps its
/// heartbeat.
pub proof fn lemma_withdrawal_changes_nothing_else(
    store: Store,
    publisher: PublisherView,
    other: Seq<char>,
)
    requires
        publisher.wf(),
        other != publisher.identity,
    ensures
        same_for(store, after_withdrawal(store, publisher), other),
{
    lemma_identity_is_no_other_key(publisher.identity, publisher.hostname);
    let requests = crate::publisher::withdrawal_requests(publisher.identity);
    assert(store.after_requests(requests.take(0)) == store);
    lemma_one_more_request(store, requests, 0);
    assert(requests.take(1) =~= requests);
    lemma_request_changes_nothing_else(store, requests[0], publisher.identity, other);
}

/// To withdraw a process a second time is no error and changes nothing.
pub proof fn lemma_withdrawal_is_idempotent(store: Store, publisher: PublisherView)
    requires
        publisher.wf(),
        !store.has_hash(crate::publisher::processes_key()),
    ensures
        after_withdrawal(store, publisher).accepts_requests(
            crate::publisher::withdrawal_requests(publisher.identity),
        ),
        after_withdrawal(after_withdrawal(store, publisher), publisher) == after_withdrawal(
            store,
            publisher,
        ),
{
    lemma_withdrawal_removes_process(store, publisher);
    lemma_withdrawal_of_absent_changes_nothing(after_withdrawal(store, publisher), publisher);
}

/// To withdraw a process of which the server knows nothing, as before its first
/// heartbeat, is no error and changes nothing.
pub proof fn lemma_withdrawal_of_absent_changes_nothing(store: Store, publisher: PublisherView)
    requires
        publisher.wf(),
        !store.has_hash(crate::publisher::processes_key()),
        !is_listed(store, publisher.identity),
        !store.has(publisher.identity),
        !store.expiries.contains_key(publisher.identity),
    ensures
        store.accepts_requests(crate::publisher::withdrawal_requests(publisher.identity)),
        after_withdrawal(store, publisher) == store,
{
    lemma_identity_is_no_other_key(publisher.identity, publisher.hostname);
    let struck = lemma_withdrawal_steps(store, publisher.identity);
    assert(struck.without(publisher.identity).entries =~= store.entries);
    assert(struck.without(publisher.identity).expiries =~= store.expiries);
}

/// A withdrawal undoes a first heartbeat: the server holds what it held before
/// it knew of the process.
pub proof fn lemma_withdrawal_undoes_heartbeat(
    store: Store,
    publisher: PublisherView,
    stats: ProcessStatsView,
    info: Seq<char>,
)
    requires
        publisher.wf(),
        store.wf(),
        takes_heartbeats(store, publisher.identity),
        !is_listed(store, publisher.identity),
        !store.has(publisher.identity),
    ensures
        after_withdrawal(after_heartbeat(store, publisher, stats, info), publisher) == store,
{
    let identity = publisher.identity;
    let key = crate::publisher::processes_key();
    lemma_identity_is_no_other_key(identity, publisher.hostname);
    let published = lemma_heartbeat_steps(store, identity, stats, info).2;
    let struck = lemma_withdrawal_steps(published, identity);
    let withdrawn = struck.without(identity);
    assert(store.members(key).insert(identity).remove(identity) =~= store.members(key));
    assert(published.members(key) == store.members(key).insert(identity));
    if store.has(key) {
        assert(store.has_set(key));
    } else {
        assert(!store.expiries.contains_key(key));
    }
    assert(!store.expiries.contains_key(identity));
    assert(withdrawn.entries =~= store.entries);
    assert(withdrawn.expiries =~= store.expiries);
}

/// The data of a server after a row of heartbeats of one process.
pub open spec fn after_heartbeats(
    store: Store,
    publisher: PublisherView,
    beats: Seq<(ProcessStatsView, Seq<char>)>,
) -> Store
    decreases beats.len(),
{
    if beats.len() == 0 {
        store
    } else {
        after_heartbeat(
            after_heartbeats(store, publisher, beats.drop_last()),
            publisher,
            beats.last().0,
            beats.last().1,
        )
    }
}

/// Of a row of heartbeats only the last counts.
pub proof fn lemma_last_heartbeat_counts(
    store: Store,
    publisher: PublisherView,
    beats: Seq<(ProcessStatsView, Seq<char>)>,
)
    requires
        publisher.wf(),
        takes_heartbeats(store, publisher.identity),
        beats.len() > 0,
    ensures
        after_heartbeats(store, publisher, beats) == after_heartbeat(
            store,
            publisher,
            beats.last().0,
            beats.last().1,
        ),
    decreases beats.len(),
{
    let rest = beats.drop_last();
    if rest.len() > 0 {
        lemma_last_heartbeat_counts(store, publisher, rest);
        lemma_heartbeat_renews_the_last(
            store,
            publisher,
            rest.last().0,
            rest.last().1,
            beats.last().0,
            beats.last().1,
        );
    } else {
        assert(after_heartbeats(store, publisher, rest) == store);
    }
}

/// One withdrawal undoes any number of heartbeats: the server holds what it held
/// before it knew of the process.
pub proof fn lemma_withdrawal_undoes_heartbeats(
    store: Store,
    publisher: PublisherView,
    beats: Seq<(ProcessStatsView, Seq<char>)>,
)
    requires
        publisher.wf(),
        store.wf(),
        takes_heartbeats(store, publisher.identity),
        !is_listed(store, publisher.identity),
        !store.has(publisher.identity),
    ensures
        after_withdrawal(after_heartbeats(store, publisher, beats), publisher) == store,
{
    if beats.len() == 0 {
        lemma_withdrawal_of_absent_changes_nothing(store, publisher);
    } else {
        lemma_last_heartbeat_counts(store, publisher, beats);
        lemma_withdrawal_undoes_heartbeat(store, publisher, beats.last().0, beats.last().1);
    }
}

/// A state carries what the publisher was made with and what it was given, each
/// unchanged, and nothing of its own but a fixed round-trip time, that the
/// process is not quiet, no tag, no labels, and that it is not embedded.
pub proof fn lemma_state_carries_publisher(
    publisher: PublisherView,
    busy: usize,
    beat_ms: i64,
    rss_kb: u64,
    pid: u32,
    version: Seq<char>,
)
    ensures
        ({
            let stats = publisher.process_stats(busy, beat_ms, rss_kb, pid, version);
            let info = stats.info;
            &&& stats.busy == busy
            &&& stats.beat_ms == beat_ms
            &&& crate::text::parsed_u64(stats.rss) == Some(rss_kb)
            &&& stats.rtt_us == "0"@
            &&& stats.quiet == "false"@
            &&& stats.concurrency == publisher.concurrency
            &&& info.hostname == publisher.hostname
            &&& info.identity == publisher.identity
            &&& info.started_at_ms == publisher.started_at_ms
            &&& info.pid == pid
            &&& info.tag.len() == 0
            &&& info.concurrency == publisher.concurrency
            &&& info.queues.len() == publisher.queues.len()
            &&& forall|i: int|
                0 <= i < publisher.queues.len() ==> #[trigger] info.queues[i]
                    == publisher.queues[i]
            &&& info.labels.len() == 0
            &&& info.version == version
            &&& !info.embedded
        }),
{
    crate::text::lemma_parse_reads_decimal(rss_kb);
}

/// A first heartbeat stores its seven fields and no others.
pub proof fn lemma_heartbeat_has_seven_fields(
    store: Store,
    publisher: PublisherView,
    stats: ProcessStatsView,
    info: Seq<char>,
    name: Seq<char>,
)
    requires
        publisher.wf(),
        takes_heartbeats(store, publisher.identity),
        !store.has(publisher.identity),
        after_heartbeat(store, publisher, stats, info).hash(publisher.identity).contains_key(name),
    ensures
        name == "info"@ || name == "concurrency"@ || name == "busy"@ || name == "beat"@ || name
            == "rtt_us"@ || name == "quiet"@ || name == "rss"@,
{
    lemma_identity_is_no_other_key(publisher.identity, publisher.hostname);
    lemma_heartbeat_steps(store, publisher.identity, stats, info);
    let fields = crate::publisher::heartbeat_fields(stats, info);
    lemma_field_names_differ(stats, info);
    crate::store::lemma_with_fields(store.hash(publisher.identity), fields);
    if !crate::store::has_field(fields, name) {
        assert(!store.hash(publisher.identity).contains_key(name));
    } else {
        let i = choose|i: int| 0 <= i < fields.len() && (#[trigger] fields[i]).name == name;
        assert(i == 0 || i == 1 || i == 2 || i == 3 || i == 4 || i == 5 || i == 6);
    }
}

/// Two states of one process differ only in the busy jobs, the moment and the
/// memory. Where `updates` is what was done to the count in between, by whoever
/// counts, the busy jobs differ by their total.
pub proof fn lemma_states_differ_by_updates(
    publisher: PublisherView,
    busy: usize,
    updates: Seq<Update>,
    beat1_ms: i64,
    beat2_ms: i64,
    rss1_kb: u64,
    rss2_kb: u64,
    pid: u32,
    version: Seq<char>,
)
    ensures
        ({
            let first = publisher.process_stats(busy, beat1_ms, rss1_kb, pid, version);
            let second = publisher.process_stats(
                crate::counter::after_updates(busy, updates),
                beat2_ms,
                rss2_kb,
                pid,
                version,
            );
            &&& second == (ProcessStatsView {
                busy: second.busy,
                beat_ms: second.beat_ms,
                rss: second.rss,
                ..first
            })
            &&& second.busy == (first.busy + crate::counter::total(updates)) % (usize::MAX + 1)
        }),
{
    crate::counter::lemma_updates_add_up(busy, updates);
}

/// A process stays listed, and its heartbeat stays as it is, when a process of
/// another identity is withdrawn.
pub proof fn lemma_sibling_stays(
    store: Store,
    publisher: PublisherView,
    sibling: PublisherView,
    stats: ProcessStatsView,
    info: Seq<char>,
)
    requires
        publisher.wf(),
        sibling.wf(),
        publisher.identity != sibling.identity,
        takes_heartbeats(store, sibling.identity),
    ensures
        ({
            let published = after_heartbeat(store, sibling, stats, info);
            let after = after_withdrawal(published, publisher);
            &&& is_listed(after, sibling.identity)
            &&& after.has_hash(sibling.identity)
            &&& after.hash(sibling.identity) == published.hash(sibling.identity)
            &&& after.expiries.contains_pair(
                sibling.identity,
                30,
            )
        }),
{
    lemma_identity_is_no_other_key(sibling.identity, sibling.hostname);
    lemma_heartbeat_is_published(store, sibling, stats, info);
    lemma_withdrawal_changes_nothing_else(
        after_heartbeat(store, sibling, stats, info),
        publisher,
        sibling.identity,
    );
}

} // verus!
