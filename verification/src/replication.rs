//! The replication planner.
//!
//! On a tick of the scheduler, a master node pushes its full item snapshot to
//! every configured replica: one outbound connection per replica, one write
//! request per item, in snapshot order, each with a fixed placeholder body.
//! `plan_tick` decides the whole pass: it returns one task per replica on a
//! master node and nothing at all on a replica node. The caller performs the
//! connection and transfer for each task independently, so one unreachable
//! replica cannot disturb another's task.

use vstd::prelude::*;
use vstd::string::StrSliceExecFns;
use vstd::string::StringExecFns;
use crate::digits::dec_digits;
use crate::digits::u64_to_string;
use crate::protocol::byte_len;
use crate::protocol::first_line;
use crate::protocol::object_of;
use crate::text::has_second_token;
use crate::text::idx_of;
use crate::text::is_ws_char;
use crate::text::lemma_idx_of_concat;
use crate::text::lemma_skip_ws_concat;
use crate::text::lemma_strip_slashes_concat;
use crate::text::lemma_strip_slashes_id;
use crate::text::lemma_strip_slashes_one;
use crate::text::lemma_tok_concat;
use crate::text::second_token;
use crate::text::skip_ws;
use crate::text::starts_with_spec;
use crate::text::take_tok;

verus! {

/// The request line of the replication write for one item.
pub open spec fn repl_request_line(item: Seq<char>) -> Seq<char> {
    "POST /"@ + item + " HTTP/1.1"@
}

/// One full replication write request: the request line, fixed headers with
/// the exact byte length of the fixed placeholder body, and that body.
pub open spec fn repl_request_spec(item: Seq<char>) -> Seq<char> {
    repl_request_line(item) + "\r\nHost: localhost\r\nContent-Type: text/plain\r\nContent-Length: "@
        + dec_digits(byte_len("key1=value1&key2=value2"@) as nat) + "\r\n\r\n"@
        + "key1=value1&key2=value2"@
}

/// The replication requests for a snapshot: one per item, in snapshot order.
pub open spec fn repl_requests_spec(items: Seq<Seq<char>>) -> Seq<Seq<char>> {
    items.map_values(|item: Seq<char>| repl_request_spec(item))
}

/// True iff `item` can travel on a request line unchanged: it holds no
/// whitespace and no slash, as every identifier extracted from a request
/// line does by construction.
pub open spec fn wire_safe_item(item: Seq<char>) -> bool {
    forall|i: int| 0 <= i < item.len() ==> !is_ws_char(#[trigger] item[i]) && item[i] != '/'
}

/// The work of one tick for one replica: the address to connect to and the
/// requests to send on that connection, in order.
pub struct ReplicaTask {
    pub addr: String,
    pub requests: Vec<String>,
}

/// Builds the replication write request for one item.
pub fn build_replication_request(item: &str) -> (request: String)
    ensures
        request@ == repl_request_spec(item@),
{
    let body = "key1=value1&key2=value2";
    let mut request = String::from_str("POST /");
    request.append(item);
    request.append(" HTTP/1.1");
    request.append("\r\nHost: localhost\r\nContent-Type: text/plain\r\nContent-Length: ");
    let digits = u64_to_string(body.len() as u64);
    request.append(digits.as_str());
    request.append("\r\n\r\n");
    request.append(body);
    proof {
        assert(request@ =~= repl_request_spec(item@));
    }
    request
}

/// Builds the replication requests for a whole snapshot, one per item, in
/// snapshot order.
pub fn replication_requests(items: &Vec<String>) -> (requests: Vec<String>)
    ensures
        requests.deep_view() == repl_requests_spec(items.deep_view()),
{
    let n = items.len();
    let mut requests: Vec<String> = Vec::new();
    let mut i: usize = 0;
    while i < n
        invariant
            i <= n,
            n == items@.len(),
            requests@.len() == i,
            forall|j: int| 0 <= j < i ==> requests@[j]@ == repl_request_spec(
                items.deep_view()[j],
            ),
        decreases n - i,
    {
        requests.push(build_replication_request(items[i].as_str()));
        i += 1;
    }
    proof {
        assert(requests.deep_view() =~= repl_requests_spec(items.deep_view()));
    }
    requests
}

/// Decides one scheduler tick.
///
/// On a node that is not master the plan is empty: no outbound connection is
/// opened, whatever the interval or the replica list. On a master node the
/// plan holds one task per configured replica, in order, each addressing that
/// replica and carrying one write request per snapshot item, in snapshot
/// order; every task is built from the snapshot alone, independent of the
/// other replicas.
pub fn plan_tick(is_master: bool, replicas: &Vec<String>, items: &Vec<String>) -> (tasks: Vec<
    ReplicaTask,
>)
    ensures
        !is_master ==> tasks@.len() == 0,
        is_master ==> {
            &&& tasks@.len() == replicas@.len()
            &&& forall|i: int| 0 <= i < tasks@.len() ==> (#[trigger] tasks@[i]).addr@
                == replicas.deep_view()[i]
            &&& forall|i: int| 0 <= i < tasks@.len() ==> (#[trigger] tasks@[i]).requests.deep_view()
                == repl_requests_spec(items.deep_view())
        },
{
    let mut tasks: Vec<ReplicaTask> = Vec::new();
    if !is_master {
        return tasks;
    }
    let n = replicas.len();
    let mut i: usize = 0;
    while i < n
        invariant
            i <= n,
            n == replicas@.len(),
            tasks@.len() == i,
            forall|k: int| 0 <= k < i ==> (#[trigger] tasks@[k]).addr@ == replicas.deep_view()[k],
            forall|k: int| 0 <= k < i ==> (#[trigger] tasks@[k]).requests.deep_view()
                == repl_requests_spec(items.deep_view()),
        decreases n - i,
    {
        let requests = replication_requests(items);
        tasks.push(ReplicaTask { addr: replicas[i].clone(), requests });
        i += 1;
    }
    tasks
}

/// A replication request delivers exactly its item.
///
/// For any item free of whitespace and slashes, the first line a replica's
/// handler reads from the request built for the item is a well-formed write
/// request whose extracted identifier is the item itself. With the handler's
/// own contract this pins one tick down: each reachable replica's store gains
/// exactly the master's snapshot items, in snapshot order.
pub proof fn lemma_replication_round_trip(item: Seq<char>)
    requires
        wire_safe_item(item),
    ensures
        first_line(repl_request_spec(item)) == repl_request_line(item),
        starts_with_spec(repl_request_line(item), "POST"@),
        has_second_token(repl_request_line(item)),
        object_of(repl_request_line(item)) == item,
{
    reveal_strlit("POST /");
    reveal_strlit(" HTTP/1.1");
    reveal_strlit("POST");
    reveal_strlit("\r\nHost: localhost\r\nContent-Type: text/plain\r\nContent-Length: ");
    let line = repl_request_line(item);
    let request = repl_request_spec(item);
    let headers = "\r\nHost: localhost\r\nContent-Type: text/plain\r\nContent-Length: "@;
    let tail = headers + dec_digits(byte_len("key1=value1&key2=value2"@) as nat) + "\r\n\r\n"@
        + "key1=value1&key2=value2"@;

    // The first line: no line feed occurs before the one after the line.
    assert(forall|j: int| 0 <= j < line.len() ==> #[trigger] line[j] != '\n');
    assert(request =~= line + tail);
    lemma_idx_of_concat(line, tail, '\n');
    assert(tail[0] == '\r');
    assert(tail.drop_first()[0] == '\n');
    assert(idx_of(tail.drop_first(), '\n') == 0);
    assert(idx_of(tail, '\n') == 1);
    assert(idx_of(request, '\n') == line.len() + 1);
    assert(request.take(line.len() as int + 1) =~= line.push('\r'));
    assert(first_line(request) =~= line);

    // The line starts with the write method.
    assert(line.take(4) =~= "POST"@);

    // Its tokens: the method, then the slash-prefixed item.
    let method = "POST"@;
    let path = seq!['/'] + item;
    let rest = seq![' '] + path + " HTTP/1.1"@;
    assert(line =~= method + rest);
    assert(!is_ws_char(line[0]));
    assert(skip_ws(line) == line);
    assert(forall|j: int| 0 <= j < method.len() ==> !is_ws_char(#[trigger] method[j]));
    lemma_tok_concat(method, rest);
    assert(is_ws_char(rest[0]));
    assert(take_tok(rest) =~= Seq::<char>::empty());
    lemma_skip_ws_concat(seq![' '], path + " HTTP/1.1"@);
    assert(rest =~= seq![' '] + (path + " HTTP/1.1"@));
    assert(!is_ws_char((path + " HTTP/1.1"@)[0]));
    assert(skip_ws(path + " HTTP/1.1"@) == path + " HTTP/1.1"@);
    assert(forall|j: int| 0 <= j < path.len() ==> !is_ws_char(#[trigger] path[j]));
    lemma_tok_concat(path, " HTTP/1.1"@);
    assert(is_ws_char(" HTTP/1.1"@[0]));
    assert(take_tok(" HTTP/1.1"@) =~= Seq::<char>::empty());
    assert(second_token(line) =~= path);

    // Stripping the slash yields the item again.
    lemma_strip_slashes_concat(seq!['/'], item);
    lemma_strip_slashes_one('/');
    lemma_strip_slashes_id(item);
    assert(object_of(line) =~= item);
}

/// One tick delivers the whole snapshot: for every wire-safe snapshot, each
/// planned request's first line is a well-formed write whose identifier is
/// the corresponding snapshot item, in snapshot order. With the handler's
/// contract, a replica that receives a tick's requests appends exactly the
/// master's snapshot, so its store then contains every snapshotted item.
pub proof fn lemma_tick_delivers_snapshot(items: Seq<Seq<char>>)
    requires
        forall|j: int| 0 <= j < items.len() ==> wire_safe_item(#[trigger] items[j]),
    ensures
        repl_requests_spec(items).len() == items.len(),
        forall|j: int| 0 <= j < items.len() ==> {
            let line = first_line(#[trigger] repl_requests_spec(items)[j]);
            &&& starts_with_spec(line, "POST"@)
            &&& has_second_token(line)
            &&& object_of(line) == items[j]
        },
{
    assert forall|j: int| 0 <= j < items.len() implies {
        let line = first_line(#[trigger] repl_requests_spec(items)[j]);
        &&& starts_with_spec(line, "POST"@)
        &&& has_second_token(line)
        &&& object_of(line) == items[j]
    } by {
        lemma_replication_round_trip(items[j]);
    }
}

} // verus!
