//! The line-based wire protocol.
//!
//! One connection carries one request: a first line of the shape
//! `<METHOD> /<identifier> <trailer>`. A line starting with `POST` is a write:
//! the identifier is added to the store and a fixed "created" response is
//! returned. A line starting with `GET` is a read: the response reports
//! whether the identifier was ever added. Any other method gets no response.
//! A `POST` or `GET` line with fewer than two whitespace-delimited tokens is
//! a per-connection protocol error. Responses are a status line, an exact
//! byte-length header, a blank line and the body.

use vstd::prelude::*;
use vstd::string::StrSliceExecFns;
use vstd::string::StringExecFns;
use crate::digits::dec_digits;
use crate::digits::u64_to_string;
use crate::storage::Store;
use crate::text::char_is_ws;
use crate::text::drop_tok;
use crate::text::has_second_token;
use crate::text::idx_of;
use crate::text::is_ws_char;
use crate::text::lemma_skip_ws_prefix;
use crate::text::lemma_strip_slashes_concat;
use crate::text::lemma_strip_slashes_one;
use crate::text::lemma_tok_prefix;
use crate::text::second_token;
use crate::text::skip_ws;
use crate::text::starts_with_spec;
use crate::text::str_starts_with;
use crate::text::strip_slashes;
use crate::text::take_tok;

verus! {

/// The UTF-8 byte length of a character sequence, as a machine length.
pub open spec fn byte_len(s: Seq<char>) -> usize {
    vstd::utf8::encode_utf8(s).len() as usize
}

/// One full response: the status line, the exact byte-length header, a blank
/// separator line, then the body. The connection is closed after it.
pub open spec fn http_response_spec(status: Seq<char>, body: Seq<char>) -> Seq<char> {
    status + "\r\nContent-Length: "@ + dec_digits(byte_len(body) as nat) + "\r\n\r\n"@ + body
}

/// The body of a successful write response.
pub open spec fn write_body_spec(object: Seq<char>) -> Seq<char> {
    "The following object has been created: "@ + object
}

/// The body of a read response.
pub open spec fn read_body_spec(present: bool) -> Seq<char> {
    "The following object exists: "@ + if present {
        "true"@
    } else {
        "false"@
    }
}

/// The full response to a successful write.
pub open spec fn write_response_spec(object: Seq<char>) -> Seq<char> {
    http_response_spec("HTTP/1.1 201 DISTRIBEAUTIE_OBJECT_CREATED"@, write_body_spec(object))
}

/// The full response to a read.
pub open spec fn read_response_spec(present: bool) -> Seq<char> {
    http_response_spec("HTTP/1.1 200 OK"@, read_body_spec(present))
}

/// The identifier a request line addresses: its second whitespace-delimited
/// token with every `/` removed.
pub open spec fn object_of(line: Seq<char>) -> Seq<char> {
    strip_slashes(second_token(line))
}

/// The first line a reader takes from a text stream: the characters before
/// the first line feed, with one trailing carriage return removed.
pub open spec fn first_line(s: Seq<char>) -> Seq<char> {
    let line = s.take(idx_of(s, '\n'));
    if line.len() > 0 && line.last() == '\r' {
        line.drop_last()
    } else {
        line
    }
}

/// The error a connection fails with: the request line held fewer than two
/// whitespace-delimited tokens, so no identifier could be extracted.
#[derive(Debug, Clone, Copy, PartialEq, Eq, Structural)]
pub enum ProtocolError {
    MalformedRequest,
}

fn render_response(status: &str, body: String) -> (response: String)
    ensures
        response@ == http_response_spec(status@, body@),
{
    let len = body.as_str().len();
    let mut response = String::from_str(status);
    response.append("\r\nContent-Length: ");
    let digits = u64_to_string(len as u64);
    response.append(digits.as_str());
    response.append("\r\n\r\n");
    response.append(body.as_str());
    proof {
        assert(response@ =~= http_response_spec(status@, body@));
    }
    response
}

/// Extracts the identifier of a request line, or `None` when the line has
/// fewer than two whitespace-delimited tokens.
pub fn get_object_checked(request_line: &str) -> (object: Option<String>)
    ensures
        match object {
            Some(o) => has_second_token(request_line@) && o@ == object_of(request_line@),
            None => !has_second_token(request_line@),
        },
{
    let ghost s = request_line@;
    let n = request_line.unicode_len();
    let mut i: usize = 0;
    while i < n && char_is_ws(request_line.get_char(i))
        invariant
            i <= n,
            n == s.len(),
            request_line@ == s,
            forall|j: int| 0 <= j < i ==> is_ws_char(s[j]),
        decreases n - i,
    {
        i += 1;
    }
    let start1 = i;
    proof {
        lemma_skip_ws_prefix(s, start1 as int);
        assert(skip_ws(s.skip(start1 as int)) == s.skip(start1 as int));
    }
    let ghost t1 = s.skip(start1 as int);
    while i < n && !char_is_ws(request_line.get_char(i))
        invariant
            start1 <= i <= n,
            n == s.len(),
            request_line@ == s,
            forall|j: int| start1 <= j < i ==> !is_ws_char(s[j]),
        decreases n - i,
    {
        i += 1;
    }
    let end1 = i;
    proof {
        lemma_tok_prefix(t1, end1 - start1);
        assert(t1.skip(end1 - start1) =~= s.skip(end1 as int));
        assert(drop_tok(s.skip(end1 as int)) == s.skip(end1 as int));
        assert(drop_tok(skip_ws(s)) == s.skip(end1 as int));
    }
    while i < n && char_is_ws(request_line.get_char(i))
        invariant
            end1 <= i <= n,
            n == s.len(),
            request_line@ == s,
            forall|j: int| end1 <= j < i ==> is_ws_char(s[j]),
        decreases n - i,
    {
        i += 1;
    }
    let start2 = i;
    proof {
        assert(forall|j: int| 0 <= j < start2 - end1 ==> is_ws_char(s.skip(end1 as int)[j]));
        lemma_skip_ws_prefix(s.skip(end1 as int), start2 - end1);
        assert(s.skip(end1 as int).skip(start2 - end1) =~= s.skip(start2 as int));
        assert(skip_ws(s.skip(start2 as int)) == s.skip(start2 as int));
        assert(skip_ws(drop_tok(skip_ws(s))) == s.skip(start2 as int));
    }
    let ghost t2 = s.skip(start2 as int);
    if i == n {
        proof {
            assert(t2.len() == 0);
            assert(second_token(s) == take_tok(t2));
            assert(take_tok(t2).len() == 0);
        }
        return None;
    }
    let mut object = String::new();
    proof {
        reveal(Seq::filter);
        assert(s.subrange(start2 as int, start2 as int) =~= Seq::<char>::empty());
        assert(strip_slashes(Seq::<char>::empty()) =~= Seq::<char>::empty());
    }
    while i < n && !char_is_ws(request_line.get_char(i))
        invariant
            start2 <= i <= n,
            n == s.len(),
            request_line@ == s,
            forall|j: int| start2 <= j < i ==> !is_ws_char(s[j]),
            object@ == strip_slashes(s.subrange(start2 as int, i as int)),
        decreases n - i,
    {
        let c = request_line.get_char(i);
        if !(c == '/') {
            object.append(request_line.substring_char(i, i + 1));
        }
        proof {
            assert(s.subrange(start2 as int, i + 1) =~= s.subrange(start2 as int, i as int)
                + seq![s[i as int]]);
            lemma_strip_slashes_concat(s.subrange(start2 as int, i as int), seq![s[i as int]]);
            lemma_strip_slashes_one(s[i as int]);
        }
        i += 1;
    }
    let end2 = i;
    proof {
        lemma_tok_prefix(t2, end2 - start2);
        assert(t2.skip(end2 - start2) =~= s.skip(end2 as int));
        assert(take_tok(s.skip(end2 as int)).len() == 0);
        assert(t2.take(end2 - start2) =~= s.subrange(start2 as int, end2 as int));
        assert(second_token(s) =~= s.subrange(start2 as int, end2 as int));
        assert(end2 > start2);
    }
    Some(object)
}

/// The identifier a request line addresses; the line must hold at least two
/// whitespace-delimited tokens.
pub fn get_object(request_line: String) -> (object: String)
    requires
        has_second_token(request_line@),
    ensures
        object@ == object_of(request_line@),
{
    match get_object_checked(request_line.as_str()) {
        Some(o) => o,
        None => {
            proof {
                assert(false);
            }
            String::new()
        },
    }
}

/// Handles one connection's request line against the store.
///
/// A `POST` line adds the addressed identifier and returns the "created"
/// response; a `GET` line leaves the store unchanged and returns the response
/// reporting whether the identifier is present; a `POST` or `GET` line with
/// fewer than two tokens fails the connection with a protocol error; any
/// other line is ignored with no response. The store changes exactly on a
/// well-formed `POST`.
pub fn handle_request(store: &mut Store, request_line: &str) -> (reply: Result<
    Option<String>,
    ProtocolError,
>)
    ensures
        starts_with_spec(request_line@, "POST"@) ==> {
            if has_second_token(request_line@) {
                &&& final(store)@ == old(store)@.push(object_of(request_line@))
                &&& reply matches Ok(response) && response matches Some(text) && text@
                    == write_response_spec(object_of(request_line@))
            } else {
                &&& final(store)@ == old(store)@
                &&& reply matches Err(e) && e == ProtocolError::MalformedRequest
            }
        },
        !starts_with_spec(request_line@, "POST"@) && starts_with_spec(request_line@, "GET"@) ==> {
            if has_second_token(request_line@) {
                &&& final(store)@ == old(store)@
                &&& reply matches Ok(response) && response matches Some(text) && text@
                    == read_response_spec(old(store)@.contains(object_of(request_line@)))
            } else {
                &&& final(store)@ == old(store)@
                &&& reply matches Err(e) && e == ProtocolError::MalformedRequest
            }
        },
        !starts_with_spec(request_line@, "POST"@) && !starts_with_spec(request_line@, "GET"@) ==> {
            &&& final(store)@ == old(store)@
            &&& reply matches Ok(response) && response matches None
        },
{
    let is_post = str_starts_with(request_line, "POST");
    let is_get = if is_post {
        false
    } else {
        str_starts_with(request_line, "GET")
    };
    if is_post {
        match get_object_checked(request_line) {
            Some(object) => {
                let mut body = String::from_str("The following object has been created: ");
                body.append(object.as_str());
                proof {
                    assert(body@ =~= write_body_spec(object_of(request_line@)));
                }
                store.add_item(object);
                let response = render_response("HTTP/1.1 201 DISTRIBEAUTIE_OBJECT_CREATED", body);
                Ok(Some(response))
            },
            None => Err(ProtocolError::MalformedRequest),
        }
    } else if is_get {
        match get_object_checked(request_line) {
            Some(object) => {
                let mut body = String::from_str("The following object exists: ");
                let present = store.get_item(object);
                body.append(if present {
                    "true"
                } else {
                    "false"
                });
                proof {
                    assert(body@ =~= read_body_spec(present));
                }
                let response = render_response("HTTP/1.1 200 OK", body);
                Ok(Some(response))
            },
            None => Err(ProtocolError::MalformedRequest),
        }
    } else {
        Ok(None)
    }
}

/// A write followed by a read of the same identifier reports it present:
/// after the write's identifier is appended, any read request addressing the
/// same identifier gets the response that says the object exists, on any
/// store contents and on the same or another connection.
pub proof fn lemma_write_then_read(
    items: Seq<Seq<char>>,
    write_line: Seq<char>,
    read_line: Seq<char>,
)
    requires
        object_of(read_line) == object_of(write_line),
    ensures
        items.push(object_of(write_line)).contains(object_of(read_line)),
        read_response_spec(items.push(object_of(write_line)).contains(object_of(read_line)))
            == read_response_spec(true),
{
    let appended = items.push(object_of(write_line));
    assert(appended[items.len() as int] == object_of(write_line));
}

} // verus!
