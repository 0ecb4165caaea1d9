//! OSCQuery advertisement: recognising VRChat clients among the mDNS services and
//! answering the HTTP queries that VRChat sends to the advertised endpoint.
use vstd::prelude::*;
use vstd::utf8::{decode_utf8, encode_utf8, is_ascii_chars, is_ascii_chars_encode_utf8, valid_utf8};
use crate::text::{
    ascii_ci_eq, ascii_lower, chars_of, decimal, find_char, find_ws, first_index, is_white_space, lemma_ascii_concat,
    lemma_decimal_ascii, lemma_scan_for, lemma_scan_ws, lemma_scan_ws_shift, nth_token,
    push_decimal, range_eq_ignore_ascii_case, range_is, scan_for, scan_ws,
};

verus! {

/// mDNS service type under which OSCQuery endpoints are advertised.
pub const OSCQUERY_SERVICE_TYPE: &'static str = "_oscjson._tcp.local.";
/// Instance-name prefix of the services that VRChat clients advertise.
pub const VRCHAT_SERVICE_PREFIX: &'static str = "VRChat-Client-";
/// Name under which this bridge advertises itself.
pub const SERVICE_NAME: &'static str = "PatMe-in-VR";
/// Host name under which this bridge advertises itself.
pub const SERVICE_HOSTNAME: &'static str = "patme-in-vr.local.";
/// Answer to a query of the root node.
pub const OSCQUERY_ROOT: &'static str =
    r#"{"FULL_PATH":"/","ACCESS":0,"CONTENTS":{"avatar":{"FULL_PATH":"/avatar","ACCESS":0}}}"#;
/// Answer to a query of the avatar node.
pub const OSCQUERY_AVATAR: &'static str = r#"{"FULL_PATH":"/avatar","ACCESS":0}"#;
/// Answer to a query of any other node.
pub const OSCQUERY_NOT_FOUND: &'static str = r#"{"ERROR":"Not found"}"#;
/// Status line of a successful answer.
pub const STATUS_OK: &'static str = "200 OK";
/// Status line of an answer for an unknown node.
pub const STATUS_NOT_FOUND: &'static str = "404 Not Found";
/// Query key that asks for the host information instead of a node.
pub const HOST_INFO_KEY: &'static str = "HOST_INFO";

/// Whether an mDNS full name belongs to a VRChat client: its first characters are the
/// VRChat prefix, compared without regard to ASCII case.
pub open spec fn is_vrchat_name(fullname: Seq<char>) -> bool {
    &&& fullname.len() >= VRCHAT_SERVICE_PREFIX@.len()
    &&& ascii_ci_eq(fullname.take(VRCHAT_SERVICE_PREFIX@.len() as int), VRCHAT_SERVICE_PREFIX@)
}

/// Whether the mDNS service `fullname` is advertised by a VRChat client.
pub fn is_vrchat_service(fullname: &str) -> (r: bool)
    ensures
        r == is_vrchat_name(fullname@),
{
    let name = chars_of(fullname);
    let prefix = chars_of(VRCHAT_SERVICE_PREFIX);
    if name.len() < prefix.len() {
        return false;
    }
    let r = range_eq_ignore_ascii_case(&name, 0, prefix.len(), &prefix);
    assert(name@.subrange(0, prefix@.len() as int) == fullname@.take(prefix@.len() as int));
    r
}

/// The path part of a request target: everything before the first `?`.
pub open spec fn target_path(target: Seq<char>) -> Seq<char> {
    target.take(first_index(target, '?'))
}

/// The query part of a request target: everything after the first `?`, empty without one.
pub open spec fn target_query(target: Seq<char>) -> Seq<char> {
    if first_index(target, '?') < target.len() {
        target.skip(first_index(target, '?') + 1)
    } else {
        Seq::empty()
    }
}

/// Whether one of the `&`-separated parts of `query` has, before its first `=`,
/// the key `HOST_INFO` (compared without regard to ASCII case).
pub open spec fn requests_host_info(query: Seq<char>) -> bool
    decreases query.len(),
{
    let end = first_index(query, '&');
    let part = query.take(end);
    let key = part.take(first_index(part, '='));
    if ascii_ci_eq(key, HOST_INFO_KEY@) {
        true
    } else if 0 <= end < query.len() {
        requests_host_info(query.skip(end + 1))
    } else {
        false
    }
}

/// The host-information document that tells VRChat where to send OSC messages.
pub open spec fn host_info_body(osc_port: u16) -> Seq<char> {
    r#"{"NAME":""#@ + SERVICE_NAME@ + r#"","OSC_PORT":"#@ + decimal(osc_port as nat)
        + r#","OSC_TRANSPORT":"UDP","EXTENSIONS":{}}"#@
}

/// Status line and body of the answer to the request target `target`.
pub open spec fn query_answer(target: Seq<char>, osc_port: u16) -> (Seq<char>, Seq<char>) {
    let path = target_path(target);
    if requests_host_info(target_query(target)) {
        (STATUS_OK@, host_info_body(osc_port))
    } else if path == "/"@ {
        (STATUS_OK@, OSCQUERY_ROOT@)
    } else if path == "/avatar"@ || path == "/avatar/"@ {
        (STATUS_OK@, OSCQUERY_AVATAR@)
    } else {
        (STATUS_NOT_FOUND@, OSCQUERY_NOT_FOUND@)
    }
}

fn has_host_info_key(q: &[char]) -> (r: bool)
    ensures
        r == requests_host_info(q@),
{
    let key = chars_of(HOST_INFO_KEY);
    let n = q.len();
    let mut i: usize = 0;
    assert(q@.subrange(0, n as int) == q@);
    loop
        invariant
            n == q@.len(),
            key@ == HOST_INFO_KEY@,
            0 <= i <= n,
            requests_host_info(q@) == requests_host_info(q@.subrange(i as int, n as int)),
        decreases n - i,
    {
        let ghost rest = q@.subrange(i as int, n as int);
        let end = find_char(q, '&', i, n);
        let key_end = find_char(q, '=', i, end);
        let found = range_eq_ignore_ascii_case(q, i, key_end, &key);
        proof {
            let part = rest.take(end - i);
            assert(part == q@.subrange(i as int, end as int));
            assert(part.take(key_end - i) == q@.subrange(i as int, key_end as int));
        }
        if found {
            return true;
        }
        if end == n {
            return false;
        }
        assert(rest.skip(end - i + 1) == q@.subrange(end + 1, n as int));
        i = end + 1;
    }
}

/// Status line and body answering an OSCQuery request for `target`.
pub fn query_response(target: &str, osc_port: u16) -> (r: (&'static str, String))
    ensures
        (r.0@, r.1@) == query_answer(target@, osc_port),
{
    let t = chars_of(target);
    let n = t.len();
    let qm = find_char(&t, '?', 0, n);
    proof {
        lemma_scan_for(t@, '?', 0);
        assert(t@.subrange(0, n as int) == t@);
    }
    let query: Vec<char> = if qm < n {
        let q = chars_of(target.substring_char(qm + 1, n));
        assert(q@ == target_query(target@));
        q
    } else {
        Vec::new()
    };
    assert(query@ == target_query(target@));
    if has_host_info_key(&query) {
        let mut body = String::from_str(r#"{"NAME":""#);
        body.append(SERVICE_NAME);
        body.append(r#"","OSC_PORT":"#);
        push_decimal(&mut body, osc_port as u64);
        body.append(r#","OSC_TRANSPORT":"UDP","EXTENSIONS":{}}"#);
        return (STATUS_OK, body);
    }
    assert(t@.subrange(0, qm as int) == target_path(target@));
    if range_is(&t, 0, qm, "/") {
        (STATUS_OK, String::from_str(OSCQUERY_ROOT))
    } else if range_is(&t, 0, qm, "/avatar") || range_is(&t, 0, qm, "/avatar/") {
        (STATUS_OK, String::from_str(OSCQUERY_AVATAR))
    } else {
        (STATUS_NOT_FOUND, String::from_str(OSCQUERY_NOT_FOUND))
    }
}

/// The request line of an HTTP request: everything before the first line feed.
pub open spec fn request_line(request: Seq<char>) -> Seq<char> {
    request.take(first_index(request, '\n'))
}

/// The target of an HTTP request: the second whitespace-separated word of its request line,
/// or `/` when the line has fewer words.
pub open spec fn request_target_of(request: Seq<char>) -> Seq<char> {
    match nth_token(request_line(request), 1) {
        Some(target) => target,
        None => "/"@,
    }
}

/// The request target of the HTTP request `request`.
pub fn request_target<'a>(request: &'a str) -> (t: &'a str)
    ensures
        t@ == request_target_of(request@),
{
    proof {
        reveal_strlit("/");
    }
    let c = chars_of(request);
    let n = c.len();
    let le = find_char(&c, '\n', 0, n);
    let ghost line = c@.subrange(0, le as int);
    proof {
        assert(c@.subrange(0, n as int) == c@);
        lemma_scan_for(c@, '\n', 0);
        assert(line == request_line(request@));
    }
    let s0 = find_ws(&c, false, 0, le);
    if s0 == le {
        return "/";
    }
    let e0 = find_ws(&c, true, s0, le);
    proof {
        lemma_scan_ws(line, 0, false);
        lemma_scan_ws_shift(line, s0 as int, 0, true);
        assert(line.subrange(s0 as int, le as int) == c@.subrange(s0 as int, le as int));
        lemma_scan_ws(line, s0 as int, true);
        assert(e0 == scan_ws(line, s0 as int, true));
        assert(line.skip(e0 as int) == c@.subrange(e0 as int, le as int));
        assert(s0 < e0);
        assert(nth_token(line, 1) == nth_token(line.skip(e0 as int), 0));
    }
    let ghost rest = line.skip(e0 as int);
    proof {
        lemma_scan_ws(rest, 0, false);
        assert(rest.len() == le - e0);
        assert(rest == c@.subrange(e0 as int, le as int));
        assert(c@.subrange(e0 as int, le as int).subrange(0, rest.len() as int) == rest);
    }
    let s1 = find_ws(&c, false, e0, le);
    if s1 == le {
        return "/";
    }
    let e1 = find_ws(&c, true, s1, le);
    proof {
        let st = scan_ws(rest, 0, false);
        lemma_scan_ws(rest, 0, false);
        assert(s1 == e0 + st);
        lemma_scan_ws_shift(rest, st, 0, true);
        assert(rest.subrange(st, rest.len() as int) == c@.subrange(s1 as int, le as int));
        assert(e1 == e0 + scan_ws(rest, st, true));
        assert(rest.subrange(st, scan_ws(rest, st, true)) == c@.subrange(s1 as int, e1 as int));
    }
    request.substring_char(s1, e1)
}

/// An HTTP/1.1 response with status line `status` that carries the JSON document `body`,
/// announcing the length of `body` in UTF-8 bytes and closing the connection.
pub open spec fn http_reply(status: Seq<char>, body: Seq<char>) -> Seq<char> {
    "HTTP/1.1 "@ + status + "\r\nContent-Type: application/json\r\nContent-Length: "@
        + decimal(encode_utf8(body).len()) + "\r\nConnection: close\r\n\r\n"@ + body
}

/// The response to the HTTP request whose text is `request`.
pub open spec fn oscquery_reply(request: Seq<char>, osc_port: u16) -> Seq<char> {
    let answer = query_answer(request_target_of(request), osc_port);
    http_reply(answer.0, answer.1)
}

/// Every answer body is ASCII text.
proof fn lemma_answer_ascii(target: Seq<char>, osc_port: u16)
    ensures
        is_ascii_chars(query_answer(target, osc_port).1),
{
    reveal_strlit(r#"{"FULL_PATH":"/","ACCESS":0,"CONTENTS":{"avatar":{"FULL_PATH":"/avatar","ACCESS":0}}}"#);
    reveal_strlit(r#"{"FULL_PATH":"/avatar","ACCESS":0}"#);
    reveal_strlit(r#"{"ERROR":"Not found"}"#);
    reveal_strlit(r#"{"NAME":""#);
    reveal_strlit("PatMe-in-VR");
    reveal_strlit(r#"","OSC_PORT":"#);
    reveal_strlit(r#","OSC_TRANSPORT":"UDP","EXTENSIONS":{}}"#);
    lemma_decimal_ascii(osc_port as nat);
    let a = r#"{"NAME":""#@;
    let b = SERVICE_NAME@;
    let c = r#"","OSC_PORT":"#@;
    let d = decimal(osc_port as nat);
    let e = r#","OSC_TRANSPORT":"UDP","EXTENSIONS":{}}"#@;
    assert(is_ascii_chars(a));
    assert(is_ascii_chars(b));
    assert(is_ascii_chars(c));
    assert(is_ascii_chars(e));
    lemma_ascii_concat(a, b);
    lemma_ascii_concat(a + b, c);
    lemma_ascii_concat(a + b + c, d);
    lemma_ascii_concat(a + b + c + d, e);
    assert(is_ascii_chars(OSCQUERY_ROOT@));
    assert(is_ascii_chars(OSCQUERY_AVATAR@));
    assert(is_ascii_chars(OSCQUERY_NOT_FOUND@));
}

/// The HTTP response to the request whose (decoded) text is `request_text`.
pub fn oscquery_http_reply(request_text: &str, osc_port: u16) -> (r: String)
    ensures
        r@ == oscquery_reply(request_text@, osc_port),
{
    let target = request_target(request_text);
    let (status, body) = query_response(target, osc_port);
    let body_len = chars_of(body.as_str()).len();
    proof {
        lemma_answer_ascii(target@, osc_port);
        is_ascii_chars_encode_utf8(body@);
    }
    let mut reply = String::from_str("HTTP/1.1 ");
    reply.append(status);
    reply.append("\r\nContent-Type: application/json\r\nContent-Length: ");
    push_decimal(&mut reply, body_len as u64);
    reply.append("\r\nConnection: close\r\n\r\n");
    reply.append(body.as_str());
    reply
}

/// What `String::from_utf8_lossy` makes of `bytes`: the decoded text, with each invalid
/// sequence replaced by U+FFFD.
pub uninterp spec fn utf8_lossy(bytes: Seq<u8>) -> Seq<char>;

/// Calls `String::from_utf8_lossy`. Its result is named `utf8_lossy`; beyond that, the
/// contract claims only what the documentation of `from_utf8_lossy` says: a byte sequence
/// that is valid UTF-8 comes back as the text it encodes.
#[verifier::external_body]
fn decode_lossy(bytes: &[u8]) -> (text: String)
    ensures
        text@ == utf8_lossy(bytes@),
        valid_utf8(bytes@) ==> text@ == decode_utf8(bytes@),
{
    String::from_utf8_lossy(bytes).into_owned()
}

/// The HTTP response to the raw request bytes `request`, decoded as UTF-8 with invalid
/// sequences replaced.
pub fn oscquery_reply_bytes(request: &[u8], osc_port: u16) -> (r: String)
    ensures
        r@ == oscquery_reply(utf8_lossy(request@), osc_port),
        valid_utf8(request@) ==> r@ == oscquery_reply(decode_utf8(request@), osc_port),
{
    let text = decode_lossy(request);
    oscquery_http_reply(text.as_str(), osc_port)
}

/// Whether `bytes` holds the blank line (CR LF CR LF) that ends the header of an HTTP request.
pub open spec fn has_header_end(bytes: Seq<u8>) -> bool {
    exists|i: int|
        0 <= i && i + 4 <= bytes.len() && #[trigger] bytes[i] == 13 && bytes[i + 1] == 10
            && bytes[i + 2] == 13 && bytes[i + 3] == 10
}

/// Whether the bytes of a request read so far hold the end of its header.
pub fn header_complete(bytes: &[u8]) -> (r: bool)
    ensures
        r == has_header_end(bytes@),
{
    let n = bytes.len();
    if n < 4 {
        return false;
    }
    let mut i: usize = 0;
    while i <= n - 4
        invariant
            n == bytes@.len(),
            n >= 4,
            0 <= i <= n - 3,
            forall|k: int|
                0 <= k < i ==> !(#[trigger] bytes@[k] == 13 && bytes@[k + 1] == 10 && bytes@[k + 2]
                    == 13 && bytes@[k + 3] == 10),
        decreases n - i,
    {
        if bytes[i] == 13 && bytes[i + 1] == 10 && bytes[i + 2] == 13 && bytes[i + 3] == 10 {
            return true;
        }
        i = i + 1;
    }
    false
}

/// Whether to read more of a request after a read of `last_read` bytes, with the bytes
/// received so far in `received` and room for `capacity` bytes in all: stop at the end of
/// the stream (a read of nothing), when the room is used up, or once the header has ended.
pub fn continue_reading(received: &[u8], capacity: usize, last_read: usize) -> (r: bool)
    ensures
        r == (last_read > 0 && received@.len() < capacity && !has_header_end(received@)),
{
    if last_read == 0 || received.len() >= capacity {
        return false;
    }
    !header_complete(received)
}

/// What the mDNS browser reports, as far as VRChat tracking reads it.
pub enum DiscoveryEvent {
    /// A service was resolved; it carries the service's full name.
    Resolved(String),
    /// A service went away; it carries the service's full name.
    Removed(String),
    /// The browser stopped searching.
    SearchStopped,
    /// Any other report.
    Other,
}

/// Whether a browser report is about a VRChat client or ends the search: the reports after
/// which the VRChat status is published.
pub open spec fn is_vrchat_report(event: DiscoveryEvent) -> bool {
    match event {
        DiscoveryEvent::Resolved(name) => is_vrchat_name(name@),
        DiscoveryEvent::Removed(name) => is_vrchat_name(name@),
        DiscoveryEvent::SearchStopped => true,
        DiscoveryEvent::Other => false,
    }
}

/// The visible VRChat clients after one browser report: a resolved VRChat client is added,
/// a removed one taken away, the end of the search clears them all, and every other report
/// changes nothing.
pub open spec fn tracker_step(clients: Set<Seq<char>>, event: DiscoveryEvent) -> Set<Seq<char>> {
    match event {
        DiscoveryEvent::Resolved(name) => if is_vrchat_name(name@) {
            clients.insert(name@)
        } else {
            clients
        },
        DiscoveryEvent::Removed(name) => if is_vrchat_name(name@) {
            clients.remove(name@)
        } else {
            clients
        },
        DiscoveryEvent::SearchStopped => Set::empty(),
        DiscoveryEvent::Other => clients,
    }
}

/// The status published after a report, given the clients visible after it: whether any
/// is visible, after a VRChat report; nothing after any other report.
pub open spec fn published_status(event: DiscoveryEvent, clients: Set<Seq<char>>) -> Option<bool> {
    if is_vrchat_report(event) {
        Some(clients != Set::<Seq<char>>::empty())
    } else {
        None
    }
}

/// The VRChat clients currently visible on the network, by mDNS full name.
pub struct VrchatTracker {
    services: Vec<String>,
}

impl View for VrchatTracker {
    type V = Set<Seq<char>>;

    closed spec fn view(&self) -> Set<Seq<char>> {
        Set::new(|n: Seq<char>| exists|i: int| 0 <= i < self.services@.len() && #[trigger] self.services@[i]@ == n)
    }
}

impl VrchatTracker {
    /// Each name is held once, and only names of VRChat clients are held.
    pub closed spec fn wf(&self) -> bool {
        &&& forall|i: int, j: int|
            0 <= i < j < self.services@.len() ==> #[trigger] self.services@[i]@ != #[trigger] self.services@[j]@
        &&& forall|i: int| 0 <= i < self.services@.len() ==> is_vrchat_name(#[trigger] self.services@[i]@)
    }

    /// No VRChat client seen yet.
    pub fn new() -> (t: Self)
        ensures
            t.wf(),
            t@ == Set::<Seq<char>>::empty(),
    {
        let t = VrchatTracker { services: Vec::new() };
        assert(t@ =~= Set::<Seq<char>>::empty());
        t
    }

    /// Whether at least one VRChat client is visible.
    pub fn any(&self) -> (r: bool)
        ensures
            r == (self@ != Set::<Seq<char>>::empty()),
    {
        if self.services.len() == 0 {
            assert(self@ =~= Set::<Seq<char>>::empty());
            false
        } else {
            assert(self@.contains(self.services@[0]@));
            true
        }
    }

    fn position(&self, name: &String) -> (r: Option<usize>)
        ensures
            match r {
                Some(i) => i < self.services@.len() && self.services@[i as int]@ == name@,
                None => forall|i: int| 0 <= i < self.services@.len() ==> #[trigger] self.services@[i]@ != name@,
            },
    {
        let mut i: usize = 0;
        while i < self.services.len()
            invariant
                0 <= i <= self.services@.len(),
                forall|k: int| 0 <= k < i ==> #[trigger] self.services@[k]@ != name@,
            decreases self.services@.len() - i,
        {
            if self.services[i] == *name {
                return Some(i);
            }
            i = i + 1;
        }
        None
    }

    /// Applies one browser report. The answer is the VRChat status to publish
    /// (whether any client is visible) after a report about a VRChat client or the end of
    /// the search, and `None` after any other report, which changes nothing.
    pub fn handle(&mut self, event: DiscoveryEvent) -> (status: Option<bool>)
        requires
            old(self).wf(),
        ensures
            final(self).wf(),
            final(self)@ == tracker_step(old(self)@, event),
            status == published_status(event, final(self)@),
            match event {
                DiscoveryEvent::Resolved(name) => if is_vrchat_name(name@) {
                    final(self)@ == old(self)@.insert(name@)
                } else {
                    final(self)@ == old(self)@
                },
                DiscoveryEvent::Removed(name) => if is_vrchat_name(name@) {
                    final(self)@ == old(self)@.remove(name@)
                } else {
                    final(self)@ == old(self)@
                },
                DiscoveryEvent::SearchStopped => final(self)@ == Set::<Seq<char>>::empty(),
                DiscoveryEvent::Other => final(self)@ == old(self)@,
            },
            match event {
                DiscoveryEvent::Resolved(name) => is_vrchat_name(name@),
                DiscoveryEvent::Removed(name) => is_vrchat_name(name@),
                DiscoveryEvent::SearchStopped => true,
                DiscoveryEvent::Other => false,
            } ==> status == Some(final(self)@ != Set::<Seq<char>>::empty()),
            match event {
                DiscoveryEvent::Resolved(name) => !is_vrchat_name(name@),
                DiscoveryEvent::Removed(name) => !is_vrchat_name(name@),
                DiscoveryEvent::SearchStopped => false,
                DiscoveryEvent::Other => true,
            } ==> status is None,
    {
        let ghost before = self@;
        match event {
            DiscoveryEvent::Resolved(name) => {
                if !is_vrchat_service(name.as_str()) {
                    return None;
                }
                match self.position(&name) {
                    Some(i) => {
                        assert(self@ =~= before.insert(name@));
                    },
                    None => {
                        let ghost n = name@;
                        let ghost old_services = self.services@;
                        self.services.push(name);
                        assert(self.services@[old_services.len() as int]@ == n);
                        assert forall|x: Seq<char>| #[trigger] self@.contains(x) <==> before.insert(n).contains(x) by {
                            if before.contains(x) {
                                let i = choose|i: int| 0 <= i < old_services.len() && #[trigger] old_services[i]@ == x;
                                assert(self.services@[i]@ == x);
                            }
                            if self@.contains(x) && x != n {
                                let i = choose|i: int| 0 <= i < self.services@.len() && #[trigger] self.services@[i]@ == x;
                                assert(old_services[i]@ == x);
                            }
                        }
                        assert(self@ =~= before.insert(n));
                    },
                }
                Some(self.any())
            },
            DiscoveryEvent::Removed(name) => {
                if !is_vrchat_service(name.as_str()) {
                    return None;
                }
                match self.position(&name) {
                    Some(i) => {
                        let ghost n = name@;
                        let ghost old_services = self.services@;
                        self.services.remove(i);
                        assert forall|x: Seq<char>| #[trigger] self@.contains(x) <==> before.remove(n).contains(x) by {
                            if before.contains(x) && x != n {
                                let k = choose|k: int| 0 <= k < old_services.len() && #[trigger] old_services[k]@ == x;
                                if k < i {
                                    assert(self.services@[k]@ == x);
                                } else {
                                    assert(k != i);
                                    assert(self.services@[k - 1]@ == x);
                                }
                            }
                            if self@.contains(x) {
                                let k = choose|k: int| 0 <= k < self.services@.len() && #[trigger] self.services@[k]@ == x;
                                if k < i {
                                    assert(old_services[k]@ == x);
                                    assert(k != i as int);
                                } else {
                                    assert(old_services[k + 1]@ == x);
                                }
                            }
                        }
                        assert(self@ =~= before.remove(n));
                    },
                    None => {
                        assert(self@ =~= before.remove(name@));
                    },
                }
                Some(self.any())
            },
            DiscoveryEvent::SearchStopped => {
                self.services.clear();
                assert(self@ =~= Set::<Seq<char>>::empty());
                Some(false)
            },
            DiscoveryEvent::Other => None,
        }
    }
}

/// Publishes `connected` into the shared status `current`; the answer tells whether the
/// status changed, which is when watchers are woken.
pub fn apply_status(current: &mut bool, connected: bool) -> (changed: bool)
    ensures
        *final(current) == connected,
        changed == (*old(current) != connected),
{
    if *current == connected {
        false
    } else {
        *current = connected;
        true
    }
}

} // verus!

verus! {

/// The VRChat clients visible after the browser reports `events`, starting from none.
pub open spec fn clients_after_reports(events: Seq<DiscoveryEvent>) -> Set<Seq<char>>
    decreases events.len(),
{
    if events.len() == 0 {
        Set::empty()
    } else {
        tracker_step(clients_after_reports(events.drop_last()), events.last())
    }
}

/// The VRChat status published after the browser reports `events`, starting from `false`:
/// each report about a VRChat client, and the end of the search, publishes a new status;
/// every other report leaves the status as it was.
pub open spec fn status_after_reports(events: Seq<DiscoveryEvent>) -> bool
    decreases events.len(),
{
    if events.len() == 0 {
        false
    } else {
        match published_status(events.last(), clients_after_reports(events)) {
            Some(status) => status,
            None => status_after_reports(events.drop_last()),
        }
    }
}

/// Whether `event` ends the visibility of the client named `name`: its removal, or the end
/// of the search.
pub open spec fn hides(event: DiscoveryEvent, name: Seq<char>) -> bool {
    match event {
        DiscoveryEvent::Removed(n) => n@ == name,
        DiscoveryEvent::SearchStopped => true,
        _ => false,
    }
}

/// Whether the report at `i` resolved the client named `name`.
pub open spec fn resolves_at(events: Seq<DiscoveryEvent>, i: int, name: Seq<char>) -> bool {
    &&& 0 <= i < events.len()
    &&& events[i] matches DiscoveryEvent::Resolved(n) && n@ == name
}

/// Whether the VRChat client named `name` is visible after `events`: it was resolved, and
/// neither removed nor the search stopped since its last resolution.
pub open spec fn visible_after_reports(events: Seq<DiscoveryEvent>, name: Seq<char>) -> bool {
    &&& is_vrchat_name(name)
    &&& exists|i: int| #[trigger] resolves_at(events, i, name) && forall|j: int|
        i < j < events.len() ==> !hides(#[trigger] events[j], name)
}

proof fn lemma_clients_after_reports(events: Seq<DiscoveryEvent>, name: Seq<char>)
    ensures
        clients_after_reports(events).contains(name) == visible_after_reports(events, name),
    decreases events.len(),
{
    if events.len() == 0 {
        return;
    }
    let prev = events.drop_last();
    let e = events.last();
    let last = events.len() - 1;
    lemma_clients_after_reports(prev, name);
    // Witnesses from the shorter run carry over unless the last report hides the name.
    if visible_after_reports(prev, name) && !hides(e, name) {
        let i = choose|i: int| #[trigger] resolves_at(prev, i, name) && forall|j: int|
            i < j < prev.len() ==> !hides(#[trigger] prev[j], name);
        assert(resolves_at(events, i, name));
        assert forall|j: int| i < j < events.len() implies !hides(#[trigger] events[j], name) by {
            if j < last {
                assert(events[j] == prev[j]);
            }
        }
    }
    // A witness of the full run is either the last report or one of the shorter run.
    if visible_after_reports(events, name) {
        let i = choose|i: int| #[trigger] resolves_at(events, i, name) && forall|j: int|
            i < j < events.len() ==> !hides(#[trigger] events[j], name);
        if i < last {
            assert(resolves_at(prev, i, name));
            assert forall|j: int| i < j < prev.len() implies !hides(#[trigger] prev[j], name) by {
                assert(events[j] == prev[j]);
            }
            assert(!hides(events[last], name));
        }
    }
    match e {
        DiscoveryEvent::Resolved(n) => {
            if n@ == name && is_vrchat_name(name) {
                assert(resolves_at(events, last, name));
            }
            if n@ == name && !is_vrchat_name(name) {
                assert(!visible_after_reports(events, name));
            }
        },
        DiscoveryEvent::Removed(n) => {
            if n@ == name && visible_after_reports(events, name) {
                let i = choose|i: int| #[trigger] resolves_at(events, i, name) && forall|j: int|
                    i < j < events.len() ==> !hides(#[trigger] events[j], name);
                assert(i != last);
                assert(hides(events[last], name));
            }
        },
        DiscoveryEvent::SearchStopped => {
            if visible_after_reports(events, name) {
                let i = choose|i: int| #[trigger] resolves_at(events, i, name) && forall|j: int|
                    i < j < events.len() ==> !hides(#[trigger] events[j], name);
                assert(i != last);
                assert(hides(events[last], name));
            }
        },
        DiscoveryEvent::Other => {},
    }
}

proof fn lemma_status_after_reports(events: Seq<DiscoveryEvent>)
    ensures
        status_after_reports(events) == (clients_after_reports(events) != Set::<Seq<char>>::empty()),
    decreases events.len(),
{
    if events.len() == 0 {
        assert(clients_after_reports(events) == Set::<Seq<char>>::empty());
    } else {
        lemma_status_after_reports(events.drop_last());
    }
}

/// Over any run of browser reports, starting from no client and status `false`: a name is
/// tracked exactly when it is a VRChat client's whose last resolution comes after its last
/// removal and after the last end of the search, and the published VRChat status is `true`
/// exactly when some such client exists. Reports about other services change nothing.
pub proof fn law_vrchat_status_over_reports(events: Seq<DiscoveryEvent>)
    ensures
        forall|name: Seq<char>|
            #[trigger] clients_after_reports(events).contains(name) == visible_after_reports(
                events,
                name,
            ),
        status_after_reports(events) == exists|name: Seq<char>| #[trigger] visible_after_reports(events, name),
{
    assert forall|name: Seq<char>|
        #[trigger] clients_after_reports(events).contains(name) == visible_after_reports(events, name) by {
        lemma_clients_after_reports(events, name);
    }
    lemma_status_after_reports(events);
    if status_after_reports(events) {
        let name = clients_after_reports(events).choose();
        assert(clients_after_reports(events).contains(name)) by {
            if !clients_after_reports(events).contains(name) {
                assert(clients_after_reports(events) =~= Set::<Seq<char>>::empty());
            }
        }
        assert(visible_after_reports(events, name));
    } else {
        assert forall|name: Seq<char>| !visible_after_reports(events, name) by {
            lemma_clients_after_reports(events, name);
        }
    }
}

} // verus!

verus! {

/// A request for the host information is answered with status 200 and a document that
/// names this bridge and the OSC port it was started with, `osc_port`, announcing the
/// document's length in bytes.
pub proof fn law_host_info_reply_names_port(request: Seq<char>, osc_port: u16)
    requires
        requests_host_info(target_query(request_target_of(request))),
    ensures
        ({
            let body = r#"{"NAME":"PatMe-in-VR","OSC_PORT":"#@ + decimal(osc_port as nat)
                + r#","OSC_TRANSPORT":"UDP","EXTENSIONS":{}}"#@;
            oscquery_reply(request, osc_port)
                == "HTTP/1.1 200 OK\r\nContent-Type: application/json\r\nContent-Length: "@
                + decimal(encode_utf8(body).len()) + "\r\nConnection: close\r\n\r\n"@ + body
        }),
{
    reveal_strlit(r#"{"NAME":"PatMe-in-VR","OSC_PORT":"#);
    reveal_strlit(r#"{"NAME":""#);
    reveal_strlit("PatMe-in-VR");
    reveal_strlit(r#"","OSC_PORT":"#);
    reveal_strlit("HTTP/1.1 200 OK\r\nContent-Type: application/json\r\nContent-Length: ");
    reveal_strlit("HTTP/1.1 ");
    reveal_strlit("200 OK");
    reveal_strlit("\r\nContent-Type: application/json\r\nContent-Length: ");
    let head = r#"{"NAME":""#@ + SERVICE_NAME@ + r#"","OSC_PORT":"#@;
    assert(head =~= r#"{"NAME":"PatMe-in-VR","OSC_PORT":"#@);
    let body = r#"{"NAME":"PatMe-in-VR","OSC_PORT":"#@ + decimal(osc_port as nat)
        + r#","OSC_TRANSPORT":"UDP","EXTENSIONS":{}}"#@;
    assert(host_info_body(osc_port) =~= body);
    let start = "HTTP/1.1 "@ + STATUS_OK@ + "\r\nContent-Type: application/json\r\nContent-Length: "@;
    assert(start =~= "HTTP/1.1 200 OK\r\nContent-Type: application/json\r\nContent-Length: "@);
    let length = decimal(encode_utf8(body).len());
    let tail = "\r\nConnection: close\r\n\r\n"@;
    assert(oscquery_reply(request, osc_port) == start + length + tail + body);
    assert("HTTP/1.1 "@ + STATUS_OK@ + "\r\nContent-Type: application/json\r\nContent-Length: "@
        + length + tail + body =~= start + length + tail + body);
}

/// The OSC port only enters the host information: every other request gets the same reply
/// whatever the port.
pub proof fn law_reply_port_only_in_host_info(request: Seq<char>, port_a: u16, port_b: u16)
    requires
        !requests_host_info(target_query(request_target_of(request))),
    ensures
        oscquery_reply(request, port_a) == oscquery_reply(request, port_b),
{
}

} // verus!

verus! {

/// A target without a query names a node: `/` is answered with the root document,
/// `/avatar` and `/avatar/` with the avatar node, and every other path with 404.
pub proof fn law_node_answers(target: Seq<char>, osc_port: u16)
    requires
        forall|i: int| 0 <= i < target.len() ==> target[i] != '?',
    ensures
        target == "/"@ ==> query_answer(target, osc_port) == ("200 OK"@,
            r#"{"FULL_PATH":"/","ACCESS":0,"CONTENTS":{"avatar":{"FULL_PATH":"/avatar","ACCESS":0}}}"#@),
        target == "/avatar"@ || target == "/avatar/"@ ==> query_answer(target, osc_port) == (
            "200 OK"@,
            r#"{"FULL_PATH":"/avatar","ACCESS":0}"#@,
        ),
        target != "/"@ && target != "/avatar"@ && target != "/avatar/"@ ==> query_answer(
            target,
            osc_port,
        ) == ("404 Not Found"@, r#"{"ERROR":"Not found"}"#@),
{
    reveal_strlit("HOST_INFO");
    reveal_strlit("/");
    reveal_strlit("/avatar");
    reveal_strlit("/avatar/");
    lemma_scan_for(target, '?', 0);
    assert(target.take(target.len() as int) =~= target);
    assert(target_query(target) == Seq::<char>::empty());
    let q = Seq::<char>::empty();
    assert(first_index(q, '&') == 0);
    assert(q.take(0) =~= q);
    assert(first_index(q.take(0), '=') == 0);
    assert(!ascii_ci_eq(q.take(0).take(0), HOST_INFO_KEY@));
    assert(!requests_host_info(q));
}

/// Whether no character of `s` is whitespace.
pub open spec fn no_white_space(s: Seq<char>) -> bool {
    forall|i: int| 0 <= i < s.len() ==> !is_white_space(#[trigger] s[i])
}

proof fn lemma_scan_ws_skips(s: Seq<char>, i: int, j: int, want: bool)
    requires
        0 <= i <= j <= s.len(),
        forall|k: int| i <= k < j ==> is_white_space(#[trigger] s[k]) != want,
    ensures
        scan_ws(s, i, want) == scan_ws(s, j, want),
    decreases j - i,
{
    if i < j {
        lemma_scan_ws_skips(s, i + 1, j, want);
    }
}

proof fn lemma_scan_for_skips(s: Seq<char>, c: char, i: int, j: int)
    requires
        0 <= i <= j <= s.len(),
        forall|k: int| i <= k < j ==> #[trigger] s[k] != c,
    ensures
        scan_for(s, c, i) == scan_for(s, c, j),
    decreases j - i,
{
    if i < j {
        lemma_scan_for_skips(s, c, i + 1, j);
    }
}

/// In a request line `method target version` (single spaces, the method and target
/// without whitespace, nothing but the rest of the line before its line feed), the target
/// is the requested one.
pub proof fn law_request_target(method: Seq<char>, target: Seq<char>, version: Seq<char>, rest: Seq<char>)
    requires
        method.len() > 0,
        target.len() > 0,
        no_white_space(method),
        no_white_space(target),
        forall|i: int| 0 <= i < version.len() ==> version[i] != '\n',
    ensures
        request_target_of(method + " "@ + target + " "@ + version + "\n"@ + rest) == target,
{
    reveal_strlit(" ");
    reveal_strlit("\n");
    let line = method + " "@ + target + " "@ + version;
    let r = line + "\n"@ + rest;
    let m = method.len() as int;
    let t = target.len() as int;
    assert forall|k: int| 0 <= k < line.len() implies #[trigger] r[k] != '\n' by {
        assert(r[k] == line[k]);
        if k < m {
            assert(line[k] == method[k]);
        } else if k == m || k == m + 1 + t {
            assert(line[k] == ' ');
        } else if k < m + 1 + t {
            assert(line[k] == target[k - m - 1]);
        } else {
            assert(line[k] == version[k - m - 2 - t]);
        }
    }
    lemma_scan_for_skips(r, '\n', 0, line.len() as int);
    assert(r[line.len() as int] == '\n');
    assert(request_line(r) =~= line);
    // The method is the first word.
    assert(!is_white_space(line[0])) by {
        assert(line[0] == method[0]);
    }
    assert forall|k: int| 0 <= k < m implies is_white_space(#[trigger] line[k]) != true by {
        assert(line[k] == method[k]);
    }
    lemma_scan_ws_skips(line, 0, m, true);
    assert(line[m] == ' ');
    assert(scan_ws(line, 0, false) == 0);
    assert(scan_ws(line, 0, true) == m);
    assert(nth_token(line, 1) == nth_token(line.skip(m), 0));
    // The target is the next word.
    let after = line.skip(m);
    assert(after[0] == ' ');
    assert(!is_white_space(after[1])) by {
        assert(after[1] == target[0]);
    }
    assert(scan_ws(after, 1, false) == 1);
    assert(scan_ws(after, 0, false) == 1);
    assert forall|k: int| 1 <= k < 1 + t implies is_white_space(#[trigger] after[k]) != true by {
        assert(after[k] == target[k - 1]);
    }
    lemma_scan_ws_skips(after, 1, 1 + t, true);
    assert(after[1 + t] == ' ');
    assert(scan_ws(after, 1, true) == 1 + t);
    assert(after.subrange(1, 1 + t) =~= target);
}

} // verus!

verus! {

/// The header has ended exactly when a blank line (CR LF CR LF) has been received: any bytes
/// that hold one have, and bytes without a carriage return have not.
pub proof fn law_header_end(before: Seq<u8>, after: Seq<u8>, plain: Seq<u8>)
    requires
        forall|i: int| 0 <= i < plain.len() ==> plain[i] != 13,
    ensures
        has_header_end(before + seq![13u8, 10u8, 13u8, 10u8] + after),
        !has_header_end(plain),
{
    let s = before + seq![13u8, 10u8, 13u8, 10u8] + after;
    let k = before.len() as int;
    assert(s[k] == 13 && s[k + 1] == 10 && s[k + 2] == 13 && s[k + 3] == 10);
}

} // verus!

verus! {

/// A full name that begins with `VRChat-Client-`, in any ASCII case, is a VRChat client's;
/// a name that begins with anything other than `V` or `v`, or is shorter than that prefix,
/// is not.
pub proof fn law_vrchat_names(rest: Seq<char>, other: Seq<char>)
    ensures
        is_vrchat_name("VRChat-Client-"@ + rest),
        is_vrchat_name("vrchat-client-"@ + rest),
        is_vrchat_name("VRCHAT-CLIENT-"@ + rest),
        other.len() < 14 ==> !is_vrchat_name(other),
        other.len() > 0 && other[0] != 'V' && other[0] != 'v' ==> !is_vrchat_name(other),
{
    reveal_strlit("VRChat-Client-");
    reveal_strlit("vrchat-client-");
    reveal_strlit("VRCHAT-CLIENT-");
    let p = VRCHAT_SERVICE_PREFIX@;
    let a = "VRChat-Client-"@ + rest;
    let b = "vrchat-client-"@ + rest;
    let c = "VRCHAT-CLIENT-"@ + rest;
    assert(a.take(14) =~= p);
    assert forall|i: int| 0 <= i < 14 implies #[trigger] ascii_lower(b.take(14)[i]) == ascii_lower(p[i]) by {
        assert(b.take(14)[i] == "vrchat-client-"@[i]);
    }
    assert forall|i: int| 0 <= i < 14 implies #[trigger] ascii_lower(c.take(14)[i]) == ascii_lower(p[i]) by {
        assert(c.take(14)[i] == "VRCHAT-CLIENT-"@[i]);
    }
    if other.len() > 0 && other[0] != 'V' && other[0] != 'v' && is_vrchat_name(other) {
        assert(ascii_lower(other.take(14)[0]) == ascii_lower(p[0]));
    }
}

} // verus!
