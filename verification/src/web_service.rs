//! The reverse proxy: routes, redirects and what a request is answered.
use crate::config::{SubRule, WebServer, is_reserved, is_reserved_name};
use crate::ip_addr::IpAddr;
use crate::ip_filter::IpFilter;
use crate::port_forward::{listen_addr, socket_spec, socket_text};
use crate::text::{
    ascii_lowercase, chars_of, decimal, find, first_index, lemma_first_index,
    lemma_first_index_unique, lowercase, to_lowercase,
};
use hyper::Uri;
use std::sync::Arc;
use vstd::hash_map::StringHashMap;
use vstd::prelude::*;
use vstd::utf8::is_ascii_chars;

verus! {

/// Where the requests for a host go.
#[derive(Debug)]
pub struct RouteEntry {
    pub backend_address: String,
    pub backend_port: u16,
}

impl Clone for RouteEntry {
    fn clone(&self) -> (r: Self)
        ensures
            r == *self,
    {
        RouteEntry {
            backend_address: self.backend_address.clone(),
            backend_port: self.backend_port,
        }
    }
}

/// The routes of a reverse proxy, by host name in lower case.
pub type RouteTable = Arc<StringHashMap<RouteEntry>>;

/// Whether a rule counts: it is enabled and its name is none that the section uses
/// for itself.
pub open spec fn is_live(rule: (String, SubRule)) -> bool {
    rule.1.enable && !is_reserved(rule.0@)
}

/// Where a rule sends requests.
pub open spec fn backend_of(rule: (String, SubRule)) -> RouteEntry {
    RouteEntry { backend_address: rule.1.backend_address, backend_port: rule.1.backend_port }
}

/// The routes that rules make, where `lower` gives the lower-case form of a host name.
/// Where two rules serve one host, the later one holds.
pub open spec fn routes_of(
    rules: Seq<(String, SubRule)>,
    lower: spec_fn(Seq<char>) -> Seq<char>,
) -> Map<Seq<char>, RouteEntry>
    decreases rules.len(),
{
    if rules.len() == 0 {
        Map::empty()
    } else {
        let before = routes_of(rules.drop_last(), lower);
        if is_live(rules.last()) {
            before.insert(lower(rules.last().1.front_web@), backend_of(rules.last()))
        } else {
            before
        }
    }
}

/// Whether the host names of all rules that count are ASCII.
pub open spec fn hosts_are_ascii(rules: Seq<(String, SubRule)>) -> bool {
    forall|i: int|
        0 <= i < rules.len() && is_live(#[trigger] rules[i]) ==> is_ascii_chars(
            rules[i].1.front_web@,
        )
}

/// Tells whether a name in a reverse proxy section is that of a route, not one that
/// the section uses for itself.
pub fn is_sub_rule_key(key: &str) -> (r: bool)
    ensures
        r == !is_reserved(key@),
{
    !is_reserved_name(key)
}

/// Makes the route table of a reverse proxy.
pub fn build_routes(server: &WebServer) -> (r: RouteTable)
    ensures
        r@ == routes_of(server.sub_rules@, |s: Seq<char>| lowercase(s)),
        hosts_are_ascii(server.sub_rules@) ==> r@ == routes_of(
            server.sub_rules@,
            |s: Seq<char>| ascii_lowercase(s),
        ),
{
    let rules = &server.sub_rules;
    let ghost lower = |s: Seq<char>| lowercase(s);
    let ghost ascii = |s: Seq<char>| ascii_lowercase(s);
    let mut map: StringHashMap<RouteEntry> = StringHashMap::new();
    let mut i: usize = 0;
    proof {
        assert(rules@.take(0) =~= Seq::<(String, SubRule)>::empty());
    }
    while i < rules.len()
        invariant
            i <= rules.len(),
            lower == (|s: Seq<char>| lowercase(s)),
            ascii == (|s: Seq<char>| ascii_lowercase(s)),
            map@ == routes_of(rules@.take(i as int), lower),
            hosts_are_ascii(rules@) ==> map@ == routes_of(rules@.take(i as int), ascii),
        decreases rules.len() - i,
    {
        proof {
            assert(rules@.take(i + 1).drop_last() =~= rules@.take(i as int));
            assert(rules@.take(i + 1).last() == rules@[i as int]);
        }
        if is_sub_rule_key(rules[i].0.as_str()) && rules[i].1.enable {
            assert(is_live(rules@[i as int]));
            map.insert(
                to_lowercase(rules[i].1.front_web.as_str()),
                RouteEntry {
                    backend_address: rules[i].1.backend_address.clone(),
                    backend_port: rules[i].1.backend_port,
                },
            );
        }
        i = i + 1;
    }
    proof {
        assert(rules@.take(i as int) =~= rules@);
    }
    Arc::new(map)
}

/// Whether a `Host` header is a host in brackets, as an IPv6 address is, with a port behind
/// it or nothing.
pub open spec fn is_bracketed(header: Seq<char>) -> bool {
    let close = first_index(header, ']');
    &&& header.len() > 0 && header[0] == '['
    &&& close + 1 == header.len() || (close + 1 < header.len() && header[close + 1] == ':')
}

/// The host name in a `Host` header, without the port: what stands before the first colon,
/// or a bracketed name with its brackets.
pub open spec fn host_part(header: Seq<char>) -> Seq<char> {
    if is_bracketed(header) {
        header.take(first_index(header, ']') + 1)
    } else {
        header.take(first_index(header, ':'))
    }
}

/// The host name in a `Host` header.
pub fn host_name(header: &str) -> (r: &str)
    ensures
        r@ == host_part(header@),
{
    let v = chars_of(header);
    let close = find(&v, ']');
    let bracketed: bool = v.len() > 0 && v[0] == '[' && close < v.len() && (close + 1 == v.len()
        || v[close + 1] == ':');
    let end: usize = if bracketed {
        close + 1
    } else {
        find(&v, ':')
    };
    assert(header@.subrange(0, end as int) =~= header@.take(end as int));
    header.substring_char(0, end)
}

/// The path to ask for: that of the request, or the root.
pub open spec fn path_or_root(path: Option<Seq<char>>) -> Seq<char> {
    match path {
        Some(p) => p,
        None => "/"@,
    }
}

/// The characters of an optional text.
pub open spec fn opt_text(t: Option<&str>) -> Option<Seq<char>> {
    match t {
        Some(s) => Some(s@),
        None => None,
    }
}

/// An answer that the proxy makes itself.
#[derive(Debug)]
pub struct Reply {
    pub status: u16,
    /// The `Location` header.
    pub location: Option<String>,
    pub body: String,
}

/// What a [`Reply`] says.
pub struct ReplyView {
    pub status: int,
    pub location: Option<Seq<char>>,
    pub body: Seq<char>,
}

impl View for Reply {
    type V = ReplyView;

    open spec fn view(&self) -> ReplyView {
        ReplyView {
            status: self.status as int,
            location: match self.location {
                Some(l) => Some(l@),
                None => None,
            },
            body: self.body@,
        }
    }
}

/// The answer with that status and text.
pub open spec fn text_reply(status: int, body: Seq<char>) -> ReplyView {
    ReplyView { status, location: None, body }
}

fn reply(status: u16, body: String) -> (r: Reply)
    ensures
        r@ == text_reply(status as int, body@),
{
    Reply { status, location: None, body }
}

/// The answer to a plain request with that `Host` header and that path and query.
pub open spec fn redirect_spec(host: Option<Seq<char>>, path: Option<Seq<char>>) -> ReplyView {
    ReplyView {
        status: 301,
        location: Some(
            "https://"@ + host_part(
                match host {
                    Some(h) => h,
                    None => "localhost"@,
                },
            ) + path_or_root(path),
        ),
        body: Seq::empty(),
    }
}

/// Answers a plain request with the same address over HTTPS. A request without a
/// readable `Host` header is sent to `localhost`.
pub fn redirect_to_https(host_header: Option<&str>, path_and_query: Option<&str>) -> (r: Reply)
    ensures
        r@ == redirect_spec(opt_text(host_header), opt_text(path_and_query)),
{
    let header: &str = match host_header {
        Some(h) => h,
        None => "localhost",
    };
    let path: &str = match path_and_query {
        Some(p) => p,
        None => "/",
    };
    let mut url = "https://".to_owned();
    url.append(host_name(header));
    url.append(path);
    Reply { status: 301, location: Some(url), body: String::new() }
}

/// The URL of a request on its backend.
pub open spec fn backend_url_spec(route: RouteEntry, path: Option<Seq<char>>) -> Seq<char> {
    "http://"@ + socket_spec(route.backend_address@, route.backend_port)
        + path_or_root(path)
}

/// Writes the URL of a request on its backend.
pub fn backend_url(route: &RouteEntry, path_and_query: Option<&str>) -> (r: String)
    ensures
        r@ == backend_url_spec(*route, opt_text(path_and_query)),
{
    let path: &str = match path_and_query {
        Some(p) => p,
        None => "/",
    };
    let mut url = "http://".to_owned();
    url.append(socket_text(route.backend_address.as_str(), route.backend_port).as_str());
    url.append(path);
    url
}

/// A URI of `hyper`.
#[verifier::external_type_specification]
#[verifier::external_body]
pub struct ExUri(hyper::Uri);

/// The URI that `hyper::Uri` reads out of a text, if it reads one.
pub uninterp spec fn uri_in(text: Seq<char>) -> Option<Uri>;

/// The `FromStr` of `hyper::Uri`: the URI in a text depends on the text alone.
#[verifier::external_body]
pub(crate) fn read_uri(text: &str) -> (r: Option<Uri>)
    ensures
        r == uri_in(text@),
{
    text.parse::<Uri>().ok()
}

/// Where a request goes.
#[derive(Debug)]
pub struct Backend {
    /// What is asked for.
    pub uri: Uri,
    /// The address to connect to.
    pub addr: String,
}

/// How far a request has come.
#[derive(Debug)]
pub enum ProxyState {
    /// The request's body is being read.
    ReadingBody(Backend),
    /// The backend is being connected to.
    Connecting(Backend),
    /// The connection is being set up.
    ShakingHands(Backend),
    /// The request is on its way.
    Sending,
    /// The backend's answer is being read.
    ReadingResponse,
    /// The request is answered.
    Done,
}

/// What came of the last action.
#[derive(Debug)]
pub enum ProxyEvent {
    /// The request's body was read, or not.
    BodyRead(bool),
    /// The backend was connected to, or why not.
    Connected(Result<(), String>),
    /// The connection was set up, or not.
    HandsShaken(bool),
    /// The backend began to answer, or why not.
    Answered(Result<(), String>),
    /// The backend's answer was read, or not.
    ResponseRead(bool),
}

/// What to do next.
#[derive(Debug)]
pub enum ProxyAction {
    /// Read the request's body.
    ReadBody,
    /// Connect to this address.
    Connect(String),
    /// Set up the connection.
    ShakeHands,
    /// Send the request, asking for this URI.
    Send(Uri),
    /// Read the backend's answer.
    ReadResponse,
    /// Hand the backend's answer on.
    Relay,
    /// Answer the request.
    Answer(Reply),
}

/// What a [`ProxyState`] says.
pub enum StateView {
    ReadingBody(Uri, Seq<char>),
    Connecting(Uri, Seq<char>),
    ShakingHands(Uri, Seq<char>),
    Sending,
    ReadingResponse,
    Done,
}

/// What a [`ProxyEvent`] says.
pub enum EventView {
    BodyRead(bool),
    Connected(Option<Seq<char>>),
    HandsShaken(bool),
    Answered(Option<Seq<char>>),
    ResponseRead(bool),
}

/// What a [`ProxyAction`] says.
pub enum ActionView {
    ReadBody,
    Connect(Seq<char>),
    ShakeHands,
    Send(Uri),
    ReadResponse,
    Relay,
    Answer(ReplyView),
}

impl View for ProxyState {
    type V = StateView;

    open spec fn view(&self) -> StateView {
        match self {
            ProxyState::ReadingBody(b) => StateView::ReadingBody(b.uri, b.addr@),
            ProxyState::Connecting(b) => StateView::Connecting(b.uri, b.addr@),
            ProxyState::ShakingHands(b) => StateView::ShakingHands(b.uri, b.addr@),
            ProxyState::Sending => StateView::Sending,
            ProxyState::ReadingResponse => StateView::ReadingResponse,
            ProxyState::Done => StateView::Done,
        }
    }
}

/// Why something failed, if it did.
pub open spec fn failure(r: Result<(), String>) -> Option<Seq<char>> {
    match r {
        Ok(_) => None,
        Err(why) => Some(why@),
    }
}

impl View for ProxyEvent {
    type V = EventView;

    open spec fn view(&self) -> EventView {
        match self {
            ProxyEvent::BodyRead(ok) => EventView::BodyRead(*ok),
            ProxyEvent::Connected(r) => EventView::Connected(failure(*r)),
            ProxyEvent::HandsShaken(ok) => EventView::HandsShaken(*ok),
            ProxyEvent::Answered(r) => EventView::Answered(failure(*r)),
            ProxyEvent::ResponseRead(ok) => EventView::ResponseRead(*ok),
        }
    }
}

impl View for ProxyAction {
    type V = ActionView;

    open spec fn view(&self) -> ActionView {
        match self {
            ProxyAction::ReadBody => ActionView::ReadBody,
            ProxyAction::Connect(addr) => ActionView::Connect(addr@),
            ProxyAction::ShakeHands => ActionView::ShakeHands,
            ProxyAction::Send(uri) => ActionView::Send(*uri),
            ProxyAction::ReadResponse => ActionView::ReadResponse,
            ProxyAction::Relay => ActionView::Relay,
            ProxyAction::Answer(reply) => ActionView::Answer(reply@),
        }
    }
}

/// The end of a request that the proxy answers itself.
pub open spec fn answered(status: int, body: Seq<char>) -> (StateView, ActionView) {
    (StateView::Done, ActionView::Answer(text_reply(status, body)))
}

/// How a request for a route's backend starts, where `uri` is what is asked for, if that
/// is a URI.
pub open spec fn start_backend_spec(route: RouteEntry, uri: Option<Uri>) -> (
    StateView,
    ActionView,
) {
    match uri {
        Some(u) => (
            StateView::ReadingBody(
                u,
                socket_spec(route.backend_address@, route.backend_port),
            ),
            ActionView::ReadBody,
        ),
        None => answered(500, "Bad backend URI"@),
    }
}

/// How a request starts. `host` is its host name in lower case, if it has one, and
/// `read` says which URI a URL is, if it is one.
pub open spec fn proxy_start_spec(
    host: Option<Seq<char>>,
    path: Option<Seq<char>>,
    routes: Map<Seq<char>, RouteEntry>,
    read: spec_fn(Seq<char>) -> Option<Uri>,
) -> (StateView, ActionView) {
    match host {
        None => answered(400, "Missing Host header"@),
        Some(h) => if !routes.contains_key(h) {
            answered(404, "No backend configured for host: "@ + h)
        } else {
            start_backend_spec(routes[h], read(backend_url_spec(routes[h], path)))
        },
    }
}

/// Whether an event is one that comes of the state's own action.
pub open spec fn expects(state: StateView, event: EventView) -> bool {
    match (state, event) {
        (StateView::ReadingBody(_, _), EventView::BodyRead(_)) => true,
        (StateView::Connecting(_, _), EventView::Connected(_)) => true,
        (StateView::ShakingHands(_, _), EventView::HandsShaken(_)) => true,
        (StateView::Sending, EventView::Answered(_)) => true,
        (StateView::ReadingResponse, EventView::ResponseRead(_)) => true,
        _ => false,
    }
}

/// How a request goes on.
pub open spec fn proxy_step_spec(state: StateView, event: EventView) -> (StateView, ActionView) {
    match (state, event) {
        (StateView::ReadingBody(uri, addr), EventView::BodyRead(ok)) => if ok {
            (StateView::Connecting(uri, addr), ActionView::Connect(addr))
        } else {
            answered(502, "Failed to read request body"@)
        },
        (StateView::Connecting(uri, addr), EventView::Connected(failed)) => match failed {
            None => (StateView::ShakingHands(uri, addr), ActionView::ShakeHands),
            Some(why) => answered(502, "Cannot connect to backend: "@ + why),
        },
        (StateView::ShakingHands(uri, addr), EventView::HandsShaken(ok)) => if ok {
            (StateView::Sending, ActionView::Send(uri))
        } else {
            answered(502, "Backend handshake failed"@)
        },
        (StateView::Sending, EventView::Answered(failed)) => match failed {
            None => (StateView::ReadingResponse, ActionView::ReadResponse),
            Some(why) => answered(502, "Backend error: "@ + why),
        },
        (StateView::ReadingResponse, EventView::ResponseRead(ok)) => if ok {
            (StateView::Done, ActionView::Relay)
        } else {
            answered(502, "Failed to read backend response"@)
        },
        _ => (state, ActionView::Relay),
    }
}

fn answer(status: u16, body: String) -> (r: (ProxyState, ProxyAction))
    ensures
        (r.0@, r.1@) == answered(status as int, body@),
{
    (ProxyState::Done, ProxyAction::Answer(reply(status, body)))
}

/// Finds the route for a host name in lower case.
pub fn find_route(routes: &RouteTable, host: &str) -> (r: Option<RouteEntry>)
    ensures
        match r {
            Some(route) => routes@.contains_key(host@) && route == routes@[host@],
            None => !routes@.contains_key(host@),
        },
{
    match routes.get(host) {
        Some(route) => Some(route.clone()),
        None => None,
    }
}

/// Starts a request for a route's backend, where `uri` is what is asked for, if that is a
/// URI.
pub fn start_backend(route: &RouteEntry, uri: Option<Uri>) -> (r: (ProxyState, ProxyAction))
    ensures
        (r.0@, r.1@) == start_backend_spec(*route, uri),
{
    match uri {
        Some(uri) => {
            let addr = socket_text(route.backend_address.as_str(), route.backend_port);
            (ProxyState::ReadingBody(Backend { uri, addr }), ProxyAction::ReadBody)
        },
        None => answer(500, "Bad backend URI".to_owned()),
    }
}

/// Starts a request whose host name, in lower case, is `host`.
pub fn start_request(
    host: Option<String>,
    path_and_query: Option<&str>,
    routes: &RouteTable,
) -> (r: (ProxyState, ProxyAction))
    ensures
        (r.0@, r.1@) == proxy_start_spec(
            match host {
                Some(h) => Some(h@),
                None => None,
            },
            opt_text(path_and_query),
            routes@,
            |url: Seq<char>| uri_in(url),
        ),
{
    match host {
        None => answer(400, "Missing Host header".to_owned()),
        Some(h) => match find_route(routes, h.as_str()) {
            None => {
                let mut body = "No backend configured for host: ".to_owned();
                body.append(h.as_str());
                answer(404, body)
            },
            Some(route) => {
                let url = backend_url(&route, path_and_query);
                start_backend(&route, read_uri(url.as_str()))
            },
        },
    }
}

/// Starts a request with that `Host` header, if it has a readable one. Host names are
/// matched without regard to case.
pub fn handle_request(
    host_header: Option<&str>,
    path_and_query: Option<&str>,
    routes: &RouteTable,
) -> (r: (ProxyState, ProxyAction))
    ensures
        (r.0@, r.1@) == proxy_start_spec(
            match host_header {
                Some(h) => Some(lowercase(host_part(h@))),
                None => None,
            },
            opt_text(path_and_query),
            routes@,
            |url: Seq<char>| uri_in(url),
        ),
        host_header matches Some(h) && is_ascii_chars(host_part(h@)) ==> (
        r.0@,
        r.1@,
        ) == proxy_start_spec(
            Some(ascii_lowercase(host_part(host_header->0@))),
            opt_text(path_and_query),
            routes@,
            |url: Seq<char>| uri_in(url),
        ),
{
    let host: Option<String> = match host_header {
        Some(h) => Some(to_lowercase(host_name(h))),
        None => None,
    };
    start_request(host, path_and_query, routes)
}

/// Goes on with a request after an event.
pub fn proxy_step(state: ProxyState, event: ProxyEvent) -> (r: (ProxyState, ProxyAction))
    requires
        expects(state@, event@),
    ensures
        (r.0@, r.1@) == proxy_step_spec(state@, event@),
{
    match (state, event) {
        (ProxyState::ReadingBody(b), ProxyEvent::BodyRead(ok)) => if ok {
            let addr = b.addr.clone();
            (ProxyState::Connecting(b), ProxyAction::Connect(addr))
        } else {
            answer(502, "Failed to read request body".to_owned())
        },
        (ProxyState::Connecting(b), ProxyEvent::Connected(r)) => match r {
            Ok(_) => (ProxyState::ShakingHands(b), ProxyAction::ShakeHands),
            Err(why) => {
                let mut body = "Cannot connect to backend: ".to_owned();
                body.append(why.as_str());
                answer(502, body)
            },
        },
        (ProxyState::ShakingHands(b), ProxyEvent::HandsShaken(ok)) => if ok {
            (ProxyState::Sending, ProxyAction::Send(b.uri))
        } else {
            answer(502, "Backend handshake failed".to_owned())
        },
        (ProxyState::Sending, ProxyEvent::Answered(r)) => match r {
            Ok(_) => (ProxyState::ReadingResponse, ProxyAction::ReadResponse),
            Err(why) => {
                let mut body = "Backend error: ".to_owned();
                body.append(why.as_str());
                answer(502, body)
            },
        },
        (ProxyState::ReadingResponse, ProxyEvent::ResponseRead(ok)) => if ok {
            (ProxyState::Done, ProxyAction::Relay)
        } else {
            answer(502, "Failed to read backend response".to_owned())
        },
        // No other event comes of the state's own action.
        (state, _) => (state, ProxyAction::Relay),
    }
}

/// A host has a route exactly if some rule that counts serves it, and its route is
/// that of such a rule.
pub proof fn routes_come_from_live_rules(
    rules: Seq<(String, SubRule)>,
    lower: spec_fn(Seq<char>) -> Seq<char>,
    host: Seq<char>,
)
    ensures
        routes_of(rules, lower).contains_key(host) <==> exists|i: int|
            0 <= i < rules.len() && is_live(#[trigger] rules[i]) && lower(rules[i].1.front_web@)
                == host,
        routes_of(rules, lower).contains_key(host) ==> exists|i: int|
            0 <= i < rules.len() && is_live(#[trigger] rules[i]) && lower(rules[i].1.front_web@)
                == host && routes_of(rules, lower)[host] == backend_of(rules[i]),
    decreases rules.len(),
{
    if rules.len() > 0 {
        let init = rules.drop_last();
        let last = rules.len() - 1;
        routes_come_from_live_rules(init, lower, host);
        if is_live(rules[last]) && lower(rules[last].1.front_web@) == host {
            assert(routes_of(rules, lower)[host] == backend_of(rules[last]));
        } else {
            assert(routes_of(rules, lower).contains_key(host) == routes_of(
                init,
                lower,
            ).contains_key(host));
            if routes_of(init, lower).contains_key(host) {
                let i = choose|i: int|
                    0 <= i < init.len() && is_live(#[trigger] init[i]) && lower(
                        init[i].1.front_web@,
                    ) == host && routes_of(init, lower)[host] == backend_of(init[i]);
                assert(rules[i] == init[i]);
            } else {
                assert forall|i: int| 0 <= i < rules.len() && is_live(#[trigger] rules[i]) implies
                lower(rules[i].1.front_web@) != host by {
                    if i < last {
                        assert(init[i] == rules[i]);
                    }
                }
            }
        }
    }
}

/// A host that one counting rule alone serves goes to that rule's backend, wherever
/// the rule stands among the others.
pub proof fn sole_rule_decides(
    rules: Seq<(String, SubRule)>,
    lower: spec_fn(Seq<char>) -> Seq<char>,
    k: int,
)
    requires
        0 <= k < rules.len(),
        is_live(rules[k]),
        forall|i: int|
            0 <= i < rules.len() && i != k && is_live(#[trigger] rules[i]) ==> lower(
                rules[i].1.front_web@,
            ) != lower(rules[k].1.front_web@),
    ensures
        routes_of(rules, lower).contains_key(lower(rules[k].1.front_web@)),
        routes_of(rules, lower)[lower(rules[k].1.front_web@)] == backend_of(rules[k]),
{
    routes_come_from_live_rules(rules, lower, lower(rules[k].1.front_web@));
}

/// A rule that is not enabled makes no route.
pub proof fn disabled_rules_make_no_route(
    rules: Seq<(String, SubRule)>,
    lower: spec_fn(Seq<char>) -> Seq<char>,
    rule: (String, SubRule),
)
    requires
        !rule.1.enable,
    ensures
        routes_of(rules.push(rule), lower) == routes_of(rules, lower),
{
    assert(rules.push(rule).drop_last() =~= rules);
}

/// ASCII host names that differ in case alone are the same host: a request is started
/// alike whatever the case of its host name, and goes to the backend of the one rule that
/// serves the name in whatever case.
pub proof fn ascii_case_does_not_matter(
    rules: Seq<(String, SubRule)>,
    k: int,
    host: Seq<char>,
    path: Option<Seq<char>>,
    read: spec_fn(Seq<char>) -> Option<Uri>,
)
    requires
        0 <= k < rules.len(),
        is_live(rules[k]),
        ascii_lowercase(host) == ascii_lowercase(rules[k].1.front_web@),
        forall|i: int|
            0 <= i < rules.len() && i != k && is_live(#[trigger] rules[i])
                ==> ascii_lowercase(rules[i].1.front_web@)
                != ascii_lowercase(rules[k].1.front_web@),
    ensures
        proxy_start_spec(
            Some(ascii_lowercase(host)),
            path,
            routes_of(rules, |s: Seq<char>| ascii_lowercase(s)),
            read,
        ) == start_backend_spec(
            backend_of(rules[k]),
            read(backend_url_spec(backend_of(rules[k]), path)),
        ),
{
    sole_rule_decides(rules, |s: Seq<char>| ascii_lowercase(s), k);
}

/// The port in a `Host` header does not matter.
pub proof fn host_port_does_not_matter(host: Seq<char>, port: Seq<char>)
    requires
        !host.contains(':'),
        !host.contains(']') ==> !is_bracketed(host + ":"@ + port),
    ensures
        host_part(host) == host,
        host_part(host + ":"@ + port) == host,
{
    reveal_strlit(":");
    let full = host + ":"@ + port;
    assert forall|k: int| 0 <= k < host.len() implies host[k] != ':' by {
        assert(host.contains(host[k]));
    }
    lemma_first_index_unique(host, ':', host.len() as int);
    lemma_first_index_unique(full, ':', host.len() as int);
    assert(host.take(host.len() as int) =~= host);
    assert(full.take(host.len() as int) =~= host);
    lemma_first_index(host, ']');
    let close = first_index(host, ']');
    if close < host.len() {
        assert forall|k: int| 0 <= k < close implies full[k] != ']' by {
            assert(full[k] == host[k]);
        }
        lemma_first_index_unique(full, ']', close);
        if close + 1 < host.len() {
            assert(full[close + 1] == host[close + 1]);
        }
    } else if host.contains(']') {
        let k = choose|k: int| 0 <= k < host.len() && host[k] == ']';
        assert(host[k] != ']');
    }
}

/// The port behind a bracketed host does not matter, whatever stands in the brackets: the
/// host is kept with its brackets.
pub proof fn bracketed_host_is_kept(address: Seq<char>, port: Seq<char>)
    requires
        !address.contains(']'),
    ensures
        host_part("["@ + address + "]"@) == "["@ + address + "]"@,
        host_part("["@ + address + "]:"@ + port) == "["@ + address + "]"@,
{
    reveal_strlit("[");
    reveal_strlit("]");
    reveal_strlit("]:");
    let host = "["@ + address + "]"@;
    let full = "["@ + address + "]:"@ + port;
    let n: int = address.len() as int + 1;
    assert forall|k: int| 0 <= k < n implies host[k] != ']' && full[k] != ']' by {
        if k > 0 {
            assert(host[k] == address[k - 1]);
            assert(full[k] == address[k - 1]);
            assert(address.contains(address[k - 1]));
        }
    }
    assert(host[n] == ']' && full[n] == ']');
    lemma_first_index_unique(host, ']', n);
    lemma_first_index_unique(full, ']', n);
    assert(host.take(n + 1) =~= host);
    assert(full.take(n + 1) =~= host);
}

/// A request that is started for a backend and of which nothing fails is relayed: its
/// body is read, the backend connected to and shaken hands with, the request sent to
/// it and its answer read, in this order.
pub proof fn success_is_relayed(uri: Uri, addr: Seq<char>)
    ensures
        ({
            let s0 = StateView::ReadingBody(uri, addr);
            let (s1, a1) = proxy_step_spec(s0, EventView::BodyRead(true));
            let (s2, a2) = proxy_step_spec(s1, EventView::Connected(None));
            let (s3, a3) = proxy_step_spec(s2, EventView::HandsShaken(true));
            let (s4, a4) = proxy_step_spec(s3, EventView::Answered(None));
            let (s5, a5) = proxy_step_spec(s4, EventView::ResponseRead(true));
            &&& a1 == ActionView::Connect(addr)
            &&& a2 == ActionView::ShakeHands
            &&& a3 == ActionView::Send(uri)
            &&& a4 == ActionView::ReadResponse
            &&& a5 == ActionView::Relay
            &&& s5 == StateView::Done
        }),
{
}

/// A backend failure is answered with status 502, and nothing but a request that was
/// read to its end is relayed.
pub proof fn failures_are_bad_gateway(state: StateView, event: EventView)
    requires
        expects(state, event),
    ensures
        ({
            let (next, action) = proxy_step_spec(state, event);
            &&& (action matches ActionView::Answer(reply) ==> reply.status == 502 && next
                == StateView::Done)
            &&& (action == ActionView::Relay ==> event == EventView::ResponseRead(true) && next
                == StateView::Done)
            &&& (next == StateView::Done ==> action is Answer || action is Relay)
        }),
{
}

/// What came of waiting for a connection.
#[derive(Debug, Clone, Copy, PartialEq, Eq, Structural)]
pub enum Accepted {
    /// A connection from this address.
    Peer(IpAddr),
    Failed,
}

/// What a listener does next; in every case it goes on listening.
#[derive(Debug, Clone, Copy, PartialEq, Eq, Structural)]
pub enum AcceptAction {
    /// Serve the connection.
    Serve,
    /// Drop the connection before anything is read from it.
    Block,
    /// Report the failure.
    Report,
}

/// Connections that the filter lets in are served, others dropped.
pub fn on_accept(filter: &IpFilter, accepted: Accepted) -> (r: AcceptAction)
    ensures
        r == match accepted {
            Accepted::Peer(ip) => if filter.allows(ip) {
                AcceptAction::Serve
            } else {
                AcceptAction::Block
            },
            Accepted::Failed => AcceptAction::Report,
        },
{
    match accepted {
        Accepted::Peer(ip) => if filter.is_allowed(&ip) {
            AcceptAction::Serve
        } else {
            AcceptAction::Block
        },
        Accepted::Failed => AcceptAction::Report,
    }
}

/// What a reverse proxy runs.
#[derive(Debug)]
pub struct ServicePlan {
    /// Where it listens.
    pub listen_addr: String,
    /// Whether it speaks TLS.
    pub tls: bool,
    /// Whether port 80 is redirected to it.
    pub redirect: bool,
}

/// A reverse proxy with TLS on port 443 has port 80 redirected to it, no other does.
pub fn plan(server: &WebServer) -> (r: ServicePlan)
    ensures
        r.listen_addr@ == socket_spec("0.0.0.0"@, server.listen_port),
        r.tls == server.tls_enable,
        r.redirect <==> server.tls_enable && server.listen_port == 443,
{
    ServicePlan {
        listen_addr: listen_addr(server.listen_port),
        tls: server.tls_enable,
        redirect: server.tls_enable && server.listen_port == 443,
    }
}

/// The path that a TLS server lacks.
#[derive(Debug, Clone, Copy, PartialEq, Eq, Structural)]
pub enum MissingPath {
    Certificate,
    Key,
}

impl MissingPath {
    /// Says what the server with that name lacks.
    pub fn message(&self, name: &str) -> (r: String)
        ensures
            r@ == match self {
                MissingPath::Certificate => "crt_path missing for TLS server ["@,
                MissingPath::Key => "key_path missing for TLS server ["@,
            } + name@ + "]"@,
    {
        let mut s = match self {
            MissingPath::Certificate => "crt_path missing for TLS server [".to_owned(),
            MissingPath::Key => "key_path missing for TLS server [".to_owned(),
        };
        s.append(name);
        s.append("]");
        s
    }
}

/// The paths of a TLS server's certificate and key.
pub fn tls_paths(server: &WebServer) -> (r: Result<(String, String), MissingPath>)
    ensures
        r == match (server.crt_path, server.key_path) {
            (None, _) => Err(MissingPath::Certificate),
            (Some(_), None) => Err(MissingPath::Key),
            (Some(crt), Some(key)) => Ok((crt, key)),
        },
{
    match (&server.crt_path, &server.key_path) {
        (None, _) => Err(MissingPath::Certificate),
        (Some(_), None) => Err(MissingPath::Key),
        (Some(crt), Some(key)) => Ok((crt.clone(), key.clone())),
    }
}

/// Watches a certificate file. A time of change is in nanoseconds since the Unix
/// epoch; `None` stands for one that could not be read.
#[derive(Debug, Clone, Copy, PartialEq, Eq, Structural)]
pub struct CertWatch {
    /// The time of change of what is in use.
    pub last_mtime: Option<i128>,
}

/// Seconds between two looks at a certificate file.
pub const WATCH_INTERVAL_SECS: u64 = 60;

impl CertWatch {
    /// Whether a file with that time of change is another than what is in use.
    pub open spec fn is_stale(self, mtime: Option<i128>) -> bool {
        mtime != self.last_mtime
    }

    /// The watch after a file with that time of change was loaded, or could not be.
    pub open spec fn after_load(self, mtime: Option<i128>, ok: bool) -> CertWatch {
        if ok {
            CertWatch { last_mtime: mtime }
        } else {
            self
        }
    }

    /// Starts watching a file that is in use.
    pub fn new(mtime: Option<i128>) -> (r: CertWatch)
        ensures
            r.last_mtime == mtime,
    {
        CertWatch { last_mtime: mtime }
    }

    /// Tells whether the file is to be loaded again.
    pub fn needs_reload(&self, mtime: Option<i128>) -> (r: bool)
        ensures
            r == self.is_stale(mtime),
    {
        match (mtime, self.last_mtime) {
            (Some(a), Some(b)) => a != b,
            (None, None) => false,
            _ => true,
        }
    }

    /// Takes note of what came of loading the file: only what was loaded is in use.
    pub fn reloaded(&mut self, mtime: Option<i128>, ok: bool)
        ensures
            *final(self) == old(self).after_load(mtime, ok),
    {
        if ok {
            self.last_mtime = mtime;
        }
    }
}

/// A file that could not be loaded is tried again at the next look, and one that was
/// loaded is left alone until it changes.
pub proof fn failed_loads_are_retried(watch: CertWatch, mtime: Option<i128>, later: Option<i128>)
    requires
        watch.is_stale(mtime),
    ensures
        watch.after_load(mtime, false).is_stale(mtime),
        watch.after_load(mtime, true).is_stale(later) <==> later != mtime,
{
}

/// A request asks its backend for the whole of its path and query, and for the root where it
/// has none.
pub proof fn backend_is_asked_for_the_whole_path(route: RouteEntry, p: Seq<char>)
    ensures
        backend_url_spec(route, Some(p)) == "http://"@ + route.backend_address@ + ":"@ + decimal(
            route.backend_port as nat,
        ) + p,
        backend_url_spec(route, None) == "http://"@ + route.backend_address@ + ":"@ + decimal(
            route.backend_port as nat,
        ) + "/"@,
        path_or_root(Some(p)) == p,
        path_or_root(None) == "/"@,
{
    assert(backend_url_spec(route, Some(p)) =~= "http://"@ + route.backend_address@ + ":"@
        + decimal(route.backend_port as nat) + p);
    assert(backend_url_spec(route, None) =~= "http://"@ + route.backend_address@ + ":"@ + decimal(
        route.backend_port as nat,
    ) + "/"@);
}

/// Two requests that ask their backends for the same are for the same path: no part of a path
/// is lost.
pub proof fn paths_are_told_apart(route: RouteEntry, p: Seq<char>, q: Seq<char>)
    ensures
        backend_url_spec(route, Some(p)) == backend_url_spec(route, Some(q)) ==> p == q,
{
    backend_is_asked_for_the_whole_path(route, p);
    backend_is_asked_for_the_whole_path(route, q);
    let head = "http://"@ + route.backend_address@ + ":"@ + decimal(route.backend_port as nat);
    if head + p == head + q {
        assert((head + p).skip(head.len() as int) =~= p);
        assert((head + q).skip(head.len() as int) =~= q);
    }
}

/// A rule counts exactly if it is enabled and its name is none of the five that a section
/// uses for itself, and it sends requests to its own address and port.
pub proof fn rules_count_when_enabled(rule: (String, SubRule))
    ensures
        is_live(rule) <==> rule.1.enable && rule.0@ != "enable"@ && rule.0@ != "listen_port"@
            && rule.0@ != "tls_enable"@ && rule.0@ != "crt_path"@ && rule.0@ != "key_path"@,
        backend_of(rule).backend_address == rule.1.backend_address,
        backend_of(rule).backend_port == rule.1.backend_port,
{
}

/// Of several counting rules for a host the last holds.
pub proof fn last_rule_for_a_host_holds(
    rules: Seq<(String, SubRule)>,
    lower: spec_fn(Seq<char>) -> Seq<char>,
    k: int,
)
    requires
        0 <= k < rules.len(),
        is_live(rules[k]),
        forall|j: int|
            k < j < rules.len() && is_live(#[trigger] rules[j]) ==> lower(rules[j].1.front_web@)
                != lower(rules[k].1.front_web@),
    ensures
        routes_of(rules, lower).contains_key(lower(rules[k].1.front_web@)),
        routes_of(rules, lower)[lower(rules[k].1.front_web@)] == backend_of(rules[k]),
    decreases rules.len(),
{
    if k < rules.len() - 1 {
        let init = rules.drop_last();
        assert forall|j: int| k < j < init.len() && is_live(#[trigger] init[j]) implies lower(
            init[j].1.front_web@,
        ) != lower(init[k].1.front_web@) by {
            assert(init[j] == rules[j]);
        }
        last_rule_for_a_host_holds(init, lower, k);
        assert(rules.last() == rules[rules.len() - 1]);
    }
}

/// What a request is answered that goes to no backend, and where the others start.
pub proof fn requests_start_by_their_host(
    host: Seq<char>,
    path: Option<Seq<char>>,
    routes: Map<Seq<char>, RouteEntry>,
    read: spec_fn(Seq<char>) -> Option<Uri>,
)
    ensures
        proxy_start_spec(None, path, routes, read).1 == ActionView::Answer(
            ReplyView { status: 400, location: None, body: "Missing Host header"@ },
        ),
        !routes.contains_key(host) ==> proxy_start_spec(Some(host), path, routes, read).1
            == ActionView::Answer(
            ReplyView {
                status: 404,
                location: None,
                body: "No backend configured for host: "@ + host,
            },
        ),
        routes.contains_key(host) ==> match read(backend_url_spec(routes[host], path)) {
            None => proxy_start_spec(Some(host), path, routes, read).1 == ActionView::Answer(
                ReplyView { status: 500, location: None, body: "Bad backend URI"@ },
            ),
            Some(uri) => proxy_start_spec(Some(host), path, routes, read) == (
                StateView::ReadingBody(
                    uri,
                    routes[host].backend_address@ + ":"@ + decimal(
                        routes[host].backend_port as nat,
                    ),
                ),
                ActionView::ReadBody,
            ),
        },
{
}

/// What a request is answered when something fails on the way to its backend and back.
pub proof fn failures_say_what_failed(uri: Uri, addr: Seq<char>, why: Seq<char>)
    ensures
        proxy_step_spec(StateView::ReadingBody(uri, addr), EventView::BodyRead(false)).1
            == ActionView::Answer(
            ReplyView { status: 502, location: None, body: "Failed to read request body"@ },
        ),
        proxy_step_spec(StateView::Connecting(uri, addr), EventView::Connected(Some(why))).1
            == ActionView::Answer(
            ReplyView { status: 502, location: None, body: "Cannot connect to backend: "@ + why },
        ),
        proxy_step_spec(StateView::ShakingHands(uri, addr), EventView::HandsShaken(false)).1
            == ActionView::Answer(
            ReplyView { status: 502, location: None, body: "Backend handshake failed"@ },
        ),
        proxy_step_spec(StateView::Sending, EventView::Answered(Some(why))).1 == ActionView::Answer(
            ReplyView { status: 502, location: None, body: "Backend error: "@ + why },
        ),
        proxy_step_spec(StateView::ReadingResponse, EventView::ResponseRead(false)).1
            == ActionView::Answer(
            ReplyView { status: 502, location: None, body: "Failed to read backend response"@ },
        ),
{
}

/// What is said of states, events, actions and replies is all that is in them.
pub proof fn views_keep_everything(backend: Backend, why: String, reply: Reply, uri: Uri, ok: bool)
    ensures
        ProxyState::ReadingBody(backend)@ == StateView::ReadingBody(backend.uri, backend.addr@),
        ProxyState::Connecting(backend)@ == StateView::Connecting(backend.uri, backend.addr@),
        ProxyState::ShakingHands(backend)@ == StateView::ShakingHands(backend.uri, backend.addr@),
        ProxyEvent::BodyRead(ok)@ == EventView::BodyRead(ok),
        ProxyEvent::HandsShaken(ok)@ == EventView::HandsShaken(ok),
        ProxyEvent::ResponseRead(ok)@ == EventView::ResponseRead(ok),
        ProxyEvent::Connected(Ok(()))@ == EventView::Connected(None),
        ProxyEvent::Connected(Err(why))@ == EventView::Connected(Some(why@)),
        ProxyEvent::Answered(Ok(()))@ == EventView::Answered(None),
        ProxyEvent::Answered(Err(why))@ == EventView::Answered(Some(why@)),
        ProxyAction::Connect(why)@ == ActionView::Connect(why@),
        ProxyAction::Send(uri)@ == ActionView::Send(uri),
        ProxyAction::Answer(reply)@ == ActionView::Answer(reply@),
        reply@.status == reply.status,
        reply@.body == reply.body@,
        reply@.location is Some <==> reply.location is Some,
        reply.location matches Some(l) ==> reply@.location == Some(l@),
{
}

/// A watched file is loaded again exactly if its time of change is not that of what is in
/// use, and only what was loaded comes into use.
pub proof fn changed_files_are_loaded(watch: CertWatch, mtime: Option<i128>)
    ensures
        watch.is_stale(mtime) <==> watch.last_mtime != mtime,
        watch.after_load(mtime, true).last_mtime == mtime,
        watch.after_load(mtime, false) == watch,
{
}

/// A header is bracketed exactly if it is `[`, a text without `]`, `]`, and then nothing or a
/// colon and whatever.
pub proof fn bracketed_headers_hold_a_host(header: Seq<char>, address: Seq<char>, rest: Seq<char>)
    ensures
        !address.contains(']') && (rest.len() == 0 || rest[0] == ':') ==> is_bracketed(
            "["@ + address + "]"@ + rest,
        ),
        is_bracketed(header) ==> exists|a: Seq<char>, r: Seq<char>|
            !a.contains(']') && (r.len() == 0 || r[0] == ':') && header == #[trigger] ("["@ + a
                + "]"@ + r),
{
    reveal_strlit("[");
    reveal_strlit("]");
    let full = "["@ + address + "]"@ + rest;
    if !address.contains(']') {
        let n = address.len() as int + 1;
        assert forall|k: int| 0 <= k < n implies full[k] != ']' by {
            if k > 0 {
                assert(full[k] == address[k - 1]);
                assert(address.contains(address[k - 1]));
            }
        }
        assert(full[n] == ']');
        lemma_first_index_unique(full, ']', n);
        if rest.len() > 0 {
            assert(full[n + 1] == rest[0]);
        }
    }
    if is_bracketed(header) {
        lemma_first_index(header, ']');
        let close = first_index(header, ']');
        let a = header.subrange(1, close);
        let r = header.skip(close + 1);
        if a.contains(']') {
            let k = choose|k: int| 0 <= k < a.len() && a[k] == ']';
            assert(header[k + 1] == ']');
        }
        if r.len() > 0 {
            assert(r[0] == header[close + 1]);
        }
        assert(header =~= "["@ + a + "]"@ + r);
    }
}

/// A redirect goes to the host without its port, over HTTPS, for the whole path and query of
/// the request; without a host it goes to `localhost`, without a path to the root.
pub proof fn redirects_keep_host_and_path(
    host: Seq<char>,
    port: Seq<char>,
    path: Seq<char>,
    s: &str,
)
    requires
        !host.contains(':'),
        host.len() == 0 || host[0] != '[',
    ensures
        redirect_spec(Some(host), Some(path)) == (ReplyView {
            status: 301,
            location: Some("https://"@ + host + path),
            body: Seq::empty(),
        }),
        redirect_spec(Some(host + ":"@ + port), Some(path)) == redirect_spec(
            Some(host),
            Some(path),
        ),
        redirect_spec(None, Some(path)).location == Some("https://"@ + "localhost"@ + path),
        redirect_spec(Some(host), None).location == Some("https://"@ + host + "/"@),
        opt_text(Some(s)) == Some(s@),
        opt_text(None) is None,
{
    reveal_strlit(":");
    reveal_strlit("localhost");
    assert((host + ":"@ + port)[0] != '[');
    host_port_does_not_matter(host, port);
    assert forall|k: int| 0 <= k < "localhost"@.len() implies "localhost"@[k] != ':' by {}
    host_port_does_not_matter("localhost"@, port);
}

/// A redirect keeps a bracketed host with its brackets.
pub proof fn redirects_keep_bracketed_hosts(address: Seq<char>, port: Seq<char>, path: Seq<char>)
    requires
        !address.contains(']'),
    ensures
        redirect_spec(Some("["@ + address + "]:"@ + port), Some(path)).location == Some(
            "https://"@ + ("["@ + address + "]"@) + path,
        ),
{
    bracketed_host_is_kept(address, port);
}

/// Every state goes on with whatever comes of its own action.
pub proof fn every_outcome_is_expected(
    uri: Uri,
    addr: Seq<char>,
    ok: bool,
    failed: Option<Seq<char>>,
)
    ensures
        expects(StateView::ReadingBody(uri, addr), EventView::BodyRead(ok)),
        expects(StateView::Connecting(uri, addr), EventView::Connected(failed)),
        expects(StateView::ShakingHands(uri, addr), EventView::HandsShaken(ok)),
        expects(StateView::Sending, EventView::Answered(failed)),
        expects(StateView::ReadingResponse, EventView::ResponseRead(ok)),
{
}

/// Rules whose host names are all ASCII count as that.
pub proof fn ascii_hosts_are_ascii(rules: Seq<(String, SubRule)>)
    requires
        forall|i: int| 0 <= i < rules.len() ==> is_ascii_chars((#[trigger] rules[i]).1.front_web@),
    ensures
        hosts_are_ascii(rules),
{
}

} // verus!
