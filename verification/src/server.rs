//! Per-connection decisions: which profile a host gets, where a request is
//! headed and what is sent to whom.

use crate::config::{Config, Profile, ProfileView, Switch};
use crate::error::ProxyError;
use crate::protocols::http::{
    authority, connect_request_text, connect_target, forward_head_text, forward_http_request,
    handle_connect, header_value, is_connect, origin_head_text, plain_head_text, plain_request,
    send_http_request, ClientReply, ConnectTunnel, HttpRequest, HttpRequestView, TunnelState,
};
use crate::protocols::socks::{
    connect_request_bytes, Socks5Client, Socks5Request, Socks5State,
};
use crate::text::{
    bounded_decimal, chars_of, find_char, index_of, lowercase_of, parse_bounded, starts_with,
    str_eq, string_of, string_of_range, to_lowercase,
};
use crate::utils::{
    compiles, match_outcome, pattern_takes, regex_is_match, wildcard_regex, Pattern,
};
use vstd::prelude::*;
use vstd::slice::slice_subrange;
use vstd::utf8::encode_utf8;

verus! {

/// The profile name for `host`, looking at the rules from `from` on: the
/// profile of the first rule whose pattern takes the host, else the default.
pub open spec fn selected_profile(switch: Switch, from: int, host: Seq<char>) -> Seq<char>
    decreases switch.rules@.len() - from,
{
    if from < 0 || from >= switch.rules@.len() {
        switch.default@
    } else if pattern_takes(switch.rules@[from].pattern@, host) {
        switch.rules@[from].profile@
    } else {
        selected_profile(switch, from + 1, host)
    }
}

/// Whether a matcher is there and takes `host`.
pub open spec fn takes(matcher: Option<Pattern>, host: Seq<char>) -> bool {
    matcher matches Some(p) && regex_is_match(p.expression(), host)
}

/// The profile name for `host` when `matchers[i]` stands for the pattern of
/// rule `i`, looking at the rules from `from` on: the profile of the first
/// rule whose matcher is there and takes the host, else the default.
pub open spec fn selected_among(
    switch: Switch,
    matchers: Seq<Option<Pattern>>,
    from: int,
    host: Seq<char>,
) -> Seq<char>
    decreases switch.rules@.len() - from,
{
    if from < 0 || from >= switch.rules@.len() || from >= matchers.len() {
        switch.default@
    } else if takes(matchers[from], host) {
        switch.rules@[from].profile@
    } else {
        selected_among(switch, matchers, from + 1, host)
    }
}

/// Every matcher that is there was compiled with the engine's own options.
pub open spec fn all_plain(matchers: Seq<Option<Pattern>>) -> bool {
    forall|i: int|
        0 <= i < matchers.len() ==> (#[trigger] matchers[i] matches Some(p) ==> p.plain())
}

/// The matchers are those of the rules: one for each rule, there exactly
/// where the engine accepts the expression of the rule's pattern, and then
/// compiled from that expression.
pub open spec fn matchers_of(switch: Switch, matchers: Seq<Option<Pattern>>) -> bool {
    &&& matchers.len() == switch.rules@.len()
    &&& all_plain(matchers)
    &&& forall|i: int|
        0 <= i < matchers.len() ==> (#[trigger] matchers[i]).is_some() == compiles(
            switch.rules@[i].pattern@,
        )
    &&& forall|i: int|
        0 <= i < matchers.len() ==> (#[trigger] matchers[i] matches Some(p) ==> p.expression()
            == wildcard_regex(switch.rules@[i].pattern@))
}

/// Picks the profile name for `host` among rules whose patterns have been
/// compiled already: first match wins, else the default.
pub fn select_among(switch: &Switch, matchers: &Vec<Option<Pattern>>, host: &str) -> (name: String)
    requires
        matchers@.len() == switch.rules@.len(),
        all_plain(matchers@),
    ensures
        name@ == selected_among(*switch, matchers@, 0, host@),
{
    let mut i: usize = 0;
    while i < switch.rules.len()
        invariant
            i <= switch.rules.len(),
            matchers@.len() == switch.rules@.len(),
            all_plain(matchers@),
            selected_among(*switch, matchers@, 0, host@) == selected_among(
                *switch,
                matchers@,
                i as int,
                host@,
            ),
        decreases switch.rules.len() - i,
    {
        if match_outcome(&matchers[i], host) {
            return switch.rules[i].profile.clone();
        }
        i += 1;
    }
    switch.default.clone()
}

/// Compiles the pattern of every rule, in order.
pub fn compile_rules(switch: &Switch) -> (matchers: Vec<Option<Pattern>>)
    ensures
        matchers_of(*switch, matchers@),
{
    let mut matchers: Vec<Option<Pattern>> = Vec::new();
    let mut i: usize = 0;
    while i < switch.rules.len()
        invariant
            i <= switch.rules.len(),
            matchers@.len() == i,
            all_plain(matchers@),
            forall|k: int|
                0 <= k < i ==> (#[trigger] matchers@[k]).is_some() == compiles(
                    switch.rules@[k].pattern@,
                ),
            forall|k: int|
                0 <= k < i ==> (#[trigger] matchers@[k] matches Some(p) ==> p.expression()
                    == wildcard_regex(switch.rules@[k].pattern@)),
        decreases switch.rules.len() - i,
    {
        matchers.push(Pattern::compile(switch.rules[i].pattern.as_str()));
        i += 1;
    }
    matchers
}

/// With the matchers of the rules, selecting among them is selecting by
/// the rules themselves.
pub proof fn lemma_selected_among_matchers(
    switch: Switch,
    matchers: Seq<Option<Pattern>>,
    from: int,
    host: Seq<char>,
)
    requires
        matchers_of(switch, matchers),
        0 <= from,
    ensures
        selected_among(switch, matchers, from, host) == selected_profile(switch, from, host),
    decreases switch.rules@.len() - from,
{
    if from < switch.rules@.len() {
        lemma_selected_among_matchers(switch, matchers, from + 1, host);
    }
}

/// Whatever the rules and the host, the selected name is the default or the
/// profile name of a rule whose pattern takes the host.
pub proof fn lemma_selected_is_rule_or_default(switch: Switch, host: Seq<char>)
    ensures
        selected_profile(switch, 0, host) == switch.default@ || exists|i: int|
            0 <= i < switch.rules@.len() && pattern_takes(
                (#[trigger] switch.rules@[i]).pattern@,
                host,
            ) && selected_profile(switch, 0, host) == switch.rules@[i].profile@,
{
    lemma_selected_from(switch, 0, host);
}

proof fn lemma_selected_from(switch: Switch, from: int, host: Seq<char>)
    requires
        0 <= from,
    ensures
        selected_profile(switch, from, host) == switch.default@ || exists|i: int|
            from <= i < switch.rules@.len() && pattern_takes(
                (#[trigger] switch.rules@[i]).pattern@,
                host,
            ) && selected_profile(switch, from, host) == switch.rules@[i].profile@,
    decreases switch.rules@.len() - from,
{
    if from < switch.rules@.len() && !pattern_takes(switch.rules@[from].pattern@, host) {
        lemma_selected_from(switch, from + 1, host);
    }
}

/// The first rule whose pattern takes the host decides, whatever comes
/// after it: not the last such rule, and not the most specific.
pub proof fn lemma_first_taking_rule_wins(switch: Switch, host: Seq<char>, from: int, i: int)
    requires
        0 <= from <= i < switch.rules@.len(),
        pattern_takes(switch.rules@[i].pattern@, host),
        forall|j: int| from <= j < i ==> !pattern_takes(switch.rules@[j].pattern@, host),
    ensures
        selected_profile(switch, from, host) == switch.rules@[i].profile@,
    decreases i - from,
{
    if from < i {
        lemma_first_taking_rule_wins(switch, host, from + 1, i);
    }
}

/// Where no rule takes the host, the default is selected.
pub proof fn lemma_default_when_none_takes(switch: Switch, host: Seq<char>, from: int)
    requires
        0 <= from,
        forall|j: int| from <= j < switch.rules@.len() ==> !pattern_takes(
            switch.rules@[j].pattern@,
            host,
        ),
    ensures
        selected_profile(switch, from, host) == switch.default@,
    decreases switch.rules@.len() - from,
{
    if from < switch.rules@.len() {
        lemma_default_when_none_takes(switch, host, from + 1);
    }
}

/// Picks the profile name for `target_host`: that of the first rule whose
/// pattern takes it, else the default. Each pattern is compiled for this one
/// lookup; a pattern that the engine refuses to compile takes no host.
pub fn select_profile(config: &Config, target_host: &str) -> (selected: String)
    ensures
        selected@ == selected_profile(config.switch, 0, target_host@),
{
    let matchers = compile_rules(&config.switch);
    proof {
        lemma_selected_among_matchers(config.switch, matchers@, 0, target_host@);
    }
    select_among(&config.switch, &matchers, target_host)
}

/// A policy whose patterns are compiled once, when it is made.
pub struct Policy {
    config: Config,
    matchers: Vec<Option<Pattern>>,
}

impl Policy {
    #[verifier::type_invariant]
    spec fn well_formed(self) -> bool {
        matchers_of(self.config.switch, self.matchers@)
    }

    /// The policy as it was loaded.
    pub closed spec fn source(&self) -> Config {
        self.config
    }

    /// Whether the policy holds a matcher for rule `i`.
    pub closed spec fn compiled(&self, i: int) -> bool {
        0 <= i < self.matchers@.len() && self.matchers@[i].is_some()
    }

    /// The profile name for `host`: the first rule whose pattern takes it
    /// wins, else the default.
    pub open spec fn selected(&self, host: Seq<char>) -> Seq<char> {
        selected_profile(self.source().switch, 0, host)
    }

    /// The profile that connections to `host` use, if its name is defined.
    /// The host is lowercased before the rules see it.
    pub open spec fn resolved(&self, host: Seq<char>) -> Option<ProfileView> {
        self.source().profile_named(self.selected(lowercase_of(host)))
    }

    /// Takes a policy into use, compiling the pattern of every rule: the
    /// policy holds a matcher for exactly those rules whose expression the
    /// engine accepts.
    pub fn new(config: Config) -> (policy: Policy)
        ensures
            policy.source() == config,
            forall|i: int|
                0 <= i < config.switch.rules@.len() ==> #[trigger] policy.compiled(i) == compiles(
                    config.switch.rules@[i].pattern@,
                ),
    {
        let matchers = compile_rules(&config.switch);
        Policy { config, matchers }
    }

    /// The policy as it was loaded.
    pub fn config(&self) -> (config: &Config)
        ensures
            *config == self.source(),
    {
        &self.config
    }

    /// The profile name for `host`.
    pub fn select(&self, host: &str) -> (name: String)
        ensures
            name@ == self.selected(host@),
    {
        proof {
            use_type_invariant(self);
            lemma_selected_among_matchers(self.config.switch, self.matchers@, 0, host@);
        }
        select_among(&self.config.switch, &self.matchers, host)
    }

    /// The profile for connections to `host`, or `PolicyMiss` when the
    /// selected name is not defined. The result owns its data, so nothing of
    /// the policy stays borrowed once this returns.
    pub fn resolve(&self, host: &str) -> (r: Result<Profile, ProxyError>)
        ensures
            match self.resolved(host@) {
                Some(p) => r matches Ok(q) && q@ == p,
                None => r == Err::<Profile, ProxyError>(ProxyError::PolicyMiss),
            },
    {
        let lower = to_lowercase(host);
        let name = self.select(lower.as_str());
        match self.config.profile(name.as_str()) {
            Some(p) => Ok(p.clone()),
            None => Err(ProxyError::PolicyMiss),
        }
    }
}

/// The authority that a request other than CONNECT names: its `host` header,
/// or, without one, what stands between `http://` and the next `/` of an
/// absolute target.
pub open spec fn request_authority(request: HttpRequestView) -> Option<Seq<char>> {
    match header_value(request.headers, "host"@) {
        Some(value) => Some(value),
        None => if "http://"@.is_prefix_of(request.target) {
            let rest = request.target.skip("http://"@.len() as int);
            Some(rest.take(find_char(rest, '/')))
        } else {
            None
        },
    }
}

/// The port of a request that names none: 443 for an `https://` target,
/// else 80.
pub open spec fn default_port(target: Seq<char>) -> u16 {
    if "https://"@.is_prefix_of(target) {
        443
    } else {
        80
    }
}

/// Host and port of an authority. The host is what stands before the first
/// colon. The port is what stands between the first colon and the next, and
/// 80 where that is no port number; without a colon it is the default for
/// the target.
pub open spec fn host_and_port(authority: Seq<char>, target: Seq<char>) -> (Seq<char>, u16) {
    let colon = find_char(authority, ':');
    if colon < authority.len() {
        let after = authority.skip(colon + 1);
        let port = match bounded_decimal(after.take(find_char(after, ':')), 65535) {
            Some(p) => p as u16,
            None => 80,
        };
        (authority.take(colon), port)
    } else {
        (authority, default_port(target))
    }
}

/// Where a request is headed, if it says so.
pub open spec fn request_target(request: HttpRequestView) -> Option<(Seq<char>, u16)> {
    if is_connect(request.method) {
        connect_target(request.target)
    } else {
        match request_authority(request) {
            Some(authority) => Some(host_and_port(authority, request.target)),
            None => None,
        }
    }
}

/// Finds the host and port that a request is headed for. A request that
/// names no target fails with `BadRequest`.
pub fn extract_host_and_port(request: &HttpRequest) -> (r: Result<(String, u16), ProxyError>)
    ensures
        match r {
            Ok((host, port)) => request_target(request@) == Some((host@, port)),
            Err(e) => request_target(request@).is_none() && e == ProxyError::BadRequest,
        },
{
    if str_eq(request.method.as_str(), "CONNECT") {
        return match handle_connect(request) {
            Ok(target) => Ok(target),
            Err(_) => Err(ProxyError::BadRequest),
        };
    }
    let target = chars_of(request.target.as_str());
    let authority: Vec<char> = match request.header("host") {
        Some(value) => chars_of(value.as_str()),
        None => {
            let scheme = chars_of("http://");
            if !starts_with(target.as_slice(), scheme.as_slice()) {
                return Err(ProxyError::BadRequest);
            }
            let rest = slice_subrange(target.as_slice(), scheme.len(), target.len());
            assert(rest@ == target@.skip(scheme.len() as int));
            let slash = index_of(rest, '/');
            let mut found: Vec<char> = Vec::new();
            crate::text::push_chars(&mut found, slice_subrange(rest, 0, slash));
            assert(rest@.subrange(0, slash as int) == rest@.take(slash as int));
            found
        },
    };
    assert(request_authority(request@) == Some(authority@));
    let colon = index_of(authority.as_slice(), ':');
    if colon < authority.len() {
        let after = slice_subrange(authority.as_slice(), colon + 1, authority.len());
        assert(after@ == authority@.skip(colon + 1));
        let next = index_of(after, ':');
        assert(after@.subrange(0, next as int) == after@.take(next as int));
        let port: u16 = match parse_bounded(slice_subrange(after, 0, next), 65535) {
            Some(p) => p as u16,
            None => 80,
        };
        assert(authority@.subrange(0, colon as int) == authority@.take(colon as int));
        Ok((string_of_range(authority.as_slice(), 0, colon), port))
    } else {
        let secure = chars_of("https://");
        let port: u16 = if starts_with(target.as_slice(), secure.as_slice()) {
            443
        } else {
            80
        };
        Ok((string_of(authority.as_slice()), port))
    }
}

/// The handshake that opens the way to the target.
pub enum Handshake {
    /// The connection that was dialled is the way.
    NotNeeded,
    /// CONNECT at an HTTP proxy.
    HttpConnect(ConnectTunnel),
    /// SOCKS5.
    Socks5(Socks5Client),
}

#[allow(inconsistent_fields)]
pub enum HandshakeView {
    NotNeeded,
    HttpConnect { state: TunnelState, request: Seq<u8> },
    Socks5 { state: Socks5State, request: Seq<u8> },
}

impl View for Handshake {
    type V = HandshakeView;

    open spec fn view(&self) -> HandshakeView {
        match self {
            Handshake::NotNeeded => HandshakeView::NotNeeded,
            Handshake::HttpConnect(tunnel) => HandshakeView::HttpConnect {
                state: tunnel.state(),
                request: tunnel.request(),
            },
            Handshake::Socks5(client) => HandshakeView::Socks5 {
                state: client.state(),
                request: client.request(),
            },
        }
    }
}

/// What serving one request takes: where to connect, how to shake hands
/// there, what to write to the upstream and to the client once the way is
/// open. After that, bytes are pumped both ways. If connecting or the
/// handshake fails, nothing of the plan is written and the client gets what
/// `upstream_failure_reply` says.
pub struct Plan {
    pub host: String,
    pub port: u16,
    pub handshake: Handshake,
    pub to_upstream: Vec<u8>,
    pub to_client: Option<ClientReply>,
}

pub struct PlanView {
    pub host: Seq<char>,
    pub port: u16,
    pub handshake: HandshakeView,
    pub to_upstream: Seq<u8>,
    pub to_client: Option<ClientReply>,
}

impl View for Plan {
    type V = PlanView;

    open spec fn view(&self) -> PlanView {
        PlanView {
            host: self.host@,
            port: self.port,
            handshake: self.handshake@,
            to_upstream: self.to_upstream@,
            to_client: self.to_client,
        }
    }
}

/// The plan for a request that goes to the target itself. CONNECT gets a
/// bare connection and the reply `200`; any other request is rewritten for
/// the origin.
pub open spec fn direct_plan(request: HttpRequestView, host: Seq<char>, port: u16) -> PlanView {
    if is_connect(request.method) {
        PlanView {
            host,
            port,
            handshake: HandshakeView::NotNeeded,
            to_upstream: Seq::empty(),
            to_client: Some(ClientReply::ConnectionEstablished),
        }
    } else {
        PlanView {
            host,
            port,
            handshake: HandshakeView::NotNeeded,
            to_upstream: encode_utf8(origin_head_text(request, host, port)) + request.body,
            to_client: None,
        }
    }
}

/// The plan for a request that goes through an upstream proxy, which is
/// where the connection goes. CONNECT gets a tunnel and the reply `200`. Any
/// other request goes to an HTTP proxy in the form that such a proxy
/// expects, without a handshake, and through a SOCKS5 tunnel as it was read.
/// A host name too long for SOCKS5 fails with `BadRequest`, and so does a
/// profile that is no proxy.
pub open spec fn proxy_plan(
    request: HttpRequestView,
    host: Seq<char>,
    port: u16,
    proxy: ProfileView,
) -> Result<PlanView, ProxyError> {
    match proxy {
        ProfileView::Direct => Err(ProxyError::BadRequest),
        ProfileView::Socks5 { host: proxy_host, port: proxy_port } => if encode_utf8(host).len()
            > 255 {
            Err(ProxyError::BadRequest)
        } else {
            Ok(
                PlanView {
                    host: proxy_host,
                    port: proxy_port,
                    handshake: HandshakeView::Socks5 {
                        state: Socks5State::Dial,
                        request: connect_request_bytes(encode_utf8(host), port),
                    },
                    to_upstream: if is_connect(request.method) {
                        Seq::empty()
                    } else {
                        encode_utf8(plain_head_text(request)) + request.body
                    },
                    to_client: if is_connect(request.method) {
                        Some(ClientReply::ConnectionEstablished)
                    } else {
                        None
                    },
                },
            )
        },
        ProfileView::Http { host: proxy_host, port: proxy_port } => Ok(
            if is_connect(request.method) {
                PlanView {
                    host: proxy_host,
                    port: proxy_port,
                    handshake: HandshakeView::HttpConnect {
                        state: TunnelState::Dial,
                        request: encode_utf8(connect_request_text(host, port, None)),
                    },
                    to_upstream: Seq::empty(),
                    to_client: Some(ClientReply::ConnectionEstablished),
                }
            } else {
                PlanView {
                    host: proxy_host,
                    port: proxy_port,
                    handshake: HandshakeView::NotNeeded,
                    to_upstream: encode_utf8(forward_head_text(request, host, port, None))
                        + request.body,
                    to_client: None,
                }
            },
        ),
    }
}

/// Plans a request that goes to the target itself.
pub fn handle_direct_connection(request: &HttpRequest, target_host: &str, port: u16) -> (plan: Plan)
    ensures
        plan@ == direct_plan(request@, target_host@, port),
{
    let host = string_of(chars_of(target_host).as_slice());
    if str_eq(request.method.as_str(), "CONNECT") {
        Plan {
            host,
            port,
            handshake: Handshake::NotNeeded,
            to_upstream: Vec::new(),
            to_client: Some(ClientReply::ConnectionEstablished),
        }
    } else {
        Plan {
            host,
            port,
            handshake: Handshake::NotNeeded,
            to_upstream: send_http_request(request, target_host, port),
            to_client: None,
        }
    }
}

/// Plans a request that goes through the upstream proxy `proxy`.
pub fn handle_proxy_connection(
    request: &HttpRequest,
    target_host: &str,
    port: u16,
    proxy: &Profile,
) -> (r: Result<Plan, ProxyError>)
    ensures
        match r {
            Ok(plan) => proxy_plan(request@, target_host@, port, proxy@) == Ok::<
                PlanView,
                ProxyError,
            >(plan@),
            Err(e) => proxy_plan(request@, target_host@, port, proxy@) == Err::<
                PlanView,
                ProxyError,
            >(e),
        },
{
    let connect = str_eq(request.method.as_str(), "CONNECT");
    match proxy {
        Profile::Direct => Err(ProxyError::BadRequest),
        Profile::Socks5 { host, port: proxy_port } => {
            let wanted = Socks5Request {
                target: string_of(chars_of(target_host).as_slice()),
                port,
            };
            match Socks5Client::start(&wanted) {
                Err(e) => Err(e),
                Ok(client) => Ok(
                    Plan {
                        host: host.clone(),
                        port: *proxy_port,
                        handshake: Handshake::Socks5(client),
                        to_upstream: if connect {
                            Vec::new()
                        } else {
                            plain_request(request)
                        },
                        to_client: if connect {
                            Some(ClientReply::ConnectionEstablished)
                        } else {
                            None
                        },
                    },
                ),
            }
        },
        Profile::Http { host, port: proxy_port } => {
            if connect {
                Ok(
                    Plan {
                        host: host.clone(),
                        port: *proxy_port,
                        handshake: Handshake::HttpConnect(
                            ConnectTunnel::start(target_host, port, None),
                        ),
                        to_upstream: Vec::new(),
                        to_client: Some(ClientReply::ConnectionEstablished),
                    },
                )
            } else {
                Ok(
                    Plan {
                        host: host.clone(),
                        port: *proxy_port,
                        handshake: Handshake::NotNeeded,
                        to_upstream: forward_http_request(request, target_host, port, None),
                        to_client: None,
                    },
                )
            }
        },
    }
}

/// Why a request is not served, and what the client is told.
#[derive(Clone, Copy, Debug, PartialEq, Eq, Structural)]
pub struct Refusal {
    pub error: ProxyError,
    pub reply: ClientReply,
}

/// What a client is told when its request fails: 400 for a CONNECT that
/// names no target, 500 for everything else.
pub open spec fn reply_for(connect: bool, error: ProxyError) -> ClientReply {
    if connect && error == ProxyError::BadRequest {
        ClientReply::BadRequest
    } else {
        ClientReply::ServerError
    }
}

/// What a client is told when its request fails with `error`; `connect`
/// says whether it was a CONNECT request.
pub fn failure_reply(connect: bool, error: ProxyError) -> (reply: ClientReply)
    ensures
        reply == reply_for(connect, error),
{
    match error {
        ProxyError::BadRequest => if connect {
            ClientReply::BadRequest
        } else {
            ClientReply::ServerError
        },
        _ => ClientReply::ServerError,
    }
}

/// What a client is told when the way to the target does not open, be it
/// that dialling fails or the handshake: the 500 line, and never the 200
/// line of the plan; nothing at all where the work was cancelled.
pub fn upstream_failure_reply(error: ProxyError) -> (reply: Option<ClientReply>)
    ensures
        reply == (if error == ProxyError::Cancelled {
            None
        } else {
            Some(ClientReply::ServerError)
        }),
{
    match error {
        ProxyError::Cancelled => None,
        _ => Some(ClientReply::ServerError),
    }
}

pub open spec fn refused(connect: bool, error: ProxyError) -> Refusal {
    Refusal { error, reply: reply_for(connect, error) }
}

/// How a request is served under a policy: the target is read from the
/// request, the policy picks the profile for the host, and the profile
/// decides the plan.
pub open spec fn handled(policy: Policy, request: HttpRequestView) -> Result<PlanView, Refusal> {
    let connect = is_connect(request.method);
    match request_target(request) {
        None => Err(refused(connect, ProxyError::BadRequest)),
        Some((host, port)) => match policy.resolved(host) {
            None => Err(refused(connect, ProxyError::PolicyMiss)),
            Some(ProfileView::Direct) => Ok(direct_plan(request, host, port)),
            Some(proxy) => match proxy_plan(request, host, port, proxy) {
                Ok(plan) => Ok(plan),
                Err(e) => Err(Refusal { error: e, reply: ClientReply::ServerError }),
            },
        },
    }
}

/// Decides how to serve `request` under `policy`. The policy is only read
/// while this runs: the plan owns all that it needs.
pub fn handle_client(policy: &Policy, request: &HttpRequest) -> (r: Result<Plan, Refusal>)
    ensures
        match r {
            Ok(plan) => handled(*policy, request@) == Ok::<PlanView, Refusal>(plan@),
            Err(refusal) => handled(*policy, request@) == Err::<PlanView, Refusal>(refusal),
        },
{
    let connect = str_eq(request.method.as_str(), "CONNECT");
    let (host, port) = match extract_host_and_port(request) {
        Ok(target) => target,
        Err(e) => {
            return Err(Refusal { error: e, reply: failure_reply(connect, e) });
        },
    };
    let profile = match policy.resolve(host.as_str()) {
        Ok(profile) => profile,
        Err(e) => {
            return Err(Refusal { error: e, reply: failure_reply(connect, e) });
        },
    };
    match profile {
        Profile::Direct => Ok(handle_direct_connection(request, host.as_str(), port)),
        _ => match handle_proxy_connection(request, host.as_str(), port, &profile) {
            Ok(plan) => Ok(plan),
            Err(e) => Err(Refusal { error: e, reply: ClientReply::ServerError }),
        },
    }
}

} // verus!
