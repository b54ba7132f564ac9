//! Proxy start/stop bookkeeping: listen address normalisation, the address the
//! system proxy is pointed at, and the status reported to the front end.
use vstd::prelude::*;
use crate::system_proxy::{restore_system_proxy, ProxySettings, SystemProxyGuard};
use crate::text::{append_chars, chars_of, has_char, string_of, trim, trim_chars};

verus! {

broadcast use vstd::string::group_string_axioms;

/// An IP address: four octets, or eight 16-bit segments with the IPv6 flow
/// information and scope id of a socket address.
pub enum IpValue {
    V4([u8; 4]),
    V6 { segments: [u16; 8], flowinfo: u32, scope_id: u32 },
}

/// A socket address: an IP address and a port.
pub struct ListenAddr {
    pub ip: IpValue,
    pub port: u16,
}

/// The decimal value of a sequence of ASCII digits.
pub open spec fn decimal_value(digits: Seq<char>) -> int
    decreases digits.len(),
{
    if digits.len() == 0 {
        0
    } else {
        decimal_value(digits.drop_last()) * 10 + (digits.last() as int - '0' as int)
    }
}

pub open spec fn all_digits(s: Seq<char>) -> bool {
    forall|i: int| 0 <= i < s.len() ==> '0' <= #[trigger] s[i] && s[i] <= '9'
}

/// The digits of an unsigned integer text: the text after an optional `+`.
pub open spec fn unsigned_digits(s: Seq<char>) -> Seq<char> {
    if s.len() > 0 && s[0] == '+' {
        s.drop_first()
    } else {
        s
    }
}

/// What `str::parse::<u16>` gives: an optional `+` followed by at least one
/// ASCII digit, nothing else, of value at most 65535.
pub open spec fn u16_parse(s: Seq<char>) -> Option<u16> {
    let d = unsigned_digits(s);
    if d.len() > 0 && all_digits(d) && decimal_value(d) <= 65535 {
        Some(decimal_value(d) as u16)
    } else {
        None
    }
}

/// The message of the error `str::parse::<u16>` gives for a text it refuses,
/// as the `ParseIntError`'s `Display` writes it.
pub uninterp spec fn u16_error_text(text: Seq<char>) -> Seq<char>;

/// Parses a port with `<u16 as FromStr>::from_str`. Claimed, as its
/// documentation states for unsigned types: success exactly on an optional `+`
/// followed by ASCII digits whose value fits in a `u16`, with that value; the
/// error text is the parse error's message, named `u16_error_text`.

#[verifier::external_body]
fn std_parse_u16(text: &str) -> (r: Result<u16, String>)
    ensures
        r is Ok <==> u16_parse(text@) is Some,
        r matches Ok(p) ==> u16_parse(text@) == Some(p),
        r matches Err(m) ==> m@ == u16_error_text(text@),
{
    text.parse::<u16>().map_err(|e| e.to_string())
}

/// Why a listen address was refused.
pub enum ListenAddrError {
    /// Nothing but white space was given.
    Empty,
    /// A port alone was given and it is not a valid port; the parser's message.
    InvalidPort(String),
}

/// What the listen address typed by the user asks for.
pub enum ListenTarget {
    /// All IPv4 interfaces at this port.
    AllInterfaces(u16),
    /// A full socket address, to be parsed as one (the trimmed text).
    Address(String),
}

/// The unspecified IPv4 address `0.0.0.0` with the given port.
pub open spec fn all_interfaces(port: u16) -> ListenAddr {
    ListenAddr { ip: IpValue::V4([0u8, 0u8, 0u8, 0u8]), port }
}

/// Listens on all IPv4 interfaces at `port`.
pub fn listen_addr_from_port(port: u16) -> (r: ListenAddr)
    ensures
        r == all_interfaces(port),
{
    ListenAddr { ip: IpValue::V4([0u8, 0u8, 0u8, 0u8]), port }
}

/// `r` is what normalising the listen address `value` gives: an error for a
/// blank text; for a text without `:` all interfaces at the port it parses to,
/// or an invalid-port error where it does not parse; for a text with `:` the
/// trimmed text as a full address.
pub open spec fn normalized_as(value: Seq<char>, r: Result<ListenTarget, ListenAddrError>) -> bool {
    let t = trim(value);
    if t.len() == 0 {
        r matches Err(ListenAddrError::Empty)
    } else if !has_char(t, ':') {
        match u16_parse(t) {
            Some(p) => r == Ok::<ListenTarget, ListenAddrError>(ListenTarget::AllInterfaces(p)),
            None => r matches Err(ListenAddrError::InvalidPort(m)) && m@ == u16_error_text(t),
        }
    } else {
        r matches Ok(ListenTarget::Address(a)) && a@ == t
    }
}

/// Normalises the listen address typed by the user. Surrounding white space is
/// ignored; nothing left is an error; a text without `:` is a port alone,
/// meaning all IPv4 interfaces at that port; a text with `:` is a full socket
/// address.
pub fn normalize_listen_addr(value: &str) -> (r: Result<ListenTarget, ListenAddrError>)
    ensures
        normalized_as(value@, r),
{
    let chars = chars_of(value);
    let t = trim_chars(&chars);
    if t.len() == 0 {
        return Err(ListenAddrError::Empty);
    }
    let text = string_of(&t);
    let mut has_colon = false;
    let mut i: usize = 0;
    while i < t.len()
        invariant
            i <= t.len(),
            has_colon <==> exists|k: int| 0 <= k < i && t@[k] == ':',
        decreases t.len() - i,
    {
        if t[i] == ':' {
            has_colon = true;
        }
        i = i + 1;
    }
    if !has_colon {
        match std_parse_u16(text.as_str()) {
            Ok(port) => Ok(ListenTarget::AllInterfaces(port)),
            Err(e) => Err(ListenAddrError::InvalidPort(e)),
        }
    } else {
        Ok(ListenTarget::Address(text))
    }
}

/// The address is the unspecified address of its family (`0.0.0.0` or `::`).
pub open spec fn is_unspecified(ip: IpValue) -> bool {
    match ip {
        IpValue::V4(o) => o@ == seq![0u8, 0u8, 0u8, 0u8],
        IpValue::V6 { segments, .. } => segments@ == seq![0u16, 0u16, 0u16, 0u16, 0u16, 0u16, 0u16, 0u16],
    }
}

/// The address a local client uses to reach a proxy listening at `addr`: the
/// loopback address of the same family when `addr` listens on all interfaces
/// (a fresh IPv6 socket address, flow information and scope id 0), else
/// `addr` itself.
pub open spec fn reachable_addr(addr: ListenAddr) -> ListenAddr {
    if is_unspecified(addr.ip) {
        match addr.ip {
            IpValue::V4(_) => ListenAddr { ip: IpValue::V4([127u8, 0u8, 0u8, 1u8]), port: addr.port },
            IpValue::V6 { .. } => ListenAddr {
                ip: IpValue::V6 { segments: [0u16, 0u16, 0u16, 0u16, 0u16, 0u16, 0u16, 1u16], flowinfo: 0, scope_id: 0 },
                port: addr.port,
            },
        }
    } else {
        addr
    }
}

fn is_unspecified_exec(ip: &IpValue) -> (r: bool)
    ensures
        r == is_unspecified(*ip),
{
    match ip {
        IpValue::V4(o) => {
            let r = o[0] == 0 && o[1] == 0 && o[2] == 0 && o[3] == 0;
            assert(r ==> o@ =~= seq![0u8, 0u8, 0u8, 0u8]);
            r
        },
        IpValue::V6 { segments, .. } => {
            let s = segments;
            let r = s[0] == 0 && s[1] == 0 && s[2] == 0 && s[3] == 0 && s[4] == 0 && s[5] == 0
                && s[6] == 0 && s[7] == 0;
            assert(r ==> s@ =~= seq![0u16, 0u16, 0u16, 0u16, 0u16, 0u16, 0u16, 0u16]);
            r
        },
    }
}

/// The address the system proxy is pointed at for a proxy listening at
/// `listen_addr`: its loopback form when it listens on all interfaces.
pub fn system_proxy_addr(listen_addr: ListenAddr) -> (r: ListenAddr)
    ensures
        r == reachable_addr(listen_addr),
{
    if is_unspecified_exec(&listen_addr.ip) {
        match listen_addr.ip {
            IpValue::V4(_) => ListenAddr { ip: IpValue::V4([127u8, 0u8, 0u8, 1u8]), port: listen_addr.port },
            IpValue::V6 { .. } => ListenAddr {
                ip: IpValue::V6 { segments: [0u16, 0u16, 0u16, 0u16, 0u16, 0u16, 0u16, 1u16], flowinfo: 0, scope_id: 0 },
                port: listen_addr.port,
            },
        }
    } else {
        listen_addr
    }
}


/// The status of the proxy shown by the front end.
pub struct ProxyStatus {
    pub running: bool,
    pub listen_addr: String,
    pub upstream_proxy: Option<String>,
}

impl Default for ProxyStatus {
    /// Not running, no address, no upstream proxy.
    fn default() -> (r: Self)
        ensures
            !r.running,
            r.listen_addr@ == Seq::<char>::empty(),
            r.upstream_proxy is None,
    {
        ProxyStatus { running: false, listen_addr: String::new(), upstream_proxy: None }
    }
}

/// What is kept about the running proxy besides its tasks: the address it
/// listens at, its upstream proxy, and the guard of the system proxy takeover.
pub struct ProxyRecord {
    pub listen_addr: String,
    pub upstream_proxy: Option<String>,
    pub system_proxy: Option<SystemProxyGuard>,
}

pub open spec fn opt_string_view(o: Option<String>) -> Option<Seq<char>> {
    match o {
        Some(s) => Some(s@),
        None => None,
    }
}

fn clone_opt(o: &Option<String>) -> (r: Option<String>)
    ensures
        opt_string_view(r) == opt_string_view(*o),
{
    match o {
        Some(s) => Some(s.clone()),
        None => None,
    }
}

/// The status of the proxy: running with its address and upstream proxy when a
/// record is held, else the default status.
pub fn proxy_status(proxy: &Option<ProxyRecord>) -> (r: ProxyStatus)
    ensures
        r.running == proxy is Some,
        match proxy {
            Some(h) => r.listen_addr@ == h.listen_addr@ && opt_string_view(r.upstream_proxy)
                == opt_string_view(h.upstream_proxy),
            None => r.listen_addr@ == Seq::<char>::empty() && r.upstream_proxy is None,
        },
{
    match proxy {
        Some(h) => ProxyStatus {
            running: true,
            listen_addr: h.listen_addr.clone(),
            upstream_proxy: clone_opt(&h.upstream_proxy),
        },
        None => ProxyStatus::default(),
    }
}

/// Why the proxy was not started.
pub enum StartError {
    /// A proxy is already running; it has to be stopped first.
    AlreadyRunning,
    /// The listen address was refused.
    ListenAddr(ListenAddrError),
    /// The full listen address does not parse as a socket address (the
    /// parser's message).
    InvalidAddress(String),
    /// The port could not be bound (the system's message).
    PortUnavailable(String),
    /// The upstream proxy address is invalid (the parser's message).
    InvalidUpstream(String),
    /// The system proxy could not be taken over (the reason).
    SystemProxy(String),
}

/// The message shown for a refused start.
pub open spec fn start_error_text(e: StartError) -> Seq<char> {
    match e {
        StartError::AlreadyRunning => "代理已在运行，请先停止"@,
        StartError::ListenAddr(ListenAddrError::Empty) => "监听端口不能为空"@,
        StartError::ListenAddr(ListenAddrError::InvalidPort(m)) => "监听端口无效: "@ + m@,
        StartError::InvalidAddress(m) => "监听地址无效: "@ + m@,
        StartError::PortUnavailable(m) => "端口监听失败: "@ + m@,
        StartError::InvalidUpstream(m) => "上游代理地址无效: "@ + m@,
        StartError::SystemProxy(m) => "自动设置系统代理失败，代理未启动："@ + m@ + "（可在设置中关闭该选项）"@,
    }
}

fn concat(parts: &Vec<&str>) -> (r: String)
    ensures
        r@ == concat_views(parts@),
{
    let mut v: Vec<char> = Vec::new();
    let mut i: usize = 0;
    while i < parts.len()
        invariant
            i <= parts@.len(),
            v@ == concat_views(parts@.take(i as int)),
        decreases parts@.len() - i,
    {
        append_chars(&mut v, &chars_of(parts[i]));
        assert(parts@.take(i + 1).drop_last() =~= parts@.take(i as int));
        i = i + 1;
    }
    assert(parts@.take(parts@.len() as int) =~= parts@);
    string_of(&v)
}

/// The texts of `parts`, one after another.
pub open spec fn concat_views(parts: Seq<&str>) -> Seq<char>
    decreases parts.len(),
{
    if parts.len() == 0 {
        Seq::<char>::empty()
    } else {
        concat_views(parts.drop_last()) + parts.last()@
    }
}

impl StartError {
    /// The message shown for a refused start.
    pub fn message(&self) -> (r: String)
        ensures
            r@ == start_error_text(*self),
    {
        let parts: Vec<&str> = match self {
            StartError::AlreadyRunning => vec!["代理已在运行，请先停止"],
            StartError::ListenAddr(ListenAddrError::Empty) => vec!["监听端口不能为空"],
            StartError::ListenAddr(ListenAddrError::InvalidPort(m)) => vec!["监听端口无效: ", m.as_str()],
            StartError::InvalidAddress(m) => vec!["监听地址无效: ", m.as_str()],
            StartError::PortUnavailable(m) => vec!["端口监听失败: ", m.as_str()],
            StartError::InvalidUpstream(m) => vec!["上游代理地址无效: ", m.as_str()],
            StartError::SystemProxy(m) => vec!["自动设置系统代理失败，代理未启动：", m.as_str(), "（可在设置中关闭该选项）"],
        };
        proof {
            reveal_with_fuel(concat_views, 4);
        }
        concat(&parts)
    }
}

/// What starting the proxy does next.
pub enum StartAction {
    /// Bind the listen address for a moment, to see that the port is free.
    ProbePort,
    /// Check the upstream proxy address.
    CheckUpstream,
    /// Point the system proxy at the proxy.
    TakeOverSystemProxy,
    /// Launch the proxy core: the start succeeded.
    Launch,
    /// Give up with this error; the proxy core was not launched.
    Fail(StartError),
}

/// What the last step of a start gave.
pub enum StartEvent {
    /// The listen address was accepted.
    Planned,
    /// The port probe ended (the system's message on failure).
    Probed(Result<(), String>),
    /// The upstream proxy address was checked (the parser's message on failure).
    UpstreamChecked(Result<(), String>),
    /// The system proxy takeover ended (the reason on failure).
    TookOver(Result<(), String>),
}

/// What follows a free port: checking the upstream proxy when one is given,
/// else taking the system proxy over when that is asked, else the launch.
pub open spec fn after_probe(has_upstream: bool, auto_system_proxy: bool) -> StartAction {
    if has_upstream {
        StartAction::CheckUpstream
    } else if auto_system_proxy {
        StartAction::TakeOverSystemProxy
    } else {
        StartAction::Launch
    }
}

/// The order of a start once the listen address is accepted: probe the port,
/// check the upstream proxy (when one is given), take the system proxy over
/// (when asked), launch; the first failure ends the start with its error.
pub fn proxy_start_step(event: StartEvent, has_upstream: bool, auto_system_proxy: bool) -> (r: StartAction)
    ensures
        match event {
            StartEvent::Planned => r is ProbePort,
            StartEvent::Probed(Err(m)) => r == StartAction::Fail(StartError::PortUnavailable(m)),
            StartEvent::Probed(Ok(())) => r == after_probe(has_upstream, auto_system_proxy),
            StartEvent::UpstreamChecked(Err(m)) => r == StartAction::Fail(StartError::InvalidUpstream(m)),
            StartEvent::UpstreamChecked(Ok(())) => r == after_probe(false, auto_system_proxy),
            StartEvent::TookOver(Err(m)) => r == StartAction::Fail(StartError::SystemProxy(m)),
            StartEvent::TookOver(Ok(())) => r is Launch,
        },
{
    match event {
        StartEvent::Planned => StartAction::ProbePort,
        StartEvent::Probed(Err(m)) => StartAction::Fail(StartError::PortUnavailable(m)),
        StartEvent::Probed(Ok(())) => if has_upstream {
            StartAction::CheckUpstream
        } else if auto_system_proxy {
            StartAction::TakeOverSystemProxy
        } else {
            StartAction::Launch
        },
        StartEvent::UpstreamChecked(Err(m)) => StartAction::Fail(StartError::InvalidUpstream(m)),
        StartEvent::UpstreamChecked(Ok(())) => if auto_system_proxy {
            StartAction::TakeOverSystemProxy
        } else {
            StartAction::Launch
        },
        StartEvent::TookOver(Err(m)) => StartAction::Fail(StartError::SystemProxy(m)),
        StartEvent::TookOver(Ok(())) => StartAction::Launch,
    }
}

/// The first decision of a start request: refused while a proxy runs, else
/// the normalised listen address.
pub fn plan_proxy_start(already_running: bool, listen_addr: &str) -> (r: Result<ListenTarget, StartError>)
    ensures
        already_running ==> r matches Err(StartError::AlreadyRunning),
        !already_running ==> normalized_as(listen_addr@, match r {
            Ok(t) => Ok(t),
            Err(StartError::ListenAddr(e)) => Err(e),
            Err(_) => Err(ListenAddrError::Empty),
        }) && (r is Ok || r matches Err(StartError::ListenAddr(_))),
{
    if already_running {
        return Err(StartError::AlreadyRunning);
    }
    match normalize_listen_addr(listen_addr) {
        Ok(t) => Ok(t),
        Err(e) => Err(StartError::ListenAddr(e)),
    }
}


/// On stop: the system proxy settings to write back, when the running proxy
/// took the system proxy over.
pub fn settings_to_restore(proxy: &Option<ProxyRecord>) -> (r: Option<ProxySettings>)
    ensures
        match proxy {
            Some(h) => match h.system_proxy {
                Some(g) => r matches Some(s) && s@ == g@,
                None => r is None,
            },
            None => r is None,
        },
{
    match proxy {
        Some(h) => match &h.system_proxy {
            Some(g) => Some(restore_system_proxy(g)),
            None => None,
        },
        None => None,
    }
}

} // verus!
