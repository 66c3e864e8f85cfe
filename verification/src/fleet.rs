//! Lifecycle of the managed backend server instances.
//!
//! The manager owns a map from listening port to a running instance record:
//! the instance's configuration plus its cumulative traffic counters.  Adding
//! an instance on an occupied port replaces the old instance; removal is
//! idempotent.  Starting the actual server task, binding sockets and
//! cancelling tasks is outside work: the manager decides, and the surrounding
//! runtime performs the start before committing the new instance with
//! [`Manager::add_server`].

use vstd::prelude::*;
use vstd::string::StringExecFns;

use crate::protocol::{AddRequest, RemoveRequest, ServerEntry, StatRequest};

verus! {

/// Operating mode of a backend instance.
#[derive(Debug, Copy, Clone, PartialEq, Eq, Structural)]
pub enum Mode {
    TcpOnly,
    TcpAndUdp,
    UdpOnly,
}

/// The mode named by a control-request string, if any.
pub open spec fn mode_from_name(s: Seq<char>) -> Option<Mode> {
    if s == "tcp_only"@ {
        Option::Some(Mode::TcpOnly)
    } else if s == "tcp_and_udp"@ {
        Option::Some(Mode::TcpAndUdp)
    } else if s == "udp_only"@ {
        Option::Some(Mode::UdpOnly)
    } else {
        Option::None
    }
}

/// Parses an operating-mode name.
pub fn parse_mode(s: &String) -> (r: Option<Mode>)
    ensures
        r == mode_from_name(s@),
{
    if *s == "tcp_only".to_owned() {
        Option::Some(Mode::TcpOnly)
    } else if *s == "tcp_and_udp".to_owned() {
        Option::Some(Mode::TcpAndUdp)
    } else if *s == "udp_only".to_owned() {
        Option::Some(Mode::UdpOnly)
    } else {
        Option::None
    }
}

/// Whether a cipher name is recognized by the tunnel implementation.
pub uninterp spec fn cipher_name_recognized(name: Seq<char>) -> bool;

/// Relies on the `FromStr` implementation of `shadowsocks::crypto::CipherKind`
/// (crate `shadowsocks-crypto`, `kind.rs`): whether a cipher name parses is a
/// function of the name alone (a lowercase table lookup), and parsing never
/// panics.
#[verifier::external_body]
fn parse_cipher_name(name: &str) -> (r: bool)
    ensures
        r == cipher_name_recognized(name@),
{
    name.parse::<shadowsocks::crypto::CipherKind>().is_ok()
}

/// Where backend instances bind: the manager's configured host, a domain name
/// or a literal address.
#[derive(Debug, Clone)]
pub enum ServerHost {
    Domain(String),
    Ip(String),
}

/// Optional plugin invocation attached to an instance.
#[derive(Debug)]
pub struct PluginDef {
    pub plugin: String,
    pub plugin_opts: Option<String>,
}

/// Static configuration of the manager itself.
#[derive(Debug)]
pub struct ManagerConfig {
    /// Host that every added instance binds to.
    pub server_host: ServerHost,
    /// Default cipher name for instances added without one.
    pub method: Option<String>,
}

/// Fully resolved configuration of one backend instance.
#[derive(Debug)]
pub struct ServerDefinition {
    pub host: ServerHost,
    pub port: u16,
    pub password: String,
    pub method: String,
    pub mode: Mode,
    pub plugin: Option<PluginDef>,
}

/// One running backend instance: its configuration and the bytes it has
/// transferred so far.
pub struct ServerInstance {
    pub config: ServerDefinition,
    pub tx_bytes: u64,
    pub rx_bytes: u64,
}

/// Mathematical state of the manager.
pub struct ManagerModel {
    pub servers: Seq<ServerInstance>,
    pub svr_cfg: ManagerConfig,
    pub mode: Mode,
    pub udp_expiry_secs: Option<u64>,
    pub udp_capacity: Option<usize>,
    pub nodelay: bool,
}

/// No two live instances share a listening port.
pub open spec fn fleet_wf(m: ManagerModel) -> bool {
    forall|i: int, j: int|
        0 <= i < j < m.servers.len() ==> (#[trigger] m.servers[i]).config.port != (
        #[trigger] m.servers[j]).config.port
}

pub open spec fn has_port(s: Seq<ServerInstance>, port: u16) -> bool {
    exists|i: int| 0 <= i < s.len() && (#[trigger] s[i]).config.port == port
}

/// The instance map without any instance on `port`, order preserved.
pub open spec fn without_port(s: Seq<ServerInstance>, port: u16) -> Seq<ServerInstance>
    decreases s.len(),
{
    if s.len() == 0 {
        s
    } else if s[0].config.port == port {
        without_port(s.drop_first(), port)
    } else {
        seq![s[0]] + without_port(s.drop_first(), port)
    }
}

/// Removing a port that no instance holds leaves the instance map unchanged.
pub proof fn lemma_remove_absent_port(s: Seq<ServerInstance>, port: u16)
    requires
        !has_port(s, port),
    ensures
        without_port(s, port) =~= s,
    decreases s.len(),
{
    if s.len() > 0 {
        assert(s[0].config.port != port);
        assert forall|j: int| 0 <= j < s.drop_first().len() implies (#[trigger] s.drop_first()[j]).config.port
            != port by {
            assert(s.drop_first()[j] == s[j + 1]);
        }
        lemma_remove_absent_port(s.drop_first(), port);
        assert(without_port(s, port) =~= seq![s[0]] + s.drop_first());
    }
}

proof fn lemma_remove_found_port(s: Seq<ServerInstance>, port: u16, i: int)
    requires
        0 <= i < s.len(),
        s[i].config.port == port,
        forall|j: int, k: int|
            0 <= j < k < s.len() ==> (#[trigger] s[j]).config.port != (#[trigger] s[k]).config.port,
    ensures
        without_port(s, port) =~= s.remove(i),
    decreases s.len(),
{
    if i == 0 {
        assert forall|j: int| 0 <= j < s.drop_first().len() implies (#[trigger] s.drop_first()[j]).config.port
            != port by {
            assert(s.drop_first()[j] == s[j + 1]);
        }
        assert(!has_port(s.drop_first(), port));
        lemma_remove_absent_port(s.drop_first(), port);
        assert(s.remove(0) =~= s.drop_first());
    } else {
        assert(s[0].config.port != port);
        assert forall|j: int, k: int|
            0 <= j < k < s.drop_first().len() implies (#[trigger] s.drop_first()[j]).config.port
            != (#[trigger] s.drop_first()[k]).config.port by {
            assert(s.drop_first()[j] == s[j + 1] && s.drop_first()[k] == s[k + 1]);
        }
        assert(s.drop_first()[i - 1] == s[i]);
        lemma_remove_found_port(s.drop_first(), port, i - 1);
        assert(s.remove(i) =~= seq![s[0]] + s.drop_first().remove(i - 1));
    }
}

/// What the removal leaves behind: no instance on the removed port, and only
/// instances that were already in the map.
pub proof fn lemma_without_port_props(s: Seq<ServerInstance>, port: u16)
    ensures
        forall|j: int|
            0 <= j < without_port(s, port).len() ==> (#[trigger] without_port(s, port)[j]).config.port
                != port,
        forall|j: int|
            0 <= j < without_port(s, port).len() ==> s.contains(#[trigger] without_port(s, port)[j]),
    decreases s.len(),
{
    if s.len() > 0 {
        lemma_without_port_props(s.drop_first(), port);
        assert forall|j: int|
            0 <= j < without_port(s.drop_first(), port).len() implies s.contains(
            #[trigger] without_port(s.drop_first(), port)[j]) by {
            let x = without_port(s.drop_first(), port)[j];
            let k = choose|k: int| 0 <= k < s.drop_first().len() && s.drop_first()[k] == x;
            assert(s[k + 1] == x);
        }
    }
}

/// After an add, exactly one instance holds the added port: the new one, at
/// the end of the map; the instance previously on the port is gone.
pub proof fn lemma_add_replaces(s: Seq<ServerInstance>, x: ServerInstance)
    ensures
        without_port(s, x.config.port).push(x).last() == x,
        forall|i: int|
            0 <= i < without_port(s, x.config.port).push(x).len() - 1 ==> (#[trigger] without_port(
                s,
                x.config.port,
            ).push(x)[i]).config.port != x.config.port,
{
    lemma_without_port_props(s, x.config.port);
    let t = without_port(s, x.config.port).push(x);
    assert forall|i: int| 0 <= i < t.len() - 1 implies (#[trigger] t[i]).config.port
        != x.config.port by {
        assert(t[i] == without_port(s, x.config.port)[i]);
    }
}

proof fn lemma_fleet_remove_unique(s: Seq<ServerInstance>, i: int)
    requires
        forall|j: int, k: int|
            0 <= j < k < s.len() ==> (#[trigger] s[j]).config.port != (#[trigger] s[k]).config.port,
        0 <= i < s.len(),
    ensures
        forall|j: int, k: int|
            0 <= j < k < s.remove(i).len() ==> (#[trigger] s.remove(i)[j]).config.port != (
            #[trigger] s.remove(i)[k]).config.port,
{
    let t = s.remove(i);
    assert forall|a: int, b: int| 0 <= a < b < t.len() implies (#[trigger] t[a]).config.port != (
    #[trigger] t[b]).config.port by {
        let a2: int = if a < i {
            a
        } else {
            a + 1
        };
        let b2: int = if b < i {
            b
        } else {
            b + 1
        };
        assert(t[a] == s[a2] && t[b] == s[b2]);
    }
}

/// Saturating byte-counter addition: traffic accounting never overflows and
/// never aborts; a counter pegs at the maximum instead.
pub open spec fn sat_add(a: u64, b: u64) -> u64 {
    if a + b <= u64::MAX {
        (a + b) as u64
    } else {
        u64::MAX
    }
}

/// An instance after more traffic has been accounted to it.
pub open spec fn with_traffic(inst: ServerInstance, tx: u64, rx: u64) -> ServerInstance {
    ServerInstance {
        config: inst.config,
        tx_bytes: sat_add(inst.tx_bytes, tx),
        rx_bytes: sat_add(inst.rx_bytes, rx),
    }
}

/// Everything but the instance map is the same.
pub open spec fn same_but_servers(a: ManagerModel, b: ManagerModel) -> bool {
    &&& a.svr_cfg == b.svr_cfg
    &&& a.mode == b.mode
    &&& a.udp_expiry_secs == b.udp_expiry_secs
    &&& a.udp_capacity == b.udp_capacity
    &&& a.nodelay == b.nodelay
}

/// Outcome of validating an add request: start an instance, or reject with a
/// human-readable message.
pub enum AddDecision {
    Reject(String),
    Start(ServerDefinition),
}

pub open spec fn method_rejected(req: AddRequest) -> bool {
    req.method matches Some(mname) && !cipher_name_recognized(mname@)
}

pub open spec fn mode_rejected(req: AddRequest) -> bool {
    req.mode matches Some(ms) && mode_from_name(ms@) is None
}

/// The cipher an added instance runs: the requested one, the manager's
/// default, or the built-in default.
pub open spec fn resolved_method(cfg: ManagerConfig, req: AddRequest) -> Seq<char> {
    match req.method {
        Option::Some(mname) => mname@,
        Option::None => match cfg.method {
            Option::Some(d) => d@,
            Option::None => "chacha20-ietf-poly1305"@,
        },
    }
}

pub open spec fn resolved_mode(mode_default: Mode, req: AddRequest) -> Mode {
    match req.mode {
        Option::Some(ms) => match mode_from_name(ms@) {
            Option::Some(pm) => pm,
            Option::None => mode_default,
        },
        Option::None => mode_default,
    }
}

/// The definition an accepted add request resolves to.
pub open spec fn definition_for(m: ManagerModel, req: AddRequest, def: ServerDefinition) -> bool {
    &&& def.host == m.svr_cfg.server_host
    &&& def.port == req.server_port
    &&& def.password == req.password
    &&& def.method@ == resolved_method(m.svr_cfg, req)
    &&& def.mode == resolved_mode(m.mode, req)
    &&& match req.plugin {
        Option::Some(p) => def.plugin matches Some(pd) && pd.plugin == p && pd.plugin_opts
            == req.plugin_opts,
        Option::None => def.plugin is None,
    }
}

/// Exactly what `handle_add` decides: an unrecognized cipher name is rejected
/// first, then an unrecognized mode string, and otherwise the resolved
/// definition is handed out to be started.
pub open spec fn add_decision_spec(m: ManagerModel, req: AddRequest, r: AddDecision) -> bool {
    if method_rejected(req) {
        r matches AddDecision::Reject(msg) && (req.method matches Some(mname) && msg@
            == "unrecognized method \""@ + mname@ + "\""@)
    } else if mode_rejected(req) {
        r matches AddDecision::Reject(msg) && (req.mode matches Some(ms) && msg@
            == "unrecognized mode \""@ + ms@ + "\""@)
    } else {
        r matches AddDecision::Start(def) && definition_for(m, req, def)
    }
}

/// Entries reported by a list request: port and password of each instance, in
/// insertion order; cipher and plugin details are intentionally omitted.
pub open spec fn list_matches(s: Seq<ServerInstance>, v: Seq<ServerEntry>) -> bool {
    &&& v.len() == s.len()
    &&& forall|i: int|
        0 <= i < s.len() ==> (#[trigger] v[i]).server_port == s[i].config.port && v[i].password
            == s[i].config.password
}

/// Entries reported by a ping request: for every instance, its port and the
/// total bytes transferred.
pub open spec fn ping_matches(s: Seq<ServerInstance>, v: Seq<(u16, u64)>) -> bool {
    &&& v.len() == s.len()
    &&& forall|i: int|
        0 <= i < s.len() ==> (#[trigger] v[i]).0 == s[i].config.port && v[i].1 == sat_add(
            s[i].tx_bytes,
            s[i].rx_bytes,
        )
}

/// Concurrency-safe lifecycle for backend server instances plus traffic
/// accounting.  The surrounding runtime serializes access to it (one lock per
/// operation) and owns the cancellation handles keyed by the same ports.
pub struct Manager {
    servers: Vec<ServerInstance>,
    svr_cfg: ManagerConfig,
    mode: Mode,
    udp_expiry_secs: Option<u64>,
    udp_capacity: Option<usize>,
    nodelay: bool,
}

impl View for Manager {
    type V = ManagerModel;

    closed spec fn view(&self) -> ManagerModel {
        ManagerModel {
            servers: self.servers@,
            svr_cfg: self.svr_cfg,
            mode: self.mode,
            udp_expiry_secs: self.udp_expiry_secs,
            udp_capacity: self.udp_capacity,
            nodelay: self.nodelay,
        }
    }
}

impl Manager {
    pub fn new(svr_cfg: ManagerConfig) -> (r: Manager)
        ensures
            r@.servers =~= Seq::<ServerInstance>::empty(),
            r@.svr_cfg == svr_cfg,
            r@.mode == Mode::TcpOnly,
            r@.udp_expiry_secs is None,
            r@.udp_capacity is None,
            !r@.nodelay,
            fleet_wf(r@),
    {
        Manager {
            servers: Vec::new(),
            svr_cfg,
            mode: Mode::TcpOnly,
            udp_expiry_secs: Option::None,
            udp_capacity: Option::None,
            nodelay: false,
        }
    }

    pub fn config(&self) -> (r: &ManagerConfig)
        ensures
            *r == self@.svr_cfg,
    {
        &self.svr_cfg
    }

    pub fn set_mode(&mut self, mode: Mode)
        ensures
            final(self)@ == (ManagerModel { mode, ..old(self)@ }),
    {
        self.mode = mode;
    }

    /// Expiry for UDP associations, in seconds.
    pub fn set_udp_expiry_duration(&mut self, secs: u64)
        ensures
            final(self)@ == (ManagerModel { udp_expiry_secs: Option::Some(secs), ..old(self)@ }),
    {
        self.udp_expiry_secs = Option::Some(secs);
    }

    pub fn set_udp_capacity(&mut self, c: usize)
        ensures
            final(self)@ == (ManagerModel { udp_capacity: Option::Some(c), ..old(self)@ }),
    {
        self.udp_capacity = Option::Some(c);
    }

    pub fn set_nodelay(&mut self, nodelay: bool)
        ensures
            final(self)@ == (ManagerModel { nodelay, ..old(self)@ }),
    {
        self.nodelay = nodelay;
    }

    pub fn server_count(&self) -> (r: usize)
        ensures
            r == self@.servers.len(),
    {
        self.servers.len()
    }

    /// Whether an instance is live on `port`.
    pub fn contains_port(&self, port: u16) -> (r: bool)
        ensures
            r == has_port(self@.servers, port),
    {
        let mut i: usize = 0;
        while i < self.servers.len()
            invariant
                i <= self@.servers.len(),
                forall|j: int| 0 <= j < i ==> (#[trigger] self@.servers[j]).config.port != port,
            decreases self@.servers.len() - i,
        {
            if self.servers[i].config.port == port {
                return true;
            }
            i = i + 1;
        }
        false
    }

    /// Validates an add request.  Rejects an unrecognized cipher name, then an
    /// unrecognized mode string; otherwise resolves host, cipher and mode and
    /// hands out the definition of the instance to start.  Never touches the
    /// instance map: the instance is committed with [`Manager::add_server`]
    /// only once it has actually started.
    pub fn handle_add(&self, req: &AddRequest) -> (r: AddDecision)
        ensures
            add_decision_spec(self@, *req, r),
    {
        let method: String = match &req.method {
            Option::Some(mname) => {
                if !parse_cipher_name(mname.as_str()) {
                    let msg = "unrecognized method \"".to_owned().concat(mname.as_str()).concat(
                        "\"",
                    );
                    return AddDecision::Reject(msg);
                }
                mname.clone()
            },
            Option::None => match &self.svr_cfg.method {
                Option::Some(d) => d.clone(),
                Option::None => "chacha20-ietf-poly1305".to_owned(),
            },
        };
        let mode: Mode = match &req.mode {
            Option::Some(ms) => match parse_mode(ms) {
                Option::Some(pm) => pm,
                Option::None => {
                    let msg = "unrecognized mode \"".to_owned().concat(ms.as_str()).concat("\"");
                    return AddDecision::Reject(msg);
                },
            },
            Option::None => self.mode,
        };
        let plugin: Option<PluginDef> = match &req.plugin {
            Option::Some(p) => Option::Some(
                PluginDef {
                    plugin: p.clone(),
                    plugin_opts: match &req.plugin_opts {
                        Option::Some(o) => Option::Some(o.clone()),
                        Option::None => Option::None,
                    },
                },
            ),
            Option::None => Option::None,
        };
        let host: ServerHost = match &self.svr_cfg.server_host {
            ServerHost::Domain(d) => ServerHost::Domain(d.clone()),
            ServerHost::Ip(ip) => ServerHost::Ip(ip.clone()),
        };
        AddDecision::Start(
            ServerDefinition {
                host,
                port: req.server_port,
                password: req.password.clone(),
                method,
                mode,
                plugin,
            },
        )
    }

    /// Commits a started instance: the instance previously on the port, if
    /// any, leaves the map, and the new one is appended with zeroed traffic
    /// counters.  The caller must have initiated the old instance's
    /// cancellation before this commit makes the new one visible.
    pub fn add_server(&mut self, def: ServerDefinition)
        requires
            fleet_wf(old(self)@),
        ensures
            fleet_wf(final(self)@),
            same_but_servers(final(self)@, old(self)@),
            final(self)@.servers =~= without_port(old(self)@.servers, def.port).push(
                ServerInstance { config: def, tx_bytes: 0, rx_bytes: 0 },
            ),
    {
        let port = def.port;
        self.remove_instance(port);
        let ghost mid = self@.servers;
        proof {
            lemma_without_port_props(old(self)@.servers, port);
        }
        self.servers.push(ServerInstance { config: def, tx_bytes: 0, rx_bytes: 0 });
        proof {
            assert forall|i: int, j: int|
                0 <= i < j < self@.servers.len() implies (#[trigger] self@.servers[i]).config.port
                != (#[trigger] self@.servers[j]).config.port by {
                if j < self@.servers.len() - 1 {
                    assert(self@.servers[i] == mid[i] && self@.servers[j] == mid[j]);
                } else {
                    assert(self@.servers[i] == mid[i] && mid[i].config.port != port);
                }
            }
        }
    }

    /// Evicts the instance on `port` if present; keeps the order of the
    /// remaining instances.  Removing an absent port changes nothing.
    fn remove_instance(&mut self, port: u16)
        requires
            fleet_wf(old(self)@),
        ensures
            fleet_wf(final(self)@),
            same_but_servers(final(self)@, old(self)@),
            final(self)@.servers =~= without_port(old(self)@.servers, port),
    {
        let ghost pre = self@.servers;
        let mut i: usize = 0;
        while i < self.servers.len()
            invariant
                i <= self@.servers.len(),
                self@.servers == pre,
                self@ == old(self)@,
                fleet_wf(old(self)@),
                forall|j: int| 0 <= j < i ==> (#[trigger] pre[j]).config.port != port,
            decreases self@.servers.len() - i,
        {
            if self.servers[i].config.port == port {
                self.servers.remove(i);
                proof {
                    lemma_remove_found_port(pre, port, i as int);
                    assert(self@.servers =~= pre.remove(i as int));
                    lemma_fleet_remove_unique(pre, i as int);
                }
                return ;
            }
            i = i + 1;
        }
        proof {
            lemma_remove_absent_port(pre, port);
        }
    }

    /// Removes the instance on the requested port; removing an absent port is
    /// not an error.  Always answers "ok".  The caller cancels the evicted
    /// instance's task.
    pub fn handle_remove(&mut self, req: &RemoveRequest) -> (r: String)
        requires
            fleet_wf(old(self)@),
        ensures
            fleet_wf(final(self)@),
            same_but_servers(final(self)@, old(self)@),
            final(self)@.servers =~= without_port(old(self)@.servers, req.server_port),
            r@ == "ok"@,
    {
        self.remove_instance(req.server_port);
        "ok".to_owned()
    }

    /// Snapshot of every instance's port and password, in insertion order.
    /// Cipher and plugin details are intentionally not disclosed here,
    /// mirroring the control protocol.
    pub fn handle_list(&self) -> (r: Vec<ServerEntry>)
        ensures
            list_matches(self@.servers, r@),
    {
        let mut out: Vec<ServerEntry> = Vec::new();
        let mut i: usize = 0;
        while i < self.servers.len()
            invariant
                i <= self@.servers.len(),
                out@.len() == i,
                forall|j: int|
                    0 <= j < i ==> (#[trigger] out@[j]).server_port
                        == self@.servers[j].config.port && out@[j].password
                        == self@.servers[j].config.password,
            decreases self@.servers.len() - i,
        {
            let entry = ServerEntry {
                server_port: self.servers[i].config.port,
                password: self.servers[i].config.password.clone(),
            };
            out.push(entry);
            i = i + 1;
        }
        out
    }

    /// For every live instance, the sum of its transmitted and received byte
    /// counters since instance start (saturating).
    pub fn handle_ping(&self) -> (r: Vec<(u16, u64)>)
        ensures
            ping_matches(self@.servers, r@),
    {
        let mut out: Vec<(u16, u64)> = Vec::new();
        let mut i: usize = 0;
        while i < self.servers.len()
            invariant
                i <= self@.servers.len(),
                out@.len() == i,
                forall|j: int|
                    0 <= j < i ==> (#[trigger] out@[j]).0 == self@.servers[j].config.port
                        && out@[j].1 == sat_add(
                        self@.servers[j].tx_bytes,
                        self@.servers[j].rx_bytes,
                    ),
            decreases self@.servers.len() - i,
        {
            let tx = self.servers[i].tx_bytes;
            let rx = self.servers[i].rx_bytes;
            let total: u64 = if tx <= u64::MAX - rx {
                tx + rx
            } else {
                u64::MAX
            };
            out.push((self.servers[i].config.port, total));
            i = i + 1;
        }
        out
    }

    /// Accepted and deliberately ignored: all managed instances run in the
    /// same process as the manager, so there is nothing to aggregate from a
    /// separate reporting channel.
    pub fn handle_stat(&self, _req: &StatRequest) {
    }

    /// Accounts transferred bytes to the instance on `port` (saturating).
    /// Returns whether such an instance is live; traffic on an unknown port
    /// changes nothing.
    pub fn record_traffic(&mut self, port: u16, tx_add: u64, rx_add: u64) -> (found: bool)
        requires
            fleet_wf(old(self)@),
        ensures
            fleet_wf(final(self)@),
            same_but_servers(final(self)@, old(self)@),
            final(self)@.servers.len() == old(self)@.servers.len(),
            forall|j: int|
                0 <= j < old(self)@.servers.len() ==> final(self)@.servers[j] == (if (
                #[trigger] old(self)@.servers[j]).config.port == port {
                    with_traffic(old(self)@.servers[j], tx_add, rx_add)
                } else {
                    old(self)@.servers[j]
                }),
            found == has_port(old(self)@.servers, port),
    {
        let ghost pre = self@.servers;
        let mut i: usize = 0;
        while i < self.servers.len()
            invariant
                i <= self@.servers.len(),
                self@.servers == pre,
                self@ == old(self)@,
                fleet_wf(old(self)@),
                forall|j: int| 0 <= j < i ==> (#[trigger] pre[j]).config.port != port,
            decreases self@.servers.len() - i,
        {
            if self.servers[i].config.port == port {
                let mut inst = self.servers.remove(i);
                let tx = inst.tx_bytes;
                let rx = inst.rx_bytes;
                inst.tx_bytes = if tx <= u64::MAX - tx_add {
                    tx + tx_add
                } else {
                    u64::MAX
                };
                inst.rx_bytes = if rx <= u64::MAX - rx_add {
                    rx + rx_add
                } else {
                    u64::MAX
                };
                self.servers.insert(i, inst);
                proof {
                    assert(self@.servers =~= pre.update(
                        i as int,
                        with_traffic(pre[i as int], tx_add, rx_add),
                    ));
                    assert forall|a: int, b: int|
                        0 <= a < b < self@.servers.len() implies (
                    #[trigger] self@.servers[a]).config.port != (
                    #[trigger] self@.servers[b]).config.port by {
                        assert(self@.servers[a].config.port == pre[a].config.port
                            && self@.servers[b].config.port == pre[b].config.port);
                    }
                    assert forall|j: int|
                        0 <= j < pre.len() && j != i implies (#[trigger] pre[j]).config.port
                        != port by {}
                }
                return true;
            }
            i = i + 1;
        }
        false
    }
}

} // verus!
