use tunnel_control::balancer::{probe_outcome, EndpointRegistry};
use tunnel_control::establish::{plan_connection, report_tunnel_failure, ConnectPlan};
use tunnel_control::fleet::{
    parse_mode, AddDecision, Manager, ManagerConfig, Mode, PluginDef, ServerDefinition, ServerHost,
};
use tunnel_control::protocol::{
    complete_add, handle_request, AddRequest, ControlAction, ManagerRequest, ManagerResponse,
    RemoveRequest, StatRequest,
};
use tunnel_control::server_stat::Score;

fn test_config() -> ManagerConfig {
    ManagerConfig { server_host: ServerHost::Ip("127.0.0.1".to_owned()), method: None }
}

fn definition(port: u16, password: &str) -> ServerDefinition {
    ServerDefinition {
        host: ServerHost::Ip("127.0.0.1".to_owned()),
        port,
        password: password.to_owned(),
        method: "aes-256-gcm".to_owned(),
        mode: Mode::TcpOnly,
        plugin: None,
    }
}

fn add_request(port: u16, password: &str) -> AddRequest {
    AddRequest {
        server_port: port,
        password: password.to_owned(),
        method: None,
        plugin: None,
        plugin_opts: None,
        mode: None,
    }
}

#[test]
fn add_on_occupied_port_replaces() {
    let mut mgr = Manager::new(test_config());
    mgr.add_server(definition(8388, "first"));
    assert_eq!(mgr.server_count(), 1);
    mgr.add_server(definition(8388, "second"));
    assert_eq!(mgr.server_count(), 1);
    let listed = mgr.handle_list();
    assert_eq!(listed.len(), 1);
    assert_eq!(listed[0].server_port, 8388);
    assert_eq!(listed[0].password, "second");
}

#[test]
fn remove_absent_port_is_ok() {
    let mut mgr = Manager::new(test_config());
    mgr.add_server(definition(8388, "pw"));
    let answer = mgr.handle_remove(&RemoveRequest { server_port: 9999 });
    assert_eq!(answer, "ok");
    let listed = mgr.handle_list();
    assert_eq!(listed.len(), 1);
    assert_eq!(listed[0].server_port, 8388);
    assert_eq!(listed[0].password, "pw");
}

#[test]
fn remove_evicts_instance() {
    let mut mgr = Manager::new(test_config());
    mgr.add_server(definition(8388, "pw"));
    mgr.add_server(definition(8389, "pw2"));
    let answer = mgr.handle_remove(&RemoveRequest { server_port: 8388 });
    assert_eq!(answer, "ok");
    assert!(!mgr.contains_port(8388));
    assert!(mgr.contains_port(8389));
}

#[test]
fn unrecognized_cipher_rejected() {
    let mgr = Manager::new(test_config());
    let mut req = add_request(8388, "pw");
    req.method = Some("no-such-cipher".to_owned());
    match mgr.handle_add(&req) {
        AddDecision::Reject(msg) => {
            assert_eq!(msg, "unrecognized method \"no-such-cipher\"");
        }
        AddDecision::Start(_) => panic!("bad cipher accepted"),
    }
}

#[test]
fn recognized_cipher_accepted() {
    let mgr = Manager::new(test_config());
    let mut req = add_request(8388, "pw");
    req.method = Some("aes-256-gcm".to_owned());
    match mgr.handle_add(&req) {
        AddDecision::Start(def) => {
            assert_eq!(def.method, "aes-256-gcm");
            assert_eq!(def.port, 8388);
            assert_eq!(def.password, "pw");
            assert_eq!(def.mode, Mode::TcpOnly);
            assert!(def.plugin.is_none());
        }
        AddDecision::Reject(msg) => panic!("rejected: {}", msg),
    }
}

#[test]
fn default_cipher_applied() {
    let mgr = Manager::new(test_config());
    match mgr.handle_add(&add_request(8388, "pw")) {
        AddDecision::Start(def) => assert_eq!(def.method, "chacha20-ietf-poly1305"),
        AddDecision::Reject(msg) => panic!("rejected: {}", msg),
    }
}

#[test]
fn configured_default_cipher_applied() {
    let cfg = ManagerConfig {
        server_host: ServerHost::Domain("example.com".to_owned()),
        method: Some("aes-128-gcm".to_owned()),
    };
    let mgr = Manager::new(cfg);
    match mgr.handle_add(&add_request(8388, "pw")) {
        AddDecision::Start(def) => {
            assert_eq!(def.method, "aes-128-gcm");
            match def.host {
                ServerHost::Domain(d) => assert_eq!(d, "example.com"),
                ServerHost::Ip(_) => panic!("wrong host kind"),
            }
        }
        AddDecision::Reject(msg) => panic!("rejected: {}", msg),
    }
}

#[test]
fn unrecognized_mode_rejected() {
    let mgr = Manager::new(test_config());
    let mut req = add_request(8388, "pw");
    req.mode = Some("bogus".to_owned());
    match mgr.handle_add(&req) {
        AddDecision::Reject(msg) => assert_eq!(msg, "unrecognized mode \"bogus\""),
        AddDecision::Start(_) => panic!("bad mode accepted"),
    }
}

#[test]
fn mode_strings_parse() {
    assert_eq!(parse_mode(&"tcp_only".to_owned()), Some(Mode::TcpOnly));
    assert_eq!(parse_mode(&"tcp_and_udp".to_owned()), Some(Mode::TcpAndUdp));
    assert_eq!(parse_mode(&"udp_only".to_owned()), Some(Mode::UdpOnly));
    assert_eq!(parse_mode(&"both".to_owned()), None);
}

#[test]
fn requested_mode_overrides_manager_default() {
    let mut mgr = Manager::new(test_config());
    mgr.set_mode(Mode::TcpAndUdp);
    let mut req = add_request(8388, "pw");
    req.mode = Some("udp_only".to_owned());
    match mgr.handle_add(&req) {
        AddDecision::Start(def) => assert_eq!(def.mode, Mode::UdpOnly),
        AddDecision::Reject(msg) => panic!("rejected: {}", msg),
    }
    match mgr.handle_add(&add_request(8389, "pw")) {
        AddDecision::Start(def) => assert_eq!(def.mode, Mode::TcpAndUdp),
        AddDecision::Reject(msg) => panic!("rejected: {}", msg),
    }
}

#[test]
fn plugin_carried_through() {
    let mgr = Manager::new(test_config());
    let mut req = add_request(8388, "pw");
    req.plugin = Some("v2ray-plugin".to_owned());
    req.plugin_opts = Some("server".to_owned());
    match mgr.handle_add(&req) {
        AddDecision::Start(def) => match def.plugin {
            Some(PluginDef { plugin, plugin_opts }) => {
                assert_eq!(plugin, "v2ray-plugin");
                assert_eq!(plugin_opts, Some("server".to_owned()));
            }
            None => panic!("plugin dropped"),
        },
        AddDecision::Reject(msg) => panic!("rejected: {}", msg),
    }
}

#[test]
fn dispatch_add_flow() {
    let mut mgr = Manager::new(test_config());
    let action = handle_request(&mut mgr, ManagerRequest::Add(add_request(9000, "pw")));
    let def = match action {
        ControlAction::StartInstance(def) => def,
        _ => panic!("expected an instance start"),
    };
    assert_eq!(mgr.server_count(), 0);
    let response = complete_add(&mut mgr, def);
    match response {
        ManagerResponse::Add(msg) => assert_eq!(msg, "ok"),
        _ => panic!("wrong response kind"),
    }
    assert!(mgr.contains_port(9000));
}

#[test]
fn dispatch_remove() {
    let mut mgr = Manager::new(test_config());
    mgr.add_server(definition(8388, "pw"));
    let action = handle_request(&mut mgr, ManagerRequest::Remove(RemoveRequest { server_port: 8388 }));
    match action {
        ControlAction::Respond(ManagerResponse::Remove(msg)) => assert_eq!(msg, "ok"),
        _ => panic!("wrong response kind"),
    }
    assert_eq!(mgr.server_count(), 0);
}

#[test]
fn dispatch_list() {
    let mut mgr = Manager::new(test_config());
    mgr.add_server(definition(8388, "pw1"));
    mgr.add_server(definition(8389, "pw2"));
    let action = handle_request(&mut mgr, ManagerRequest::List);
    match action {
        ControlAction::Respond(ManagerResponse::List(entries)) => {
            assert_eq!(entries.len(), 2);
            assert_eq!(entries[0].server_port, 8388);
            assert_eq!(entries[0].password, "pw1");
            assert_eq!(entries[1].server_port, 8389);
            assert_eq!(entries[1].password, "pw2");
        }
        _ => panic!("wrong response kind"),
    }
}

#[test]
fn dispatch_ping_totals() {
    let mut mgr = Manager::new(test_config());
    mgr.add_server(definition(8388, "pw"));
    assert!(mgr.record_traffic(8388, 5, 7));
    let action = handle_request(&mut mgr, ManagerRequest::Ping);
    match action {
        ControlAction::Respond(ManagerResponse::Ping(stat)) => {
            assert_eq!(stat.len(), 1);
            assert_eq!(stat[0], (8388, 12));
        }
        _ => panic!("wrong response kind"),
    }
}

#[test]
fn dispatch_stat_silent() {
    let mut mgr = Manager::new(test_config());
    mgr.add_server(definition(8388, "pw"));
    let action = handle_request(
        &mut mgr,
        ManagerRequest::Stat(StatRequest { stat: vec![(8388, 99)] }),
    );
    assert!(matches!(action, ControlAction::NoResponse));
    assert_eq!(mgr.server_count(), 1);
}

#[test]
fn record_traffic_unknown_port() {
    let mut mgr = Manager::new(test_config());
    mgr.add_server(definition(8388, "pw"));
    assert!(!mgr.record_traffic(9999, 5, 7));
    let stat = mgr.handle_ping();
    assert_eq!(stat[0], (8388, 0));
}

#[test]
fn selection_prefers_lower_score() {
    let mut reg = EndpointRegistry::new();
    reg.add_endpoint(1);
    reg.add_endpoint(2);
    // endpoint 1 gets a good probe, endpoint 0 keeps the pessimistic default
    reg.report_outcome(1, Score::Latency(100));
    assert_eq!(reg.select_best(), Some(1));
}

#[test]
fn selection_breaks_ties_by_insertion_order() {
    let mut reg = EndpointRegistry::new();
    reg.add_endpoint(1);
    reg.add_endpoint(2);
    assert_eq!(reg.select_best(), Some(0));
    reg.report_outcome(0, Score::Latency(100));
    reg.report_outcome(1, Score::Latency(100));
    assert_eq!(reg.select_best(), Some(0));
}

#[test]
fn registry_add_and_remove_mirror_fleet() {
    let mut reg = EndpointRegistry::new();
    reg.add_endpoint(1);
    reg.add_endpoint(2);
    reg.add_endpoint(1);
    assert_eq!(reg.len(), 2);
    reg.remove_endpoint(2);
    assert_eq!(reg.len(), 1);
    assert_eq!(reg.port_at(0), 1);
    reg.remove_endpoint(7);
    assert_eq!(reg.len(), 1);
}

#[test]
fn plan_bypass_never_touches_registry() {
    let reg = EndpointRegistry::new();
    let plan = plan_connection(&reg, true).unwrap();
    assert!(plan.is_bypassed());
    assert!(!plan.is_proxied());
}

#[test]
fn plan_without_endpoints_is_none() {
    let reg = EndpointRegistry::new();
    assert!(plan_connection(&reg, false).is_none());
}

#[test]
fn probe_outcomes() {
    assert_eq!(probe_outcome(true, 120), Score::Latency(120));
    assert_eq!(probe_outcome(true, 2000), Score::Latency(2000));
    assert_eq!(probe_outcome(true, 2001), Score::Errored);
    assert_eq!(probe_outcome(false, 50), Score::Errored);
}

#[test]
fn failure_feedback_changes_selection() {
    let mut reg = EndpointRegistry::new();
    reg.add_endpoint(1);
    reg.add_endpoint(2);
    reg.report_outcome(0, Score::Latency(100));
    reg.report_outcome(1, Score::Latency(100));
    // both endpoints score 10; the tie goes to the first
    let plan = plan_connection(&reg, false).unwrap();
    assert!(plan.is_proxied());
    assert!(matches!(plan, ConnectPlan::Proxied { endpoint: 0 }));

    // a failed tunneled attempt on endpoint 0 raises its failure rate...
    let new_score = report_tunnel_failure(&mut reg, 0);
    assert_eq!(reg.stat_at(0).failure_rate(), (1, 2));
    // ... (100/2000*200) + 600*(1/2) + 0 = 310 ...
    assert_eq!(new_score, 310);
    assert_eq!(reg.score_at(1), 10);
    // ... so the next selection avoids it
    assert!(matches!(plan_connection(&reg, false), Some(ConnectPlan::Proxied { endpoint: 1 })));
}
