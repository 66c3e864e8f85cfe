//! Control-protocol messages and their dispatch onto the fleet manager.
//!
//! One request arrives per datagram; the surrounding runtime decodes it into
//! a [`ManagerRequest`], hands it to [`handle_request`], performs the action
//! (starting an instance, sending the response) and encodes the response
//! back.  An undecodable datagram never reaches this module: the receive loop
//! drops it and continues.

use vstd::prelude::*;

use crate::fleet::{
    add_decision_spec, fleet_wf, list_matches, ping_matches, same_but_servers, without_port,
    AddDecision, Manager, ServerDefinition, ServerInstance,
};

verus! {

/// Request to start a backend instance.
pub struct AddRequest {
    pub server_port: u16,
    pub password: String,
    pub method: Option<String>,
    pub plugin: Option<String>,
    pub plugin_opts: Option<String>,
    pub mode: Option<String>,
}

/// Request to stop and evict the instance on a port.
pub struct RemoveRequest {
    pub server_port: u16,
}

/// Statistics report from a separately running server; carried by the
/// protocol but deliberately ignored by this manager.
pub struct StatRequest {
    pub stat: Vec<(u16, u64)>,
}

/// One decoded control-protocol request.
pub enum ManagerRequest {
    Add(AddRequest),
    Remove(RemoveRequest),
    List,
    Ping,
    Stat(StatRequest),
}

/// One instance as disclosed by a list response: port and password only.
pub struct ServerEntry {
    pub server_port: u16,
    pub password: String,
}

/// One encoded control-protocol response.
pub enum ManagerResponse {
    Add(String),
    Remove(String),
    List(Vec<ServerEntry>),
    Ping(Vec<(u16, u64)>),
    Error(String),
}

/// What the runtime must do with a handled request: send a response, start a
/// backend instance (and then commit it with [`complete_add`] or answer with
/// an error), or nothing.
pub enum ControlAction {
    Respond(ManagerResponse),
    StartInstance(ServerDefinition),
    NoResponse,
}

/// Dispatches one decoded request onto the manager.
///
/// - An add request is validated only: a rejection answers immediately, an
///   accepted one hands back the instance definition to start, leaving the
///   map unchanged until [`complete_add`].
/// - A remove request evicts the port's instance (idempotent) and answers
///   "ok".
/// - List and ping answer from a snapshot and change nothing.
/// - A stat report is accepted and ignored, with no response.
pub fn handle_request(m: &mut Manager, req: ManagerRequest) -> (r: ControlAction)
    requires
        fleet_wf(old(m)@),
    ensures
        fleet_wf(final(m)@),
        same_but_servers(final(m)@, old(m)@),
        match req {
            ManagerRequest::Add(areq) => final(m)@ == old(m)@ && match r {
                ControlAction::Respond(resp) => resp matches ManagerResponse::Add(msg)
                    && add_decision_spec(old(m)@, areq, AddDecision::Reject(msg)),
                ControlAction::StartInstance(def) => add_decision_spec(
                    old(m)@,
                    areq,
                    AddDecision::Start(def),
                ),
                ControlAction::NoResponse => false,
            },
            ManagerRequest::Remove(rreq) => {
                &&& final(m)@.servers =~= without_port(old(m)@.servers, rreq.server_port)
                &&& (r matches ControlAction::Respond(resp) && (resp
                    matches ManagerResponse::Remove(msg) && msg@ == "ok"@))
            },
            ManagerRequest::List => {
                &&& final(m)@ == old(m)@
                &&& (r matches ControlAction::Respond(resp) && (resp
                    matches ManagerResponse::List(v) && list_matches(old(m)@.servers, v@)))
            },
            ManagerRequest::Ping => {
                &&& final(m)@ == old(m)@
                &&& (r matches ControlAction::Respond(resp) && (resp
                    matches ManagerResponse::Ping(v) && ping_matches(old(m)@.servers, v@)))
            },
            ManagerRequest::Stat(_) => {
                &&& final(m)@ == old(m)@
                &&& r matches ControlAction::NoResponse
            },
        },
{
    match req {
        ManagerRequest::Add(areq) => match m.handle_add(&areq) {
            AddDecision::Reject(msg) => ControlAction::Respond(ManagerResponse::Add(msg)),
            AddDecision::Start(def) => ControlAction::StartInstance(def),
        },
        ManagerRequest::Remove(rreq) => {
            let msg = m.handle_remove(&rreq);
            ControlAction::Respond(ManagerResponse::Remove(msg))
        },
        ManagerRequest::List => ControlAction::Respond(ManagerResponse::List(m.handle_list())),
        ManagerRequest::Ping => ControlAction::Respond(ManagerResponse::Ping(m.handle_ping())),
        ManagerRequest::Stat(sreq) => {
            m.handle_stat(&sreq);
            ControlAction::NoResponse
        },
    }
}

/// Commits an instance that the runtime has successfully started, replacing
/// any instance previously on the port, and answers "ok".  A start failure is
/// answered by the runtime with an error response instead, leaving the map
/// untouched.
pub fn complete_add(m: &mut Manager, def: ServerDefinition) -> (r: ManagerResponse)
    requires
        fleet_wf(old(m)@),
    ensures
        fleet_wf(final(m)@),
        same_but_servers(final(m)@, old(m)@),
        final(m)@.servers =~= without_port(old(m)@.servers, def.port).push(
            ServerInstance { config: def, tx_bytes: 0, rx_bytes: 0 },
        ),
        r matches ManagerResponse::Add(msg) && msg@ == "ok"@,
{
    m.add_server(def);
    ManagerResponse::Add("ok".to_owned())
}

} // verus!
