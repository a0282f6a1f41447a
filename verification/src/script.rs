//! The hooks of a plugin that rides on a client's connection.

use crate::server::RICSServer;
use vstd::prelude::*;

verus! {

/// What a plugin engine answers to. Each hook tells whether it went well.
///
/// An engine decides for itself what its hooks do and when they fail, so
/// the hooks promise nothing of an engine that brings its own. What is
/// stated here is what the hooks do where an engine leaves them as they
/// are: they succeed, and the client stays as it was.
pub trait ScriptingInterface {
    /// Called once the engine exists.
    fn initialize(&self) -> (ok: bool)
        default_ensures
            ok,
    {
        true
    }

    /// Called once the client is a node of the daemon.
    fn start(&self, _svr: &mut RICSServer, _node: i32) -> (ok: bool)
        default_ensures
            ok,
            final(_svr)@ == old(_svr)@,
    {
        true
    }

    /// Called for each CAN packet that reaches the client.
    fn can_rx(&self, _svr: &mut RICSServer, _id: u32, _data: Vec<u8>) -> (ok: bool)
        default_ensures
            ok,
            final(_svr)@ == old(_svr)@,
    {
        true
    }

    /// Called as often as possible while no packet waits. It should return
    /// soon, and under heavy traffic it may never be called.
    fn update(&self, _svr: &mut RICSServer) -> (ok: bool)
        default_ensures
            ok,
            final(_svr)@ == old(_svr)@,
    {
        true
    }
}

/// Holds the engine that a client runs.
pub struct ScriptingInterfaceWrapper {
    pub iface: Box<dyn ScriptingInterface>,
}

/// The engine that does nothing: every hook succeeds and leaves the client
/// as it is.
pub struct NoEngine;

impl ScriptingInterface for NoEngine {
    fn initialize(&self) -> (ok: bool)
        ensures
            ok,
    {
        true
    }

    fn start(&self, _svr: &mut RICSServer, _node: i32) -> (ok: bool)
        ensures
            ok,
            final(_svr)@ == old(_svr)@,
    {
        true
    }

    fn can_rx(&self, _svr: &mut RICSServer, _id: u32, _data: Vec<u8>) -> (ok: bool)
        ensures
            ok,
            final(_svr)@ == old(_svr)@,
    {
        true
    }

    fn update(&self, _svr: &mut RICSServer) -> (ok: bool)
        ensures
            ok,
            final(_svr)@ == old(_svr)@,
    {
        true
    }
}

} // verus!
