//! The lifecycle and feature layer over the client: the initialize
//! handshake and the five document operations the editor uses.
//!
//! Each operation builds its parameter text, sends the request or
//! notification, and, for requests, waits for the matching response
//! within the inbound bytes it is handed.

use vstd::prelude::*;
use crate::client::{
    await_spec, notification_frame, request_frame, state_after_await, AwaitSpec, ClientError,
    ClientErrorModel, TexlabManager,
};
use crate::params::{
    did_change_params, did_change_params_ex, did_open_params, did_open_params_ex,
    initialize_params, initialize_params_ex, l_empty_obj, l_settings, m_completion,
    m_completion_vec, m_definition, m_definition_vec, m_did_change, m_did_change_configuration,
    m_did_change_configuration_vec, m_did_change_vec, m_did_open, m_did_open_vec, m_hover,
    m_hover_vec, m_initialize, m_initialize_vec, m_initialized, m_initialized_vec,
    position_params, position_params_ex,
};

verus! {

impl TexlabManager {
    /// Performs the protocol handshake on a running client: an
    /// `initialize` request, and, once it succeeds, the `initialized`
    /// and configuration notifications.
    ///
    /// A handshake failure after the process started is reported but
    /// does not leave the running state: the caller may retry the
    /// handshake or stop the client.
    pub fn initialize_handshake(
        &mut self,
        pid: u64,
        root_uri: &[u8],
        inbound: &[u8],
        pos: &mut usize,
        out: &mut Vec<u8>,
    ) -> (r: Result<Vec<u8>, ClientError>)
        requires
            old(self)@.request_id < i64::MAX,
            *old(pos) <= inbound@.len(),
        ensures
            *final(pos) <= inbound@.len(),
            !(old(self)@.state is Running) ==> (r matches Err(e) && e@
                == ClientErrorModel::NotRunning) && final(self)@ == old(self)@ && final(out)@
                == old(out)@ && *final(pos) == *old(pos),
            old(self)@.state is Running ==> final(self)@.request_id == old(self)@.request_id + 1
                && final(self)@.state == state_after_await(
                await_spec(inbound@, *old(pos) as int, old(self)@.request_id + 1, true),
            ) && match await_spec(
                inbound@,
                *old(pos) as int,
                old(self)@.request_id + 1,
                true,
            ) {
                AwaitSpec::NeedMore { .. } => false,
                AwaitSpec::Done { result, next } => (r matches Ok(v) && v@ == result)
                    && *final(pos) == next && final(out)@ == old(out)@ + request_frame(
                    old(self)@.request_id + 1,
                    m_initialize(),
                    Option::Some(initialize_params(pid as nat, root_uri@)),
                ) + notification_frame(m_initialized(), Option::Some(l_empty_obj()))
                    + notification_frame(
                    m_did_change_configuration(),
                    Option::Some(l_settings()),
                ),
                AwaitSpec::Failed { err, next } => (r matches Err(e) && e@ == err) && *final(pos)
                    == next && final(out)@ == old(out)@ + request_frame(
                    old(self)@.request_id + 1,
                    m_initialize(),
                    Option::Some(initialize_params(pid as nat, root_uri@)),
                ),
            },
    {
        let params = initialize_params_ex(pid, root_uri);
        let method = m_initialize_vec();
        let result = match self.send_request(
            method.as_slice(),
            Option::Some(params.as_slice()),
            inbound,
            pos,
            out,
        ) {
            Result::Err(e) => {
                return Result::Err(e);
            },
            Result::Ok(v) => v,
        };
        let initialized_m = m_initialized_vec();
        let empty = crate::params::empty_params_ex();
        match self.send_notification(initialized_m.as_slice(), Option::Some(empty.as_slice()), out)
        {
            Result::Ok(_) => {},
            Result::Err(_) => {
                proof {
                    assert(false);
                }
            },
        }
        let config_m = m_did_change_configuration_vec();
        let settings = crate::params::settings_params_ex();
        match self.send_notification(config_m.as_slice(), Option::Some(settings.as_slice()), out) {
            Result::Ok(_) => {},
            Result::Err(_) => {
                proof {
                    assert(false);
                }
            },
        }
        Result::Ok(result)
    }

    /// Requests completion items at a position of a document.
    pub fn completion(
        &mut self,
        uri: &[u8],
        line: u32,
        character: u32,
        inbound: &[u8],
        pos: &mut usize,
        out: &mut Vec<u8>,
    ) -> (r: Result<Vec<u8>, ClientError>)
        requires
            old(self)@.request_id < i64::MAX,
            *old(pos) <= inbound@.len(),
        ensures
            *final(pos) <= inbound@.len(),
            !(old(self)@.state is Running) ==> (r matches Err(e) && e@
                == ClientErrorModel::NotRunning) && final(self)@ == old(self)@ && final(out)@
                == old(out)@ && *final(pos) == *old(pos),
            old(self)@.state is Running ==> final(self)@.request_id == old(self)@.request_id + 1
                && final(self)@.state == state_after_await(
                await_spec(inbound@, *old(pos) as int, old(self)@.request_id + 1, true),
            ) && final(out)@ == old(out)@ + request_frame(
                old(self)@.request_id + 1,
                m_completion(),
                Option::Some(position_params(uri@, line as nat, character as nat)),
            ) && match await_spec(
                inbound@,
                *old(pos) as int,
                old(self)@.request_id + 1,
                true,
            ) {
                AwaitSpec::NeedMore { .. } => false,
                AwaitSpec::Done { result, next } => (r matches Ok(v) && v@ == result)
                    && *final(pos) == next,
                AwaitSpec::Failed { err, next } => (r matches Err(e) && e@ == err) && *final(pos)
                    == next,
            },
    {
        let params = position_params_ex(uri, line, character);
        let method = m_completion_vec();
        self.send_request(method.as_slice(), Option::Some(params.as_slice()), inbound, pos, out)
    }

    /// Requests hover information at a position of a document.
    pub fn hover(
        &mut self,
        uri: &[u8],
        line: u32,
        character: u32,
        inbound: &[u8],
        pos: &mut usize,
        out: &mut Vec<u8>,
    ) -> (r: Result<Vec<u8>, ClientError>)
        requires
            old(self)@.request_id < i64::MAX,
            *old(pos) <= inbound@.len(),
        ensures
            *final(pos) <= inbound@.len(),
            !(old(self)@.state is Running) ==> (r matches Err(e) && e@
                == ClientErrorModel::NotRunning) && final(self)@ == old(self)@ && final(out)@
                == old(out)@ && *final(pos) == *old(pos),
            old(self)@.state is Running ==> final(self)@.request_id == old(self)@.request_id + 1
                && final(self)@.state == state_after_await(
                await_spec(inbound@, *old(pos) as int, old(self)@.request_id + 1, true),
            ) && final(out)@ == old(out)@ + request_frame(
                old(self)@.request_id + 1,
                m_hover(),
                Option::Some(position_params(uri@, line as nat, character as nat)),
            ) && match await_spec(
                inbound@,
                *old(pos) as int,
                old(self)@.request_id + 1,
                true,
            ) {
                AwaitSpec::NeedMore { .. } => false,
                AwaitSpec::Done { result, next } => (r matches Ok(v) && v@ == result)
                    && *final(pos) == next,
                AwaitSpec::Failed { err, next } => (r matches Err(e) && e@ == err) && *final(pos)
                    == next,
            },
    {
        let params = position_params_ex(uri, line, character);
        let method = m_hover_vec();
        self.send_request(method.as_slice(), Option::Some(params.as_slice()), inbound, pos, out)
    }

    /// Requests the definition sites of the symbol at a position.
    pub fn definition(
        &mut self,
        uri: &[u8],
        line: u32,
        character: u32,
        inbound: &[u8],
        pos: &mut usize,
        out: &mut Vec<u8>,
    ) -> (r: Result<Vec<u8>, ClientError>)
        requires
            old(self)@.request_id < i64::MAX,
            *old(pos) <= inbound@.len(),
        ensures
            *final(pos) <= inbound@.len(),
            !(old(self)@.state is Running) ==> (r matches Err(e) && e@
                == ClientErrorModel::NotRunning) && final(self)@ == old(self)@ && final(out)@
                == old(out)@ && *final(pos) == *old(pos),
            old(self)@.state is Running ==> final(self)@.request_id == old(self)@.request_id + 1
                && final(self)@.state == state_after_await(
                await_spec(inbound@, *old(pos) as int, old(self)@.request_id + 1, true),
            ) && final(out)@ == old(out)@ + request_frame(
                old(self)@.request_id + 1,
                m_definition(),
                Option::Some(position_params(uri@, line as nat, character as nat)),
            ) && match await_spec(
                inbound@,
                *old(pos) as int,
                old(self)@.request_id + 1,
                true,
            ) {
                AwaitSpec::NeedMore { .. } => false,
                AwaitSpec::Done { result, next } => (r matches Ok(v) && v@ == result)
                    && *final(pos) == next,
                AwaitSpec::Failed { err, next } => (r matches Err(e) && e@ == err) && *final(pos)
                    == next,
            },
    {
        let params = position_params_ex(uri, line, character);
        let method = m_definition_vec();
        self.send_request(method.as_slice(), Option::Some(params.as_slice()), inbound, pos, out)
    }

    /// Announces a newly opened document; nothing is awaited.
    pub fn did_open(
        &mut self,
        uri: &[u8],
        language_id: &[u8],
        version: i32,
        text: &[u8],
        out: &mut Vec<u8>,
    ) -> (r: Result<(), ClientError>)
        ensures
            final(self)@ == old(self)@,
            !(old(self)@.state is Running) ==> (r matches Err(e) && e@
                == ClientErrorModel::NotRunning) && final(out)@ == old(out)@,
            old(self)@.state is Running ==> r is Ok && final(out)@ == old(out)@
                + notification_frame(
                m_did_open(),
                Option::Some(did_open_params(uri@, language_id@, version as int, text@)),
            ),
    {
        let params = did_open_params_ex(uri, language_id, version, text);
        let method = m_did_open_vec();
        self.send_notification(method.as_slice(), Option::Some(params.as_slice()), out)
    }

    /// Announces a document's new text; nothing is awaited.
    pub fn did_change(
        &mut self,
        uri: &[u8],
        version: i32,
        text: &[u8],
        out: &mut Vec<u8>,
    ) -> (r: Result<(), ClientError>)
        ensures
            final(self)@ == old(self)@,
            !(old(self)@.state is Running) ==> (r matches Err(e) && e@
                == ClientErrorModel::NotRunning) && final(out)@ == old(out)@,
            old(self)@.state is Running ==> r is Ok && final(out)@ == old(out)@
                + notification_frame(
                m_did_change(),
                Option::Some(did_change_params(uri@, version as int, text@)),
            ),
    {
        let params = did_change_params_ex(uri, version, text);
        let method = m_did_change_vec();
        self.send_notification(method.as_slice(), Option::Some(params.as_slice()), out)
    }
}

} // verus!
