//! The client session: connection configuration, the connect-time plan,
//! the session state the dispatcher owns, and the client-side error
//! taxonomy for transport-level failures.

use vstd::prelude::*;

use crate::framing::FrameState;
use crate::wire::{Request, Response};

verus! {

/// Transport-encryption settings: the path of the certificate-authority
/// bundle to trust.
#[derive(Clone)]
pub struct TlsConfig {
    pub ca_file: String,
}

/// Credentials for the authentication handshake.
#[derive(Clone)]
pub struct AuthConfig {
    pub username: String,
    pub password: String,
}

/// Everything a connection attempt needs.
#[derive(Clone)]
pub struct RustbaseConfig {
    pub tls: Option<TlsConfig>,
    pub host: String,
    pub port: String,
    pub database: String,
    pub auth: Option<AuthConfig>,
}

/// What connect time decides from the configuration: which transport to
/// open and whether to run the handshake. The choice is immutable for
/// the session's lifetime.
pub struct ConnectPlan {
    pub use_tls: bool,
    pub ca_file: Option<String>,
    pub authenticate: bool,
}

/// The connect-time decision: encrypt exactly when a TLS section is
/// configured, with its bundle path, and authenticate exactly when
/// credentials are configured.
pub fn connect_plan(config: &RustbaseConfig) -> (r: ConnectPlan)
    ensures
        r.use_tls == (config.tls is Some),
        match config.tls {
            Some(tls) => r.ca_file == Some(tls.ca_file),
            None => r.ca_file is None,
        },
        r.authenticate == (config.auth is Some),
{
    let (use_tls, ca_file) = match &config.tls {
        Some(tls) => (true, Some(tls.ca_file.clone())),
        None => (false, None),
    };
    ConnectPlan { use_tls, ca_file, authenticate: matches!(config.auth, Some(_)) }
}

/// Authentication progress of a session. `Failed` is terminal: the
/// connection is unusable for queries afterward.
#[derive(Clone, Copy, Debug, PartialEq, Eq, Structural)]
pub enum AuthState {
    Unauthenticated,
    Authenticating,
    Authenticated,
    Failed,
}

/// A client-side failure, distinct from any server-reported status.
#[derive(Clone, Copy, Debug, PartialEq, Eq, Structural)]
pub enum ClientError {
    /// The peer closed the connection mid-message (a zero-byte read).
    ConnectionClosed,
    /// The response bytes did not decode into a response envelope.
    BadResponse,
    /// The session is not in a state that may carry queries.
    NotReady,
}

impl ClientError {
    /// A human-readable description of the failure.
    pub fn message(&self) -> (r: &'static str)
        ensures
            r@ == self.spec_message(),
    {
        match self {
            ClientError::ConnectionClosed => "connection closed by the server",
            ClientError::BadResponse => "could not decode the server response",
            ClientError::NotReady => "session is not ready for queries",
        }
    }

    /// The description text of each failure.
    pub open spec fn spec_message(&self) -> Seq<char> {
        match self {
            ClientError::ConnectionClosed => "connection closed by the server"@,
            ClientError::BadResponse => "could not decode the server response"@,
            ClientError::NotReady => "session is not ready for queries"@,
        }
    }
}

/// A framed read that did not complete is a connection-closed condition,
/// never an empty success.
pub fn check_frame_complete(state: FrameState) -> (r: Result<(), ClientError>)
    ensures
        r == (if state == FrameState::Complete {
            Ok::<(), ClientError>(())
        } else {
            Err::<(), ClientError>(ClientError::ConnectionClosed)
        }),
{
    if matches!(state, FrameState::Complete) {
        Ok(())
    } else {
        Err(ClientError::ConnectionClosed)
    }
}

/// The session state the dispatcher owns: the selected database name
/// and the authentication progress. The transport handle itself lives
/// with the I/O layer and is immutable for the session's lifetime.
pub struct Rustbase {
    pub database: String,
    pub auth_state: AuthState,
}

impl Rustbase {
    /// A fresh session on `database`, not yet authenticated.
    pub fn new(database: String) -> (r: Rustbase)
        ensures
            r.database == database,
            r.auth_state == AuthState::Unauthenticated,
    {
        Rustbase { database, auth_state: AuthState::Unauthenticated }
    }

    /// Records a transport-level failure — a connection closed
    /// mid-message or a response that did not decode. Such a failure is
    /// fatal to the connection: the session refuses every further query
    /// and the caller must reconnect.
    pub fn mark_failed(&mut self)
        ensures
            final(self).auth_state == AuthState::Failed,
            final(self).database == old(self).database,
    {
        self.auth_state = AuthState::Failed;
    }

    /// The explicit switch-namespace operation: the one mutation of the
    /// selected database name.
    pub fn switch_database(&mut self, name: String)
        ensures
            final(self).database == name,
            final(self).auth_state == old(self).auth_state,
    {
        self.database = name;
    }

    /// Whether a query may be dispatched now: never while the handshake
    /// runs, and never after it failed.
    pub fn can_dispatch(&self) -> (r: bool)
        ensures
            r == (self.auth_state == AuthState::Unauthenticated || self.auth_state
                == AuthState::Authenticated),
    {
        matches!(self.auth_state, AuthState::Unauthenticated | AuthState::Authenticated)
    }

    /// Builds the request envelope for one query line on this session's
    /// database, only when the session may carry queries.
    pub fn request_query(&self, query: &str) -> (r: Result<Request, ClientError>)
        ensures
            match r {
                Ok(req) => (self.auth_state == AuthState::Unauthenticated || self.auth_state
                    == AuthState::Authenticated) && req.header.type_ == crate::wire::Type::Query
                    && req.header.auth is None && req.body@ == crate::wire::query_body_model(
                    query@,
                    self.database@,
                ),
                Err(e) => e == ClientError::NotReady && self.auth_state != AuthState::Unauthenticated
                    && self.auth_state != AuthState::Authenticated,
            },
    {
        if !self.can_dispatch() {
            return Err(ClientError::NotReady);
        }
        Ok(crate::wire::build_query_request(query, self.database.as_str()))
    }

    /// Turns a received response into the lines to show.
    pub fn handle_response(&self, resp: &Response) -> (lines: Vec<String>)
        ensures
            crate::wire::is_success(resp.header.status) ==> (match resp.body {
                Some(v) => lines@.len() == 1 && lines@[0]@ == crate::render::ser_model(v@),
                None => lines@.len() == 1 && lines@[0]@ == resp.header.status.spec_name(),
            }),
            !crate::wire::is_success(resp.header.status) ==> (match resp.header.messages {
                Some(msgs) => lines@.len() == msgs@.len() && (forall|i: int|
                    0 <= i < msgs@.len() ==> (#[trigger] lines@[i])@ == msgs@[i]@),
                None => lines@.len() == 0,
            }),
    {
        crate::wire::render_response(resp)
    }
}

} // verus!
