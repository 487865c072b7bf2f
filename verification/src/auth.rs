//! The client side of the salted challenge–response authentication
//! handshake: a three-message exchange run once per connection before
//! any query traffic. The cryptography and the message formats are the
//! `scram` crate's (SCRAM-SHA-256); this module owns the sequencing and
//! the fail-closed state machine around it.

use vstd::prelude::*;
use vstd::string::StrSliceExecFns;

use crate::session::{AuthConfig, AuthState, Rustbase};

verus! {

#[verifier::external_type_specification]
#[verifier::external_body]
pub struct ExScramClient<'a>(scram::ScramClient<'a>);

#[verifier::external_type_specification]
#[verifier::external_body]
pub struct ExScramServerFirst<'a>(scram::client::ServerFirst<'a>);

#[verifier::external_type_specification]
#[verifier::external_body]
pub struct ExScramClientFinal(scram::client::ClientFinal);

#[verifier::external_type_specification]
#[verifier::external_body]
pub struct ExScramServerFinal(scram::client::ServerFinal);

/// Why the handshake failed. Either way the session is unusable for
/// queries afterward.
#[derive(Clone, Copy, Debug, PartialEq, Eq, Structural)]
pub enum AuthError {
    /// A server message was malformed, carried an unsupported
    /// extension, or its combined nonce did not extend the client's.
    Malformed,
    /// The server rejected the credentials, or its verification
    /// signature did not match the expected value.
    Rejected,
}

impl AuthError {
    /// A human-readable description of the failure.
    pub fn message(&self) -> (r: &'static str)
        ensures
            r@ == self.spec_message(),
    {
        match self {
            AuthError::Malformed => "malformed authentication message from the server",
            AuthError::Rejected => "the server rejected the authentication attempt",
        }
    }

    /// The description text of each failure.
    pub open spec fn spec_message(&self) -> Seq<char> {
        match self {
            AuthError::Malformed => "malformed authentication message from the server"@,
            AuthError::Rejected => "the server rejected the authentication attempt"@,
        }
    }
}

/// The shape the scram crate's first-message parser indexes into
/// without looking: every comma-separated part of the message holds at
/// least two characters. SCRAM messages are ASCII field lists, so every
/// well-formed server message has it; a message without it is malformed
/// and is rejected before the crate sees it.
pub open spec fn scram_parts_ok(s: Seq<char>) -> bool {
    &&& s.len() >= 2
    &&& s[0] != ','
    &&& s[1] != ','
    &&& forall|i: int|
        0 <= i < s.len() && #[trigger] s[i] == ',' ==> i + 3 <= s.len() && s[i + 1] != ','
            && s[i + 2] != ','
}

/// Checks [`scram_parts_ok`], executably.
fn scram_parts_check(msg: &str) -> (r: bool)
    ensures
        r == scram_parts_ok(msg@),
{
    let n = msg.unicode_len();
    if n < 2 {
        return false;
    }
    if msg.get_char(0) == ',' || msg.get_char(1) == ',' {
        return false;
    }
    let mut i: usize = 0;
    while i < n
        invariant
            2 <= n,
            n == msg@.len(),
            i <= n,
            msg@[0] != ',',
            msg@[1] != ',',
            forall|j: int|
                0 <= j < i as int && #[trigger] msg@[j] == ',' ==> j + 3 <= n && msg@[j + 1] != ','
                    && msg@[j + 2] != ',',
        decreases n - i,
    {
        let c = msg.get_char(i);
        if c == ',' {
            if n - i < 3 {
                assert(msg@[i as int] == ',');
                return false;
            }
            if msg.get_char(i + 1) == ',' || msg.get_char(i + 2) == ',' {
                assert(msg@[i as int] == ',');
                return false;
            }
        }
        i += 1;
    }
    true
}

/// Relies on scram::ScramClient::new: builds the client state for one
/// SCRAM-SHA-256 exchange from the credentials, with a fresh random
/// nonce and no authorization identity.
#[verifier::external_body]
fn scram_new<'a>(user: &'a str, pass: &'a str) -> scram::ScramClient<'a> {
    scram::ScramClient::new(user, pass, None)
}

/// Relies on scram::client::ScramClient::client_first: computes the
/// first client message and the state that awaits the server's reply.
/// The message is the gs2 header, the username and the client nonce;
/// every gs2 header the crate builds starts with `n` followed by a
/// comma, so the message is never empty.
#[verifier::external_body]
fn scram_client_first<'a>(sc: scram::ScramClient<'a>) -> (r: (
    scram::client::ServerFirst<'a>,
    String,
))
    ensures
        r.1@.len() >= 3,
        r.1@[0] == 'n',
        r.1@[1] == ',',
{
    sc.client_first()
}

/// Relies on scram::client::ServerFirst::handle_server_first: parses the
/// server's salt, iteration count and combined nonce, verifies the
/// combined nonce extends the client's own, and derives the keyed
/// proofs; any mismatch is an error, and only malformed-message errors
/// can come back from this step. The crate's parser indexes two bytes
/// into every comma-separated part, so the caller must have checked
/// [`scram_parts_ok`] first.
#[verifier::external_body]
fn scram_handle_server_first<'a>(
    st: scram::client::ServerFirst<'a>,
    msg: &str,
) -> (r: Result<scram::client::ClientFinal, AuthError>)
    requires
        scram_parts_ok(msg@),
    ensures
        r is Err ==> r->Err_0 == AuthError::Malformed,
{
    match st.handle_server_first(msg) {
        Ok(cf) => Ok(cf),
        Err(_) => Err(AuthError::Malformed),
    }
}

/// Relies on scram::client::ClientFinal::client_final: hands out the
/// final client message carrying the proof, and the state that checks
/// the server's verification signature. The crate builds that message
/// as `c=...,r=...,p=...`, so it always starts with `c=`.
#[verifier::external_body]
fn scram_client_final(st: scram::client::ClientFinal) -> (r: (
    scram::client::ServerFinal,
    String,
))
    ensures
        r.1@.len() >= 2,
        r.1@[0] == 'c',
        r.1@[1] == '=',
{
    st.client_final()
}

/// Relies on scram::client::ServerFinal::handle_server_final: checks the
/// server's verification signature against the value derived from the
/// shared secret; a wrong signature or a server-sent error is a
/// rejection, everything else malformed. The crate's parser slices the
/// message at byte two, so the caller must have checked the message is
/// ASCII first.
#[verifier::external_body]
fn scram_handle_server_final(
    st: scram::client::ServerFinal,
    msg: &str,
) -> Result<(), AuthError>
    requires
        vstd::string::is_ascii(msg),
{
    match st.handle_server_final(msg) {
        Ok(()) => Ok(()),
        Err(scram::Error::InvalidServer) => Err(AuthError::Rejected),
        Err(scram::Error::Authentication(_)) => Err(AuthError::Rejected),
        Err(_) => Err(AuthError::Malformed),
    }
}

/// Where the handshake stands, holding the cryptographic state between
/// the messages.
pub enum HandshakeStep<'a> {
    /// The first client message was sent; the server's salt, iteration
    /// count and combined nonce are awaited.
    AwaitingFirst(scram::client::ServerFirst<'a>),
    /// The final client message was sent; the server's verification
    /// signature is awaited.
    AwaitingFinal(scram::client::ServerFinal),
    /// The server's signature checked out.
    Done,
    /// A step failed; terminal.
    Failed,
}

/// The session state a handshake step stands for.
pub open spec fn step_auth_state<'a>(h: &HandshakeStep<'a>) -> AuthState {
    match h {
        HandshakeStep::AwaitingFirst(_) => AuthState::Authenticating,
        HandshakeStep::AwaitingFinal(_) => AuthState::Authenticating,
        HandshakeStep::Done => AuthState::Authenticated,
        HandshakeStep::Failed => AuthState::Failed,
    }
}

/// Opens the handshake: derives the first client message from the
/// credentials and a fresh client nonce. The caller sends the message
/// over the session's own transport.
pub fn start_handshake<'a>(auth: &'a AuthConfig) -> (r: (HandshakeStep<'a>, String))
    ensures
        step_auth_state(&r.0) == AuthState::Authenticating,
        r.0 is AwaitingFirst,
        r.1@.len() >= 3 && r.1@[0] == 'n' && r.1@[1] == ',',
{
    let sc = scram_new(auth.username.as_str(), auth.password.as_str());
    let (st, first) = scram_client_first(sc);
    (HandshakeStep::AwaitingFirst(st), first)
}

/// Handles the server's first message (salt, iteration count, combined
/// nonce). On success the final client message carrying the proof is
/// returned for the caller to send; on any mismatch — including a
/// message whose shape the crate's parser cannot even read — the
/// handshake fails closed.
pub fn handle_server_first<'a>(h: HandshakeStep<'a>, msg: &str) -> (r: (
    HandshakeStep<'a>,
    Result<String, AuthError>,
))
    requires
        h is AwaitingFirst,
    ensures
        r.1 is Ok <==> r.0 is AwaitingFinal,
        (match r.1 {
            Ok(m) => m@.len() >= 2 && m@[0] == 'c' && m@[1] == '=',
            Err(_) => true,
        }),
        r.1 is Err ==> r.0 is Failed && r.1->Err_0 == AuthError::Malformed,
{
    if !scram_parts_check(msg) {
        return (HandshakeStep::Failed, Err(AuthError::Malformed));
    }
    match h {
        HandshakeStep::AwaitingFirst(st) => match scram_handle_server_first(st, msg) {
            Ok(cf) => {
                let (sf, final_msg) = scram_client_final(cf);
                (HandshakeStep::AwaitingFinal(sf), Ok(final_msg))
            },
            Err(e) => (HandshakeStep::Failed, Err(e)),
        },
        _ => vstd::pervasive::unreached(),
    }
}

/// Handles the server's last message: its verification signature. Only
/// a matching signature authenticates; anything else — including a
/// non-ASCII message the crate's parser cannot slice — fails closed.
pub fn handle_server_final<'a>(h: HandshakeStep<'a>, msg: &str) -> (r: (
    HandshakeStep<'a>,
    Result<(), AuthError>,
))
    requires
        h is AwaitingFinal,
    ensures
        r.1 is Ok <==> r.0 is Done,
        r.1 is Err ==> r.0 is Failed,
{
    if !msg.is_ascii() {
        return (HandshakeStep::Failed, Err(AuthError::Malformed));
    }
    match h {
        HandshakeStep::AwaitingFinal(st) => match scram_handle_server_final(st, msg) {
            Ok(()) => (HandshakeStep::Done, Ok(())),
            Err(e) => (HandshakeStep::Failed, Err(e)),
        },
        _ => vstd::pervasive::unreached(),
    }
}

/// Records the handshake's progress on the session: queries stay shut
/// out while the handshake runs, and forever after a failure.
pub fn apply_handshake<'a>(session: &mut Rustbase, h: &HandshakeStep<'a>)
    ensures
        final(session).auth_state == step_auth_state(h),
        final(session).database == old(session).database,
{
    session.auth_state = match h {
        HandshakeStep::AwaitingFirst(_) => AuthState::Authenticating,
        HandshakeStep::AwaitingFinal(_) => AuthState::Authenticating,
        HandshakeStep::Done => AuthState::Authenticated,
        HandshakeStep::Failed => AuthState::Failed,
    };
}

} // verus!
