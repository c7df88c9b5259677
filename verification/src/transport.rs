//! The transport decisions: which of the two mutually exclusive modes a
//! configuration selects, what each connection outcome means, and the
//! address the listener binds.
//!
//! The caller owns the sockets. It asks `select_mode` what to do, opens
//! the outbound connection or accepts the single inbound one, and maps
//! what happened through `connect_outcome` / `accept_outcome`; the
//! library decides, the caller performs.

use vstd::prelude::*;

use crate::fstree::copy_bytes;

verus! {

/// A validated configuration: the sending side's paths and remote
/// address, or the receiving side's port and destination directory.
pub struct Config {
    /// Paths to be packed into the archive (send mode).
    pub mappings: Vec<Vec<u8>>,
    /// Remote `host:port` to serve the archive to; empty when absent.
    pub serve_address: Vec<u8>,
    /// Local port to accept one connection on; zero when absent.
    pub listen_port: u16,
    /// Directory the received archive is unpacked under.
    pub listen_destination: Vec<u8>,
}

/// The mode one invocation runs in: exactly one of sending an archive to
/// a remote address or receiving one for a destination directory.
#[derive(Debug)]
pub enum Mode {
    Send { address: Vec<u8> },
    Receive { port: u16, destination: Vec<u8> },
}

/// Neither a serve address nor a listen port was configured.
#[derive(Clone, Copy, PartialEq, Eq, Structural, Debug)]
pub enum ConfigError {
    InvalidMode,
}

/// A transport failure around the single transfer.
#[derive(Debug)]
pub enum TransportError {
    /// The outbound connection to `address` could not be established;
    /// `cause` is the underlying error rendered as bytes.
    Connect { address: Vec<u8>, cause: Vec<u8> },
    /// No client connected within the configured wait.
    NoConnection,
    /// The sink rejected a write while the archive was streamed out;
    /// `cause` is the underlying error rendered as bytes.
    SinkWrite { cause: Vec<u8> },
}

/// Selects the mode a configuration asks for: a non-empty serve address
/// means send; otherwise a non-zero listen port means receive; otherwise
/// the invocation is invalid.
pub fn select_mode(config: &Config) -> (r: Result<Mode, ConfigError>)
    ensures
        config.serve_address@.len() > 0 ==> r is Ok && r->Ok_0 is Send
            && r->Ok_0->Send_address@ == config.serve_address@,
        config.serve_address@.len() == 0 && config.listen_port != 0 ==> r is Ok
            && r->Ok_0 is Receive && r->Ok_0->Receive_port == config.listen_port
            && r->Ok_0->Receive_destination@ == config.listen_destination@,
        config.serve_address@.len() == 0 && config.listen_port == 0 ==> r is Err,
{
    if config.serve_address.len() > 0 {
        Ok(Mode::Send { address: copy_bytes(&config.serve_address) })
    } else if config.listen_port != 0 {
        Ok(
            Mode::Receive {
                port: config.listen_port,
                destination: copy_bytes(&config.listen_destination),
            },
        )
    } else {
        Err(ConfigError::InvalidMode)
    }
}

/// Maps the outcome of the single outbound connection attempt: success
/// proceeds, failure is a connect error naming the address, with no
/// retry.
pub fn connect_outcome(connected: bool, address: &Vec<u8>, cause: Vec<u8>) -> (r: Result<
    (),
    TransportError,
>)
    ensures
        r is Ok <==> connected,
        !connected ==> r->Err_0 is Connect && r->Err_0->Connect_address@ == address@
            && r->Err_0->Connect_cause@ == cause@,
{
    if connected {
        Ok(())
    } else {
        Err(TransportError::Connect { address: copy_bytes(address), cause })
    }
}

/// Maps the outcome of the single-shot accept: a peer within the
/// configured wait proceeds, none is a missing connection, and the
/// listener is never reused.
pub fn accept_outcome(accepted: bool) -> (r: Result<(), TransportError>)
    ensures
        r is Ok <==> accepted,
        !accepted ==> r->Err_0 is NoConnection,
{
    if accepted {
        Ok(())
    } else {
        Err(TransportError::NoConnection)
    }
}

/// The decimal digits of `n`, most significant first.
pub open spec fn dec_rep(n: nat) -> Seq<u8>
    decreases n,
{
    if n < 10 {
        seq![(n + 48) as u8]
    } else {
        dec_rep(n / 10) + seq![((n % 10) + 48) as u8]
    }
}

/// The `0.0.0.0:<port>` address the receiving side binds: all local
/// interfaces on the configured port.
pub open spec fn bind_addr(port: u16) -> Seq<u8> {
    seq![48u8, 46u8, 48u8, 46u8, 48u8, 46u8, 48u8, 58u8] + dec_rep(port as nat)
}

/// Appends the decimal digits of `n`.
fn push_decimal(out: &mut Vec<u8>, n: u16)
    ensures
        final(out)@ == old(out)@ + dec_rep(n as nat),
    decreases n,
{
    if n < 10 {
        out.push((n as u8) + 48);
        assert(out@ =~= old(out)@ + dec_rep(n as nat));
    } else {
        assert(n / 10 < n);
        push_decimal(out, n / 10);
        out.push(((n % 10) as u8) + 48);
        assert(out@ =~= old(out)@ + dec_rep(n as nat));
    }
}

/// Renders the listener's bind address, `0.0.0.0` with the configured
/// port in decimal.
pub fn format_bind_address(port: u16) -> (r: Vec<u8>)
    ensures
        r@ == bind_addr(port),
{
    let mut r: Vec<u8> = Vec::new();
    r.push(48);
    r.push(46);
    r.push(48);
    r.push(46);
    r.push(48);
    r.push(46);
    r.push(48);
    r.push(58);
    push_decimal(&mut r, port);
    assert(r@ =~= bind_addr(port));
    r
}

} // verus!
