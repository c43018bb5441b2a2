//! Versioned browser-session messages and their size limits.

use vstd::prelude::*;
use vstd::string::StringSliceAdditionalSpecFns;

verus! {

/// The wire protocol version both sides speak.
pub const PROTOCOL_VERSION: u8 = 1;
/// Largest client message accepted, in bytes.
pub const MAX_CLIENT_MESSAGE_BYTES: usize = 8192;
/// Largest input payload accepted, in bytes.
pub const MAX_INPUT_BYTES: usize = 4096;

/// A message from the browser.
#[derive(Clone, Debug, PartialEq, Eq)]
pub enum ClientCommand {
    Hello { v: u8, cols: u32, rows: u32 },
    Resize { v: u8, cols: u32, rows: u32 },
    Input { v: u8, data: String },
    Quit { v: u8 },
}

/// The protocol version a message claims.
pub open spec fn command_version(c: ClientCommand) -> u8 {
    match c {
        ClientCommand::Hello { v, .. } => v,
        ClientCommand::Resize { v, .. } => v,
        ClientCommand::Input { v, .. } => v,
        ClientCommand::Quit { v } => v,
    }
}

impl ClientCommand {
    /// The protocol version the message claims.
    pub fn version(&self) -> (v: u8)
        ensures
            v == command_version(*self),
    {
        match self {
            ClientCommand::Hello { v, .. } => *v,
            ClientCommand::Resize { v, .. } => *v,
            ClientCommand::Input { v, .. } => *v,
            ClientCommand::Quit { v } => *v,
        }
    }
}

/// Refuse a raw client message longer than the limit, before parsing.
pub fn check_client_message(text: &str) -> (r: Result<(), &'static str>)
    ensures
        r is Ok <==> text.spec_bytes().len() <= MAX_CLIENT_MESSAGE_BYTES,
        r matches Err(m) ==> m@ == "message is too large"@,
{
    let bytes = text.as_bytes_vec();
    if bytes.len() > MAX_CLIENT_MESSAGE_BYTES {
        return Err("message is too large");
    }
    Ok(())
}

/// Refuse a parsed input message whose payload is longer than the limit.
pub fn check_client_command(command: ClientCommand) -> (r: Result<ClientCommand, &'static str>)
    ensures
        r == if command matches ClientCommand::Input { data, .. } && vstd::utf8::encode_utf8(data@).len() > MAX_INPUT_BYTES {
            Err("input is too large")
        } else {
            Ok::<ClientCommand, &'static str>(command)
        },
{
    match &command {
        ClientCommand::Input { data, .. } => {
            let bytes = data.as_str().as_bytes_vec();
            if bytes.len() > MAX_INPUT_BYTES {
                return Err("input is too large");
            }
        },
        _ => {},
    }
    Ok(command)
}

} // verus!
