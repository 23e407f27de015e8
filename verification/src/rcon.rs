//! Running a command on a server through the `mcrcon` program: its
//! arguments, and what is made of its output.
use vstd::prelude::*;
use crate::config::ServerConfig;
use crate::decimal::{decimal, decimal_spec};
use crate::text::{chars_of, owned, push_str, string_of, strip_ansi, strip_ansi_spec, trim, trim_spec};

verus! {

/// The program that speaks RCON.
pub const RCON_PROGRAM: &'static str = "mcrcon";

/// Option before the host.
pub const HOST_FLAG: &'static str = "-H";

/// Option before the port.
pub const PORT_FLAG: &'static str = "-P";

/// Option before the password.
pub const PASSWORD_FLAG: &'static str = "-p";

/// Start of the message for a failed run.
pub const FAILURE_PREFIX: &'static str = "mcrcon exited with ";

/// Between the exit status and the error output in that message.
pub const FAILURE_SEPARATOR: &'static str = ": ";

/// The arguments of `mcrcon` that run `command` on `server`.
pub open spec fn rcon_args_spec(server: crate::config::ServerSpec, command: Seq<char>) -> Seq<
    Seq<char>,
> {
    seq![
        HOST_FLAG@,
        server.rcon_host,
        PORT_FLAG@,
        decimal_spec(server.rcon_port as nat),
        PASSWORD_FLAG@,
        server.rcon_password,
        command,
    ]
}

/// The arguments of `mcrcon` that run `command` on `server`:
/// `-H host -P port -p password command`.
pub fn rcon_args(server: &ServerConfig, command: &str) -> (r: Vec<String>)
    ensures
        r.deep_view() == rcon_args_spec(server@, command@),
{
    let mut r: Vec<String> = Vec::new();
    r.push(owned(HOST_FLAG));
    r.push(server.rcon_host.clone());
    r.push(owned(PORT_FLAG));
    r.push(decimal(server.rcon_port as u64));
    r.push(owned(PASSWORD_FLAG));
    r.push(server.rcon_password.clone());
    r.push(owned(command));
    assert(r.deep_view() =~= rcon_args_spec(server@, command@));
    r
}

/// What a successful run answers: its standard output without surrounding
/// white space and with the ANSI colour and reset sequences removed.
pub open spec fn rcon_output_spec(stdout: Seq<char>) -> Seq<char> {
    strip_ansi_spec(trim_spec(stdout))
}

/// What a successful run answers, from its standard output.
pub fn rcon_output(stdout: &str) -> (r: String)
    ensures
        r@ == rcon_output_spec(stdout@),
{
    let cs = chars_of(stdout);
    let t = trim(cs.as_slice());
    let s = strip_ansi(t.as_slice());
    string_of(s.as_slice())
}

/// The error message of a run that exited unsuccessfully, from its exit
/// status and its error output.
pub fn rcon_failure_message(status: &str, stderr: &str) -> (r: String)
    ensures
        r@ == FAILURE_PREFIX@ + status@ + FAILURE_SEPARATOR@ + stderr@,
{
    let mut r = owned(FAILURE_PREFIX);
    push_str(&mut r, status);
    push_str(&mut r, FAILURE_SEPARATOR);
    push_str(&mut r, stderr);
    r
}

} // verus!
