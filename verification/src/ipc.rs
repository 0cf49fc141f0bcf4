//! The mapping from validated commands to typed method calls on the
//! flight-logic interface.
//!
//! The bus connection itself lives in the async shell; this module fixes
//! what that shell must call: the well-known destination triple and, for
//! each command, the method name and argument tuple, bit for bit.
//! Optional arguments stay optional: absence is transmitted as absence,
//! never as a zero value.

use vstd::prelude::*;
use crate::command::Command;

verus! {

/// The well-known service name owning the flight-logic interface.
pub fn service_name() -> (r: &'static str)
    ensures
        r@ == "com.drone.Logic"@,
{
    "com.drone.Logic"
}

/// The object path of the flight-logic interface.
pub fn object_path() -> (r: &'static str)
    ensures
        r@ == "/com/drone/Logic"@,
{
    "/com/drone/Logic"
}

/// The interface holding the command methods.
pub fn interface_name() -> (r: &'static str)
    ensures
        r@ == "com.drone.Logic.Commands"@,
{
    "com.drone.Logic.Commands"
}

/// The argument tuple of one method call, with the scaled numerics still
/// scaled: the shell divides by the scale when it puts them on the wire.
pub enum IpcArgs {
    GoTo(i64, i64, i64, Option<i64>),
    TakePicture(Option<String>),
    RotateAndFilm(u16, Option<u16>, Option<String>),
    Ping,
}

/// One method invocation on the flight-logic interface.
pub struct MethodCall {
    pub method: String,
    pub args: IpcArgs,
}

/// The method name each command variant maps to.
pub open spec fn method_name_of(c: Command) -> Seq<char> {
    match c {
        Command::GoTo { .. } => "GoTo"@,
        Command::TakePicture { .. } => "TakePicture"@,
        Command::RotateAndFilm { .. } => "RotateAndFilm"@,
        Command::Ping => "Ping"@,
    }
}

pub open spec fn opt_str_view(o: Option<String>) -> Option<Seq<char>> {
    match o {
        Some(s) => Some(s@),
        None => None,
    }
}

/// The one method call a command dispatches to: the documented name and
/// the documented argument tuple, field for field.
pub fn method_call(cmd: &Command) -> (r: MethodCall)
    ensures
        r.method@ == method_name_of(*cmd),
        (cmd matches Command::GoTo { lat, lon, alt_m, speed_mps } ==> r.args matches
            IpcArgs::GoTo(a, o, h, s) && a == lat && o == lon && h == alt_m && s == speed_mps),
        (cmd matches Command::TakePicture { mode } ==> r.args matches IpcArgs::TakePicture(m)
            && opt_str_view(m) == opt_str_view(*mode)),
        (cmd matches Command::RotateAndFilm { degrees, duration_s, quality } ==> r.args matches
            IpcArgs::RotateAndFilm(d, t, q) && d == degrees && t == duration_s && opt_str_view(q)
            == opt_str_view(*quality)),
        (cmd matches Command::Ping ==> r.args matches IpcArgs::Ping),
{
    match cmd {
        Command::GoTo { lat, lon, alt_m, speed_mps } => MethodCall {
            method: String::from_str("GoTo"),
            args: IpcArgs::GoTo(*lat, *lon, *alt_m, *speed_mps),
        },
        Command::TakePicture { mode } => MethodCall {
            method: String::from_str("TakePicture"),
            args: IpcArgs::TakePicture(
                match mode {
                    Some(m) => Some(String::from_str(m.as_str())),
                    None => None,
                },
            ),
        },
        Command::RotateAndFilm { degrees, duration_s, quality } => MethodCall {
            method: String::from_str("RotateAndFilm"),
            args: IpcArgs::RotateAndFilm(
                *degrees,
                *duration_s,
                match quality {
                    Some(q) => Some(String::from_str(q.as_str())),
                    None => None,
                },
            ),
        },
        Command::Ping => MethodCall { method: String::from_str("Ping"), args: IpcArgs::Ping },
    }
}

} // verus!
