//! The server's operation mode, chosen on the command line.

use vstd::prelude::*;
use crate::text::str_eq;

verus! {

#[derive(PartialEq, Eq, Structural, Clone, Copy, Debug)]
pub enum OperationMode {
    DEV,
    DEBUG,
    PRODUCTION,
    SPEEDTEST,
}

/// The mode a command-line value names; anything else means production.
pub open spec fn mode_of(opmode: Seq<char>) -> OperationMode {
    if opmode == "DEV"@ {
        OperationMode::DEV
    } else if opmode == "DEBUG"@ {
        OperationMode::DEBUG
    } else if opmode == "SPEEDTEST"@ {
        OperationMode::SPEEDTEST
    } else {
        OperationMode::PRODUCTION
    }
}

/// The mode named by the command-line value `opmode`: `DEV`, `DEBUG`,
/// `PRODUCTION` or `SPEEDTEST`, production for anything else.
pub fn load_operation_mode(opmode: &str) -> (r: OperationMode)
    ensures
        r == mode_of(opmode@),
{
    if str_eq(opmode, "DEV") {
        OperationMode::DEV
    } else if str_eq(opmode, "DEBUG") {
        OperationMode::DEBUG
    } else if str_eq(opmode, "SPEEDTEST") {
        OperationMode::SPEEDTEST
    } else {
        OperationMode::PRODUCTION
    }
}

} // verus!
