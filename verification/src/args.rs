//! The settings a server starts with, and the checks on their values.
use vstd::prelude::*;

use crate::text::{parse_unsigned, parse_unsigned_text};
use crate::MAX_PLAYERS_IN_TEAM;

verus! {

/// The settings of a server: its port, the world's size, how many players each team may
/// spawn at the start, the time unit divider and the team names.
#[derive(Debug, Clone, PartialEq, Eq, Default)]
pub struct ServerArgs {
    pub port: u16,
    pub width: usize,
    pub height: usize,
    pub clients: u16,
    pub tud: u16,
    pub names: Vec<String>,
}

/// Reads a world dimension: a number from 2 to 100.
pub fn validate_dimension(s: &str) -> (r: Result<usize, String>)
    ensures
        match parse_unsigned(s@, usize::MAX as nat) {
            None => r matches Err(m) && m@ == "Not a valid number"@,
            Some(v) => if 2 <= v <= 100 {
                r == Ok::<usize, String>(v as usize)
            } else {
                r matches Err(m) && m@ == "Grid dimensions must be between 2 and 100"@
            },
        },
{
    match parse_unsigned_text(s, usize::MAX) {
        None => Err(String::from_str("Not a valid number")),
        Some(v) => {
            if 2 <= v && v <= 100 {
                Ok(v)
            } else {
                Err(String::from_str("Grid dimensions must be between 2 and 100"))
            }
        },
    }
}

/// Reads how many players each team may spawn at the start: a number from 1 to
/// `MAX_PLAYERS_IN_TEAM`.
pub fn validate_clients(s: &str) -> (r: Result<u16, String>)
    ensures
        match parse_unsigned(s@, u16::MAX as nat) {
            None => r matches Err(m) && m@ == "Not a valid number"@,
            Some(v) => if 1 <= v <= MAX_PLAYERS_IN_TEAM {
                r == Ok::<u16, String>(v as u16)
            } else {
                r matches Err(m) && m@ == "Number of clients must be between 1 and 1024"@
            },
        },
{
    match parse_unsigned_text(s, 65535) {
        None => Err(String::from_str("Not a valid number")),
        Some(v) => {
            if 1 <= v && v <= 1024 {
                Ok(v as u16)
            } else {
                Err(String::from_str("Number of clients must be between 1 and 1024"))
            }
        },
    }
}

} // verus!
