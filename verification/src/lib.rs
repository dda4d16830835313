//! A daemon that gives local clients access to Bluetooth Low Energy devices.

use std::slice::Iter;
use vstd::prelude::*;

pub mod bt_uuid;
pub mod byte_slices;
pub mod central;
pub mod commands;
pub mod daemon_state;
pub mod device_laws;
pub mod event_matchers;
pub mod handlers;
pub mod hexadecimal;
pub mod input_token;
pub mod maps;
pub mod peers;
pub mod request_laws;
pub mod session;
pub mod session_laws;
pub mod shutting_down_stream;
pub mod text;
pub mod token_laws;

verus! {

/// How far a path from the daemon to a characteristic has been followed.
#[derive(Hash, Eq, PartialEq, Debug, Clone, Copy, Structural)]
pub enum Position {
    Init,
    Root,
    Device,
    Service,
    Characteristic,
}

/// All positions, in the order in which a path is followed.
pub open spec fn positions() -> Seq<Position> {
    seq![
        Position::Init,
        Position::Root,
        Position::Device,
        Position::Service,
        Position::Characteristic,
    ]
}

impl Position {
    const COUNT: usize = 5;

    /// All positions, in the order in which a path is followed.
    pub fn iter() -> (iter: Iter<'static, Position>)
        ensures
            vstd::std_specs::iter::IteratorSpec::remaining(&iter).unref() == positions(),
    {
        let all: &'static [Position; Position::COUNT] = &[
            Position::Init,
            Position::Root,
            Position::Device,
            Position::Service,
            Position::Characteristic,
        ];
        all.iter()
    }

    /// The number of positions.
    pub fn count() -> (count: usize)
        ensures
            count == positions().len(),
    {
        Position::COUNT
    }
}

} // verus!
