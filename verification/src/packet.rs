//! The unit of a file transfer.

use crate::bytes::copy_range;
use vstd::prelude::*;

verus! {

/// One piece of a file transfer: its place in the transfer, its payload and
/// the digest that the sender announced.
#[derive(Debug, PartialEq, Eq)]
pub struct Packet {
    pub sequence_number: u32,
    pub data: Vec<u8>,
    pub sha: String,
}

/// What a packet holds, as plain values.
pub struct PacketView {
    pub sequence_number: u32,
    pub data: Seq<u8>,
    pub sha: Seq<char>,
}

impl View for Packet {
    type V = PacketView;

    open spec fn view(&self) -> PacketView {
        PacketView { sequence_number: self.sequence_number, data: self.data@, sha: self.sha@ }
    }
}

impl Clone for Packet {
    /// A packet with the same parts.
    fn clone(&self) -> (copy: Self)
        ensures
            copy@ == self@,
    {
        let data = copy_range(self.data.as_slice(), 0, self.data.len());
        assert(data@ =~= self.data@);
        Packet { sequence_number: self.sequence_number, data, sha: self.sha.clone() }
    }
}

impl Packet {
    /// Puts the three parts of a packet together, unchanged.
    pub fn new(sequence_number: u32, data: Vec<u8>, sha: String) -> (packet: Self)
        ensures
            packet.sequence_number == sequence_number,
            packet.data == data,
            packet.sha == sha,
    {
        Packet { sequence_number, data, sha }
    }
}

} // verus!
