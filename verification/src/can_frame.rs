//! Classic CAN frames as the motor drivers exchange them.
use vstd::prelude::*;

verus! {

/// Largest payload of a classic CAN frame, in bytes.
pub const MAX_DLC: usize = 8;

/// A CAN frame: identifier, up to eight payload bytes and their count.
#[derive(Debug, Clone, Copy)]
pub struct CanFrame {
    pub id: u32,
    pub data: [u8; 8],
    pub dlc: u8,
    pub is_extended: bool,
}

impl CanFrame {
    /// A frame with the given identifier, eight zero payload bytes and a
    /// length of eight.
    pub fn new(id: u32, is_extended: bool) -> (f: Self)
        ensures
            f.id == id,
            f.is_extended == is_extended,
            f.dlc == 8,
            f.data@ == Seq::new(8, |i: int| 0u8),
    {
        let f = CanFrame { id, is_extended, dlc: 8, data: [0u8; 8] };
        proof {
            assert(f.data@ =~= Seq::new(8, |i: int| 0u8));
        }
        f
    }
}

/// The frame for a received identifier and payload: at most eight payload
/// bytes are kept, the rest of the data is zero, and the length is the number
/// of bytes kept.
pub fn to_canframe(id: u32, is_extended: bool, payload: &[u8]) -> (f: CanFrame)
    ensures
        f.id == id,
        f.is_extended == is_extended,
        f.dlc as int == if payload@.len() < 8 { payload@.len() as int } else { 8 },
        forall|i: int| 0 <= i < f.dlc ==> #[trigger] f.data@[i] == payload@[i],
        forall|i: int| f.dlc <= i < 8 ==> #[trigger] f.data@[i] == 0,
{
    let mut data = [0u8; 8];
    let n = if payload.len() < 8 {
        payload.len()
    } else {
        8
    };
    let mut i: usize = 0;
    while i < n
        invariant
            i <= n,
            n <= 8,
            n <= payload@.len(),
            data@.len() == 8,
            forall|k: int| 0 <= k < i ==> #[trigger] data@[k] == payload@[k],
            forall|k: int| i <= k < 8 ==> #[trigger] data@[k] == 0,
        decreases n - i,
    {
        data[i] = payload[i];
        i = i + 1;
    }
    CanFrame { id, data, dlc: n as u8, is_extended }
}

} // verus!
