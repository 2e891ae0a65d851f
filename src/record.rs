use vstd::prelude::*;

verus! {

/// The number of card bytes a record can hold.
pub const CARD_SLOTS: usize = 64;

/// One perfect-information state as the batch evaluator reads it: a flat,
/// fixed-size value with no references. Its fields, in order: the acting
/// player, the terminal flag (1 when terminal), then one location byte per
/// card, unused bytes zero. The byte layout that a device sees is fixed by
/// the device-side copy of this record, not by this type.
#[derive(Clone, Copy, Debug)]
pub struct GpuMarjaState {
    pub current_player: u32,
    pub is_terminal: u8,
    pub card_data: [u8; 64],
}

/// Why a state could not be encoded into a record.
#[derive(Clone, Copy, Debug, PartialEq, Eq, Structural)]
pub enum EncodeError {
    /// The state has more cards than a record has slots, or a player index
    /// wider than the record's field.
    EncodingOverflow,
}

/// Whether a state's values fit into a record.
pub open spec fn fits_record(player: usize, locs: Seq<u8>) -> bool {
    player <= u32::MAX && locs.len() <= CARD_SLOTS
}

/// `rec` is the record of a state with these values.
pub open spec fn encodes(rec: GpuMarjaState, player: usize, terminal: bool, locs: Seq<u8>) -> bool {
    &&& rec.current_player as int == player as int
    &&& rec.is_terminal == (if terminal { 1u8 } else { 0u8 })
    &&& forall|i: int| 0 <= i < CARD_SLOTS ==> rec.card_data[i] == (if i < locs.len() {
        locs[i]
    } else {
        0u8
    })
}

/// Builds the record of a state from its acting player, terminal flag and
/// card locations; fails when they do not fit.
pub fn encode_record(player: usize, terminal: bool, locs: &Vec<u8>) -> (r: Result<
    GpuMarjaState,
    EncodeError,
>)
    ensures
        r is Ok <==> fits_record(player, locs@),
        r matches Ok(rec) ==> encodes(rec, player, terminal, locs@),
        r is Err ==> r == Err::<GpuMarjaState, EncodeError>(EncodeError::EncodingOverflow),
{
    if player > u32::MAX as usize || locs.len() > CARD_SLOTS {
        return Err(EncodeError::EncodingOverflow);
    }
    let mut card_data: [u8; 64] = [0u8; 64];
    let mut i: usize = 0;
    while i < locs.len()
        invariant
            locs.len() <= CARD_SLOTS,
            i <= locs.len(),
            forall|j: int| 0 <= j < CARD_SLOTS ==> card_data[j] == (if j < i {
                locs@[j]
            } else {
                0u8
            }),
        decreases locs.len() - i,
    {
        card_data[i] = locs[i];
        i = i + 1;
    }
    Ok(GpuMarjaState {
        current_player: player as u32,
        is_terminal: if terminal { 1 } else { 0 },
        card_data,
    })
}

} // verus!
