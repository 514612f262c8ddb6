use vstd::prelude::*;

verus! {

/// Blocks scanned between two checkpoints of the client state.
pub const CHECKPOINT_INTERVAL: u64 = 1000;

/// The first height to request from a wallet service whose client has scanned up to
/// `last_block_height`; `None` when no height follows it.
pub fn start_height(last_block_height: u64) -> (r: Option<u64>)
    ensures
        last_block_height < u64::MAX ==> r == Some((last_block_height + 1) as u64),
        last_block_height == u64::MAX ==> r is None,
{
    last_block_height.checked_add(1)
}

/// Counts one more scanned block; the flag says whether the client state is to be
/// committed as a checkpoint now.
pub fn block_scanned(count: u64) -> (r: (u64, bool))
    requires
        count < u64::MAX,
    ensures
        r.0 == count + 1,
        r.1 == ((count + 1) % (CHECKPOINT_INTERVAL as int) == 0),
{
    let c = count + 1;
    (c, c % CHECKPOINT_INTERVAL == 0)
}

} // verus!
