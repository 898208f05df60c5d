//! Catching up: a peer advertises the blocks it keeps, the other asks for
//! those it lacks, and keeps what comes only if it obeys the rules.

use crate::payload::blocks::get_block::GetBlock;
use crate::payload::blocks::get_block_ack::GetBlockAck;
use crate::payload::blocks::get_blocks_ack::GetBlocksAck;
use crate::storage::{
    kept_under, spec_verdict, BlockRecord, BlockRecordView, BlockStore, StorageError,
};
use vstd::prelude::*;

verus! {

/// The advertised names under which no block is kept, in their order.
pub open spec fn spec_missing(advertised: Seq<Seq<char>>, kept: Seq<BlockRecordView>) -> Seq<
    Seq<char>,
>
    decreases advertised.len(),
{
    if advertised.len() == 0 {
        Seq::empty()
    } else if kept_under(kept, advertised.last()) {
        spec_missing(advertised.drop_last(), kept)
    } else {
        spec_missing(advertised.drop_last(), kept).push(advertised.last())
    }
}

/// The names that some requests ask for.
pub open spec fn request_views(requests: Seq<GetBlock>) -> Seq<Seq<char>> {
    Seq::new(requests.len(), |i: int| requests[i].block@)
}

/// The block that an answer carries.
pub open spec fn spec_block_of(ack: GetBlockAck) -> BlockRecordView {
    BlockRecordView {
        index: ack.index,
        content: ack.content@,
        timestamp: ack.timestamp,
        nonce: ack.nonce,
        prev: ack.prev@,
        hash: ack.hash@,
    }
}

/// On `GetBlocks`: the names of all kept blocks.
pub fn inventory(store: &BlockStore) -> (out: GetBlocksAck)
    ensures
        out@.blocks.len() == store@.len(),
        forall|i: int| 0 <= i < store@.len() ==> #[trigger] out@.blocks[i] == store@[i].hash,
{
    let blocks = store.list();
    GetBlocksAck { blocks }
}

/// On `GetBlocksAck`: one request for each advertised block that is not
/// kept, in the order of the advertisement.
pub fn get_blocks_ack(store: &BlockStore, message: &GetBlocksAck) -> (out: Vec<GetBlock>)
    ensures
        request_views(out@) == spec_missing(message@.blocks, store@),
{
    let mut out: Vec<GetBlock> = Vec::new();
    let mut i: usize = 0;
    let ghost advertised = message@.blocks;
    assert(advertised.take(0) =~= Seq::<Seq<char>>::empty());
    assert(request_views(out@) =~= Seq::<Seq<char>>::empty());
    while i < message.blocks.len()
        invariant
            i <= message.blocks.len(),
            advertised == message@.blocks,
            request_views(out@) == spec_missing(advertised.take(i as int), store@),
        decreases message.blocks.len() - i,
    {
        let ghost now = advertised.take(i + 1);
        let ghost seen = request_views(out@);
        assert(now.drop_last() =~= advertised.take(i as int));
        assert(now.last() == message.blocks@[i as int]@);
        if !store.has(message.blocks[i].as_str()) {
            out.push(GetBlock { block: message.blocks[i].clone() });
            assert(request_views(out@) =~= seen.push(now.last()));
        }
        i += 1;
    }
    assert(advertised.take(i as int) =~= advertised);
    out
}

/// On `GetBlock`: the block kept under the wanted name, with that name.
/// Nothing where no block is kept under it.
pub fn on_sync_blocks_req(store: &BlockStore, message: &GetBlock) -> (out: Option<GetBlockAck>)
    ensures
        out is Some <==> kept_under(store@, message.block@),
        out matches Some(ack) ==> {
            &&& ack.filename@ == message.block@
            &&& ack.hash@ == message.block@
            &&& exists|i: int| 0 <= i < store@.len() && #[trigger] store@[i] == spec_block_of(ack)
        },
{
    match store.read(message.block.as_str()) {
        Ok(block) => {
            let ack = GetBlockAck {
                filename: message.block.clone(),
                index: block.index,
                timestamp: block.timestamp,
                nonce: block.nonce,
                prev: block.prev,
                hash: block.hash,
                content: block.content,
            };
            proof {
                let i = choose|i: int|
                    0 <= i < store@.len() && #[trigger] store@[i] == block@ && block@.hash
                        == message.block@;
                assert(store@[i] == spec_block_of(ack));
            }
            Some(ack)
        },
        Err(_) => None,
    }
}

/// On `GetBlockAck`: keeps the block if it came under its hash as name and
/// may join the kept blocks. A sender whose block is refused earns a strike.
pub fn on_get_block_ack(store: &mut BlockStore, message: GetBlockAck) -> (out: Result<
    (),
    StorageError,
>)
    requires
        old(store).wf(),
    ensures
        final(store).wf(),
        out == (if message.filename@ != message.hash@ {
            Err(StorageError::MalformedBlock)
        } else {
            spec_verdict(spec_block_of(message), old(store)@)
        }),
        final(store)@ == (if out is Ok && !kept_under(old(store)@, message.hash@) {
            old(store)@.push(spec_block_of(message))
        } else {
            old(store)@
        }),
{
    if message.filename != message.hash {
        return Err(StorageError::MalformedBlock);
    }
    let block = BlockRecord {
        index: message.index,
        content: message.content,
        timestamp: message.timestamp,
        nonce: message.nonce,
        prev: message.prev,
        hash: message.hash,
    };
    store.write(block)
}

} // verus!
