//! The storage service's block list, as the upload session fills it.
use azure_storage_blobs::blob::{BlobBlockType, BlockList};
use azure_storage_blobs::prelude::BlockId;
use vstd::prelude::*;

verus! {

#[verifier::external_type_specification]
#[verifier::external_body]
pub struct ExBlockList(BlockList);

/// The ids of a block list's entries, in list order, each as the text it
/// was made from.
pub uninterp spec fn block_list_ids(l: BlockList) -> Seq<Seq<char>>;

/// Relies on the derived `BlockList::default`: a list with no entries.
#[verifier::external_body]
pub(crate) fn empty_block_list() -> (r: BlockList)
    ensures
        block_list_ids(r) == Seq::<Seq<char>>::empty(),
{
    BlockList::default()
}

/// Relies on `BlockId::new` and `BlobBlockType::Uncommitted`, pushed onto
/// the list's public `blocks` vector: appends one uncommitted entry whose id
/// holds the bytes of `id`, after the entries already there.
#[verifier::external_body]
pub(crate) fn push_uncommitted(l: &mut BlockList, id: &str)
    ensures
        block_list_ids(*final(l)) == block_list_ids(*old(l)).push(id@),
{
    l.blocks.push(BlobBlockType::Uncommitted(BlockId::new(id.to_string())));
}

} // verus!
