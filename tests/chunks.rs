use nanodb::chunk::{Chunk, ChunkError, ChunkSlot, MAX_CHUNK_SIZE};
use nanodb::chunk_processor::{OnDiskChunkCollectionProcessor, OnDiskChunkCollectionProcessorError};

#[test]
fn no_chunks_exist_should_create_zero_chunk() {
    let slot = Chunk::try_new(Some(1), &[]);
    assert_eq!(slot, ChunkSlot::Create(Chunk::new(0, Some(1))));
}

#[test]
fn chunk_exists_and_exceeds_limit_should_increment_index_and_create_new_chunk() {
    let slot = Chunk::try_new(Some(1), &[3]);
    assert_eq!(slot, ChunkSlot::Create(Chunk::new(1, Some(1))));
}

#[test]
fn chunk_exists_not_exceeds_limit_should_open_without_creating_new() {
    let slot = Chunk::try_new(Some(99999), &[3]);
    assert_eq!(slot, ChunkSlot::Open(Chunk::new(0, Some(99999))));
}

#[test]
fn try_new_from_starts_from_provided_index() {
    let slot = Chunk::try_new_from(1, Some(1), &[3]);
    assert_eq!(slot.into_chunk().index, 2);
}

#[test]
fn try_open_should_return_error_if_max_size_exceeded() {
    assert_eq!(Chunk::try_open(0, Some(1), Some(3)), Err(ChunkError::ChunkTooLarge));
}

#[test]
fn try_open_should_open_chunk_if_size_not_exceeded() {
    let chunk = Chunk::try_open(0, Some(9999), Some(3)).unwrap();
    assert_eq!(chunk.index, 0);
    assert_eq!(Chunk::try_open(0, None, None), Err(ChunkError::ChunkFileDoesNotExist));
}

#[test]
fn default_chunk_size_is_one_gibibyte() {
    assert_eq!(Chunk::new(3, None).max_chunk_size, MAX_CHUNK_SIZE);
    assert_eq!(MAX_CHUNK_SIZE, 1024 * 1024 * 1024);
    assert_eq!(Chunk::new(3, None).filename(), "3.db3");
}

#[test]
fn append_one_byte_under_the_limit_succeeds_and_the_next_is_refused() {
    let chunk = Chunk::new(0, Some(10));
    assert_eq!(chunk.validate_chunk_size(Some(9)), Ok(()));
    assert_eq!(chunk.validate_chunk_size(Some(10)), Err(ChunkError::ChunkTooLarge));
    assert_eq!(chunk.validate_chunk_size(Some(25)), Err(ChunkError::ChunkTooLarge));
}

#[test]
fn extend_should_create_new_file() {
    let chunk = Chunk::new(0, Some(1));
    let new_chunk = chunk.create_extended();
    assert_eq!(new_chunk.index, 1);
    assert_eq!(new_chunk.max_chunk_size, 1);
}

#[test]
fn append_returns_correct_offset() {
    let (mut processor, create) = OnDiskChunkCollectionProcessor::new(Some(9999), &[]);
    assert!(create);
    let first = processor.insert(Some(0)).unwrap();
    assert_eq!(first.settings.offset, 0);
    // four bytes ("test") were written at offset 0
    let offset = processor.insert(Some(4)).unwrap().settings.offset;

    assert_eq!(offset, 4);
}

#[test]
fn extend_assigns_chunk_to_self_last_chunk() {
    let mut prcsr = OnDiskChunkCollectionProcessor::from_chunk(Chunk::new(0, Some(10)));
    prcsr.extend_current_chunk();
    assert_eq!(prcsr.last_chunk().index(), 1)
}

#[test]
fn insert_when_chunk_too_large_extends_chunk() {
    let mut prcsr = OnDiskChunkCollectionProcessor::from_chunk(Chunk::new(0, Some(10)));
    let write = prcsr.insert(Some(10)).unwrap();
    assert!(write.create_chunk);
    assert_eq!(write.settings.chunk_index, 1);
    assert_eq!(write.settings.offset, 0);
    assert_eq!(prcsr.last_chunk().index(), 1);
}

#[test]
fn insert_should_return_correct_offset_and_index() {
    let mut prcsr = OnDiskChunkCollectionProcessor::from_chunk(Chunk::new(0, None));
    let res = prcsr.insert(Some(10)).unwrap().settings;
    assert_eq!(res.chunk_index, 0);
    assert_eq!(res.offset, 10);
}

#[test]
fn insert_into_missing_tail_fails() {
    let mut prcsr = OnDiskChunkCollectionProcessor::from_chunk(Chunk::new(0, None));
    assert_eq!(
        prcsr.insert(None),
        Err(OnDiskChunkCollectionProcessorError::ChunkError(ChunkError::ChunkFileDoesNotExist))
    );
}

#[test]
fn insert_at_last_index_cannot_roll_over() {
    let mut prcsr = OnDiskChunkCollectionProcessor::from_chunk(Chunk::new(u64::MAX, Some(1)));
    assert_eq!(
        prcsr.insert(Some(1)),
        Err(OnDiskChunkCollectionProcessorError::ChunkError(ChunkError::ChunkTooLarge))
    );
}

#[test]
fn sweep_opens_first_chunk_with_room() {
    let (processor, create) = OnDiskChunkCollectionProcessor::new(Some(5), &[9, 5, 2, 0]);
    assert!(!create);
    assert_eq!(processor.last_chunk().index, 2);
}
