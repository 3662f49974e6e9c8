//! Storage engine of an anonymous message board: bounded chunk files, an
//! in-memory reference collection with a best-fit hole allocator, the
//! snapshot/diff record codec, and the small codecs around them.

pub mod captcha;
pub mod chunk;
pub mod chunk_processor;
pub mod collection;
pub mod database;
pub mod db_post_ref;
pub mod serialized;
pub mod stego;
pub mod hex;
pub mod post;
