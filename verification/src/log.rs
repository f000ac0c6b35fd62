//! The append-only log: the byte image of the on-disk file of
//! length-delimited records. The caller persists the image (or its appended
//! tail) and hands the bytes read back at startup; a single writer at a time
//! appends.

use vstd::prelude::*;
use crate::codec::{encode_write, replay_bytes, spec_encode_write, spec_replay, write_fits};
use crate::comment::{PostComment, PostCommentView};

verus! {

/// The byte image of the log file.
pub struct Log {
    bytes: Vec<u8>,
}

impl View for Log {
    type V = Seq<u8>;

    closed spec fn view(&self) -> Seq<u8> {
        self.bytes@
    }
}

impl Log {
    /// An empty log, as a freshly created file holds.
    pub fn new() -> (r: Log)
        ensures
            r@ == Seq::<u8>::empty(),
    {
        Log { bytes: Vec::new() }
    }

    /// The log whose file holds exactly `bytes`.
    pub fn from_bytes(bytes: Vec<u8>) -> (r: Log)
        ensures
            r@ == bytes@,
    {
        Log { bytes }
    }

    /// Appends one record to the end of the log.
    pub fn append(&mut self, w: &PostComment)
        ensures
            final(self)@ == old(self)@ + spec_encode_write(w@),
            write_fits(w@),
    {
        let mut record = encode_write(w);
        self.bytes.append(&mut record);
    }

    /// Replays the log from the beginning: decodes records until the bytes
    /// run out or a record fails to decode, and returns everything decoded so
    /// far, in on-disk order. A truncated final record is dropped silently.
    pub fn replay(&self) -> (r: Vec<PostComment>)
        ensures
            r.deep_view() == spec_replay(self@),
    {
        replay_bytes(&self.bytes)
    }

    /// The raw bytes of the log image.
    pub fn bytes(&self) -> (r: &Vec<u8>)
        ensures
            r@ == self@,
    {
        &self.bytes
    }
}

} // verus!
