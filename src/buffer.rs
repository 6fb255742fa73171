use vstd::prelude::*;

verus! {

/// An immutable view of a buffer at one version: which buffer it is, its version, the
/// path of its file, if it has one, and its text.
#[derive(Debug)]
pub struct BufferSnapshot {
    pub buffer_id: u64,
    pub version: u64,
    pub path: Option<Vec<char>>,
    pub text: Vec<char>,
}

/// A snapshot as a mathematical value.
pub struct SnapshotSpec {
    pub buffer_id: u64,
    pub version: u64,
    pub path: Option<Seq<char>>,
    pub text: Seq<char>,
}

pub open spec fn path_view(p: Option<Vec<char>>) -> Option<Seq<char>> {
    match p {
        Some(v) => Some(v@),
        None => None,
    }
}

impl View for BufferSnapshot {
    type V = SnapshotSpec;

    open spec fn view(&self) -> SnapshotSpec {
        SnapshotSpec {
            buffer_id: self.buffer_id,
            version: self.version,
            path: path_view(self.path),
            text: self.text@,
        }
    }
}

impl BufferSnapshot {
    pub fn new(buffer_id: u64, version: u64, path: Option<Vec<char>>, text: Vec<char>) -> (r:
        BufferSnapshot)
        ensures
            r.buffer_id == buffer_id,
            r.version == version,
            r.path == path,
            r.text == text,
    {
        BufferSnapshot { buffer_id, version, path, text }
    }

    /// A copy of this snapshot.
    pub fn duplicate(&self) -> (r: BufferSnapshot)
        ensures
            r@ == self@,
    {
        let path = match &self.path {
            Some(p) => Some(p.clone()),
            None => None,
        };
        BufferSnapshot {
            buffer_id: self.buffer_id,
            version: self.version,
            path,
            text: self.text.clone(),
        }
    }
}

} // verus!
