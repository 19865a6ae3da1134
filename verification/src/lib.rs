pub mod archive;
pub mod config;
pub mod dest;
pub mod extract;
pub mod names;
pub mod pattern;

use vstd::prelude::*;

verus! {

/// A named file held in memory: the base name of a file (or of an archive
/// entry) together with its byte content.
#[derive(Debug, Clone)]
pub struct NamedFile {
    pub name: String,
    pub data: Vec<u8>,
}

impl View for NamedFile {
    type V = (Seq<char>, Seq<u8>);

    open spec fn view(&self) -> (Seq<char>, Seq<u8>) {
        (self.name@, self.data@)
    }
}

/// The mathematical content of a list of named files: a sequence of
/// (name, bytes) pairs.
pub open spec fn views_of(files: Seq<NamedFile>) -> Seq<(Seq<char>, Seq<u8>)> {
    files.map_values(|f: NamedFile| f@)
}

} // verus!
