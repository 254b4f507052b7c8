//! One enumerated filesystem entry, as the directory walker hands it to the
//! transfer driver: a path relative to the destination root, whether it is a
//! directory, and — for a file about to be sent — its content.
use vstd::prelude::*;

verus! {

/// One entry of the source tree.
pub struct FileEntry {
    pub file_path: String,
    pub is_dir: bool,
    pub file_content: Option<Vec<u8>>,
}

/// The mathematical value of a `FileEntry`.
#[verifier::ext_equal]
pub struct FileEntryView {
    pub file_path: Seq<char>,
    pub is_dir: bool,
    pub file_content: Option<Seq<u8>>,
}

impl View for FileEntry {
    type V = FileEntryView;

    open spec fn view(&self) -> FileEntryView {
        FileEntryView {
            file_path: self.file_path@,
            is_dir: self.is_dir,
            file_content: match self.file_content {
                Some(ref c) => Some(c@),
                None => None,
            },
        }
    }
}

} // verus!
