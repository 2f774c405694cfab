//! The outline model shared by the scanner, the codec and the compiler:
//! an ordered sequence of typed entries, each carrying a heading label or
//! a file path. Order is significant and equals final document order.

use vstd::prelude::*;

verus! {

/// One entry of an outline: a top-level heading, a nested heading, or a
/// reference to a source file on disk.
#[derive(Clone, Debug, PartialEq, Eq)]
pub enum OutlineEntry {
    /// Top-level heading; the label is derived text, never a raw path.
    Section(String),
    /// Nested heading; the label is derived text, never a raw path.
    SubSection(String),
    /// Reference to a source file; carries the file's full path.
    File(String),
}

/// The mathematical shape of an entry: the same three variants over
/// character sequences.
pub enum EntryModel {
    Section(Seq<char>),
    SubSection(Seq<char>),
    File(Seq<char>),
}

impl View for OutlineEntry {
    type V = EntryModel;

    open spec fn view(&self) -> EntryModel {
        match self {
            OutlineEntry::Section(s) => EntryModel::Section(s@),
            OutlineEntry::SubSection(s) => EntryModel::SubSection(s@),
            OutlineEntry::File(s) => EntryModel::File(s@),
        }
    }
}

/// The model of a whole outline: each entry's model, in order.
pub open spec fn outline_model(entries: Seq<OutlineEntry>) -> Seq<EntryModel> {
    entries.map_values(|e: OutlineEntry| e@)
}

} // verus!
