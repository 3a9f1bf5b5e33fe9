//! The project file: its format version, the directory of the MLT
//! collection, and the texts of its items.

use vstd::prelude::*;
use crate::text::views;

verus! {

/// One item of a project: the AA text of one editor.
#[derive(Debug, Clone, PartialEq, Eq)]
pub struct ProjectItem {
    pub text: String,
}

/// A project as it is stored on disk.
#[derive(Debug, Clone, PartialEq, Eq)]
pub struct ProjectFile {
    pub version: String,
    pub mlt_collection_directory_path: String,
    pub items: Vec<ProjectItem>,
}

/// The format version written by this library.
pub open spec fn current_project_file_version() -> Seq<char> {
    "0.0.1"@
}

/// Where the MLT collection lives unless a project says otherwise.
pub open spec fn default_mlt_collection_directory() -> Seq<char> {
    "~/.local/share/aa_editor/mlt_collections"@
}

/// The texts of the items, in order.
pub open spec fn item_texts(items: Seq<ProjectItem>) -> Seq<Seq<char>> {
    items.map_values(|item: ProjectItem| item.text@)
}

/// The version a project file gets when it names none.
pub fn default_project_file_version() -> (v: String)
    ensures
        v@ == current_project_file_version(),
{
    String::from_str("0.0.1")
}

/// The MLT collection directory a project file gets when it names none.
pub fn default_mlt_collection_directory_path() -> (p: String)
    ensures
        p@ == default_mlt_collection_directory(),
{
    String::from_str("~/.local/share/aa_editor/mlt_collections")
}

impl ProjectFile {
    /// The texts of the project's items, in order.
    pub open spec fn texts(&self) -> Seq<Seq<char>> {
        item_texts(self.items@)
    }

    /// The texts of the items, in order.
    pub fn to_texts(&self) -> (texts: Vec<String>)
        ensures
            views(texts@) == self.texts(),
    {
        let mut texts: Vec<String> = Vec::new();
        let mut i: usize = 0;
        while i < self.items.len()
            invariant
                i <= self.items.len(),
                views(texts@) == self.texts().take(i as int),
            decreases self.items.len() - i,
        {
            let t = self.items[i].text.clone();
            let ghost before = texts@;
            texts.push(t);
            proof {
                assert(self.texts()[i as int] == self.items@[i as int].text@);
                assert(views(texts@) =~= views(before).push(t@));
                assert(self.texts().take(i + 1) =~= self.texts().take(i as int).push(
                    self.texts()[i as int],
                ));
            }
            i += 1;
        }
        assert(self.texts().take(self.items.len() as int) =~= self.texts());
        texts
    }

    /// Replaces the items by one item per text, in order; the version and
    /// the collection directory stay as they are.
    pub fn set_texts(&mut self, texts: Vec<String>)
        ensures
            final(self).texts() == views(texts@),
            final(self).version == old(self).version,
            final(self).mlt_collection_directory_path == old(self).mlt_collection_directory_path,
    {
        let ghost all = texts@;
        let mut items: Vec<ProjectItem> = Vec::new();
        for text in it: texts.into_iter()
            invariant
                all == it.seq(),
                item_texts(items@) == views(it.seq().take(it.index() as int)),
        {
            let ghost before = items@;
            items.push(ProjectItem { text });
            proof {
                assert(it.seq().take(it.index() + 1) =~= it.seq().take(it.index() as int).push(text));
                assert(item_texts(items@) =~= item_texts(before).push(text@));
                assert(views(it.seq().take(it.index() + 1)) =~= views(it.seq().take(it.index() as int)).push(text@));
            }
        }
        assert(all.take(all.len() as int) =~= all);
        self.items = items;
    }
}

impl Default for ProjectFile {
    /// A project with the current version, the default collection
    /// directory and no items.
    fn default() -> (p: Self)
        ensures
            p.version@ == current_project_file_version(),
            p.mlt_collection_directory_path@ == default_mlt_collection_directory(),
            p.items@.len() == 0,
    {
        ProjectFile {
            version: default_project_file_version(),
            mlt_collection_directory_path: default_mlt_collection_directory_path(),
            items: Vec::new(),
        }
    }
}

} // verus!
