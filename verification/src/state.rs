//! The state of the open project: where it is stored, its contents, and
//! whether it has unsaved changes.

use vstd::prelude::*;
use crate::paths::{
    file_name, file_name_in, is_plain_name, lemma_file_name_of_child, resolve_project_path,
    resolved_path,
};
use crate::project_file::ProjectFile;
use crate::text::{opt_view, views};

verus! {

/// The open project.
#[derive(Debug)]
pub struct ProjectState {
    pub current_path: Option<String>,
    pub project_file: ProjectFile,
    pub dirty: bool,
}

/// The name shown in the window title for a project stored at `path`.
pub open spec fn shown_name(path: Option<Seq<char>>) -> Seq<char> {
    match path {
        Some(p) => match file_name_in(p) {
            Some(name) => name,
            None => "Untitled"@,
        },
        None => "Untitled"@,
    }
}

/// The window title: the application name, the project's name, and a star
/// while there are unsaved changes.
pub open spec fn title_of(path: Option<Seq<char>>, dirty: bool) -> Seq<char> {
    "AA Editor - "@ + shown_name(path) + if dirty {
        " *"@
    } else {
        ""@
    }
}

/// The title of a changed project is the title of the unchanged one with
/// " *" after it.
pub proof fn lemma_title_marks_changes(path: Option<Seq<char>>)
    ensures
        title_of(path, true) == title_of(path, false) + " *"@,
{
    reveal_strlit("");
    assert(title_of(path, false) =~= "AA Editor - "@ + shown_name(path));
}

/// A project stored at `dir/name`, with `name` a plain file name, is
/// titled by that name, whatever characters it holds.
pub proof fn lemma_title_names_project_file(dir: Seq<char>, name: Seq<char>, dirty: bool)
    requires
        is_plain_name(name),
    ensures
        title_of(Some(dir + seq!['/'] + name), dirty) == "AA Editor - "@ + name + if dirty {
            " *"@
        } else {
            ""@
        },
{
    lemma_file_name_of_child(dir, name);
}

/// The texts to show in the editors for `texts`: the texts themselves, or
/// one empty text when there are none.
pub open spec fn editor_texts_of(texts: Seq<Seq<char>>) -> Seq<Seq<char>> {
    if texts.len() == 0 {
        seq![Seq::<char>::empty()]
    } else {
        texts
    }
}

/// One editor per text, and one empty editor when there are no texts.
pub fn editor_texts(texts: Vec<String>) -> (res: Vec<String>)
    ensures
        views(res@) == editor_texts_of(views(texts@)),
{
    if texts.len() == 0 {
        let mut res: Vec<String> = Vec::new();
        res.push(String::new());
        assert(views(res@) =~= seq![Seq::<char>::empty()]);
        res
    } else {
        texts
    }
}

impl ProjectState {
    /// The title of a state.
    pub open spec fn title_spec(&self) -> Seq<char> {
        title_of(opt_view(self.current_path), self.dirty)
    }

    /// A new, untitled, unchanged project.
    pub fn new() -> (s: Self)
        ensures
            s.current_path is None,
            s.project_file.texts().len() == 0,
            s.project_file.version@ == crate::project_file::current_project_file_version(),
            s.project_file.mlt_collection_directory_path@
                == crate::project_file::default_mlt_collection_directory(),
            !s.dirty,
    {
        ProjectState { current_path: None, project_file: ProjectFile::default(), dirty: false }
    }

    /// The window title for this state.
    pub fn title(&self) -> (t: String)
        ensures
            t@ == self.title_spec(),
    {
        let mut t = String::from_str("AA Editor - ");
        let name = match &self.current_path {
            Some(p) => match file_name(p.as_str()) {
                Some(n) => n,
                None => String::from_str("Untitled"),
            },
            None => String::from_str("Untitled"),
        };
        t.append(name.as_str());
        if self.dirty {
            t.append(" *");
        }
        proof {
            reveal_strlit("");
            if !self.dirty {
                assert(t@ =~= t@ + ""@);
            }
        }
        t
    }

    /// Notes an unsaved change. Returns whether the state was clean before,
    /// that is, whether the title has to be shown again.
    pub fn mark_dirty(&mut self) -> (changed: bool)
        ensures
            changed == !old(self).dirty,
            final(self).dirty,
            final(self).current_path == old(self).current_path,
            final(self).project_file == old(self).project_file,
    {
        if self.dirty {
            return false;
        }
        self.dirty = true;
        true
    }

    /// Notes that the project is stored, unchanged, at `path`.
    pub fn mark_clean(&mut self, path: Option<String>)
        ensures
            !final(self).dirty,
            final(self).current_path == path,
            final(self).project_file == old(self).project_file,
    {
        self.current_path = path;
        self.dirty = false;
    }

    /// Takes over a project loaded from `path`. Returns the texts of the
    /// editors to show: one per item, or one empty text when there is none.
    pub fn apply_project_file(&mut self, project_file: ProjectFile, path: String) -> (texts: Vec<
        String,
    >)
        ensures
            views(texts@) == editor_texts_of(project_file.texts()),
            final(self).project_file == project_file,
            final(self).current_path == Some(path),
            !final(self).dirty,
    {
        let texts = editor_texts(project_file.to_texts());
        self.project_file = project_file;
        self.mark_clean(Some(path));
        texts
    }

    /// The project to write when saving: the current one with the editors'
    /// texts as its items.
    pub fn project_for_save(&self, texts: Vec<String>) -> (p: ProjectFile)
        ensures
            p.version == self.project_file.version,
            p.mlt_collection_directory_path == self.project_file.mlt_collection_directory_path,
            p.texts() == views(texts@),
    {
        let mut p = ProjectFile {
            version: self.project_file.version.clone(),
            mlt_collection_directory_path: self.project_file.mlt_collection_directory_path.clone(),
            items: Vec::new(),
        };
        p.set_texts(texts);
        p
    }

    /// Notes that `project_file` was written to `path`.
    pub fn saved(&mut self, project_file: ProjectFile, path: String)
        ensures
            final(self).project_file == project_file,
            final(self).current_path == Some(path),
            !final(self).dirty,
    {
        self.project_file = project_file;
        self.mark_clean(Some(path));
    }

    /// Where "save" writes to: the current path, if the project has one.
    pub fn save_target(&self) -> (p: Option<String>)
        ensures
            p == self.current_path,
    {
        match &self.current_path {
            Some(p) => Some(p.clone()),
            None => None,
        }
    }

    /// The directory of the MLT collection, with a leading "~" resolved
    /// against the home directory `home`.
    pub fn mlt_collection_directory(&self, home: Option<String>) -> (dir: String)
        ensures
            dir@ == resolved_path(self.project_file.mlt_collection_directory_path@, opt_view(home)),
    {
        resolve_project_path(self.project_file.mlt_collection_directory_path.as_str(), home)
    }
}

} // verus!
