//! The workspace: the folders the editor opened.

use vstd::prelude::*;

verus! {

/// A workspace folder's address, as the editor sent it: its scheme, its path and
/// its full text.
#[derive(Clone, Debug)]
pub struct FolderUri {
    pub scheme: Option<String>,
    pub path: String,
    pub text: String,
}

/// What `Path::file_name` gives for `p`.
pub uninterp spec fn file_name_of(p: Seq<char>) -> Option<Seq<char>>;

/// Relies on `Path::file_name`: the final component of a path, if it is a name.
#[verifier::external_body]
fn file_name(p: &str) -> (r: Option<String>)
    ensures
        match r {
            Some(s) => file_name_of(p@) == Some(s@),
            None => file_name_of(p@) is None,
        },
{
    match std::path::Path::new(p).file_name() {
        Some(n) => Some(n.to_string_lossy().into_owned()),
        None => None,
    }
}

/// `s` with `x` added at the end, unless it holds `x` already.
pub open spec fn add_unique(s: Seq<Seq<char>>, x: Seq<char>) -> Seq<Seq<char>> {
    if s.contains(x) {
        s
    } else {
        s.push(x)
    }
}

/// Whether a folder is on the local file system.
pub open spec fn is_file_folder(f: FolderUri) -> bool {
    f.scheme is Some && f.scheme->Some_0@ == "file"@
}

/// The folder paths and other addresses after adding `fs`, in order, to `paths`
/// and `others`.
pub open spec fn folders_after(paths: Seq<Seq<char>>, others: Seq<Seq<char>>, fs: Seq<FolderUri>) -> (
    Seq<Seq<char>>,
    Seq<Seq<char>>,
)
    decreases fs.len(),
{
    if fs.len() == 0 {
        (paths, others)
    } else {
        let (p, o) = folders_after(paths, others, fs.drop_last());
        let f = fs.last();
        if is_file_folder(f) {
            (add_unique(p, f.path@), o)
        } else {
            (p, add_unique(o, f.text@))
        }
    }
}

pub open spec fn texts(v: Seq<String>) -> Seq<Seq<char>> {
    v.map_values(|s: String| s@)
}

/// The folders of the workspace: paths of `file` folders, each once, and the
/// addresses of the others, which are kept but not used.
pub struct Workspace {
    folders: Vec<String>,
    unused_folders: Vec<String>,
}

impl Workspace {
    /// The paths of the `file` folders, in the order they were added.
    pub closed spec fn folder_paths(&self) -> Seq<Seq<char>> {
        texts(self.folders@)
    }

    /// The addresses of the other folders.
    pub closed spec fn other_folders(&self) -> Seq<Seq<char>> {
        texts(self.unused_folders@)
    }

    pub open spec fn wf(&self) -> bool {
        self.folder_paths().no_duplicates() && self.other_folders().no_duplicates()
    }

    pub fn new() -> (r: Self)
        ensures
            r.wf(),
            r.folder_paths().len() == 0,
            r.other_folders().len() == 0,
    {
        let r = Workspace { folders: Vec::new(), unused_folders: Vec::new() };
        assert(r.folder_paths() == Seq::<Seq<char>>::empty());
        assert(r.other_folders() == Seq::<Seq<char>>::empty());
        r
    }

    /// Adds a folder: the path of a `file` folder, else the address.
    pub fn add_folder(&mut self, folder: FolderUri)
        requires
            old(self).wf(),
        ensures
            final(self).wf(),
            is_file_folder(folder) ==> final(self).other_folders() == old(self).other_folders()
                && final(self).folder_paths() == add_unique(old(self).folder_paths(), folder.path@),
            !is_file_folder(folder) ==> final(self).folder_paths() == old(self).folder_paths()
                && final(self).other_folders() == add_unique(old(self).other_folders(), folder.text@),
    {
        let is_file = match &folder.scheme {
            Some(s) => *s == String::from_str("file"),
            None => false,
        };
        assert(is_file == is_file_folder(folder));
        if is_file {
            insert_unique(&mut self.folders, folder.path);
        } else {
            insert_unique(&mut self.unused_folders, folder.text);
        }
    }

    /// The paths of the `file` folders.
    pub fn folders(&self) -> (r: &Vec<String>)
        ensures
            texts(r@) == self.folder_paths(),
    {
        &self.folders
    }

    /// The last components of the folders' paths, those that have one.
    pub fn folder_names(&self) -> (r: Vec<String>)
        ensures
            texts(r@) == names_of(self.folder_paths(), self.folder_paths().len() as int),
    {
        let mut r: Vec<String> = Vec::new();
        let mut i: usize = 0;
        while i < self.folders.len()
            invariant
                i <= self.folders.len(),
                texts(r@) == names_of(texts(self.folders@), i as int),
            decreases self.folders.len() - i,
        {
            let ghost before = r@;
            match file_name(self.folders[i].as_str()) {
                Some(n) => {
                    r.push(n);
                    assert(texts(r@) == texts(before).push(n@));
                },
                None => {},
            }
            i = i + 1;
        }
        r
    }
}

/// The last components of the first `n` paths, those that have one.
pub open spec fn names_of(paths: Seq<Seq<char>>, n: int) -> Seq<Seq<char>>
    decreases n,
{
    if n <= 0 {
        seq![]
    } else {
        names_of(paths, n - 1) + match file_name_of(paths[n - 1]) {
            Some(f) => seq![f],
            None => seq![],
        }
    }
}

fn insert_unique(v: &mut Vec<String>, s: String)
    requires
        texts(old(v)@).no_duplicates(),
    ensures
        texts(final(v)@).no_duplicates(),
        texts(final(v)@) == if texts(old(v)@).contains(s@) {
            texts(old(v)@)
        } else {
            texts(old(v)@).push(s@)
        },
{
    let mut i: usize = 0;
    while i < v.len()
        invariant
            i <= v.len(),
            v@ == old(v)@,
            texts(v@).no_duplicates(),
            forall|k: int| 0 <= k < i ==> v@[k]@ != s@,
        decreases v.len() - i,
    {
        if v[i] == s {
            assert(texts(v@)[i as int] == s@);
            return;
        }
        i = i + 1;
    }
    assert(!texts(v@).contains(s@)) by {
        if texts(v@).contains(s@) {
            let k = choose|k: int| 0 <= k < texts(v@).len() && texts(v@)[k] == s@;
            assert(v@[k]@ == s@);
        }
    }
    let ghost before = v@;
    v.push(s);
    assert(texts(v@) == texts(before).push(s@));
}

} // verus!
