//! Where the content of files is kept: a directory per workspace.
use crate::chunking::{last_component, path_components};
use crate::paths::{strip_leading_slashes, strip_slashes};
use crate::settings::{file_path_under, joined_file_path};
use crate::text::{blank, is_blank, same_text};
use vstd::prelude::*;
use vstd::string::StringExecFns;

verus! {

#[derive(Debug, Clone, Copy, PartialEq, Eq, Structural)]
pub enum StorageError {
    EmptyWorkspace,
}

impl StorageError {
    pub fn message(&self) -> (r: String)
        ensures
            r@ == "workspace id cannot be empty"@,
    {
        "workspace id cannot be empty".to_owned()
    }
}

/// The directory of a workspace below a root.
pub open spec fn workspace_root_of(root: Seq<char>, workspace_id: Seq<char>) -> Result<
    Seq<char>,
    StorageError,
> {
    if is_blank(workspace_id) {
        Err(StorageError::EmptyWorkspace)
    } else {
        Ok(joined_file_path(root, workspace_id))
    }
}

pub trait ContentStore {
    /// The directory that the workspaces' directories are in.
    spec fn base(&self) -> Seq<char>;

    fn workspace_root(&self, workspace_id: &str) -> (r: Result<String, StorageError>)
        ensures
            match r {
                Ok(p) => workspace_root_of(self.base(), workspace_id@) == Ok::<
                    Seq<char>,
                    StorageError,
                >(p@),
                Err(e) => workspace_root_of(self.base(), workspace_id@) == Err::<
                    Seq<char>,
                    StorageError,
                >(e),
            },
    ;

    /// Changes of the content can be watched through fanotify.
    spec fn has_fanotify(&self) -> bool;

    fn supports_fanotify(&self) -> (r: bool)
        ensures
            r == self.has_fanotify(),
    ;
}

fn root_of_workspace(root: &str, workspace_id: &str) -> (r: Result<String, StorageError>)
    ensures
        match r {
            Ok(p) => workspace_root_of(root@, workspace_id@) == Ok::<Seq<char>, StorageError>(p@),
            Err(e) => workspace_root_of(root@, workspace_id@) == Err::<Seq<char>, StorageError>(e),
        },
{
    if blank(workspace_id) {
        return Err(StorageError::EmptyWorkspace);
    }
    Ok(file_path_under(root, workspace_id))
}

/// Content in a local directory.
#[derive(Debug, Clone)]
pub struct LocalFsContentStore {
    pub root: String,
}

impl LocalFsContentStore {
    pub fn new(root: &str) -> (r: LocalFsContentStore)
        ensures
            r.base() == root@,
    {
        LocalFsContentStore { root: root.to_owned() }
    }
}

impl ContentStore for LocalFsContentStore {
    open spec fn base(&self) -> Seq<char> {
        self.root@
    }

    fn workspace_root(&self, workspace_id: &str) -> (r: Result<String, StorageError>) {
        root_of_workspace(self.root.as_str(), workspace_id)
    }

    open spec fn has_fanotify(&self) -> bool {
        true
    }

    fn supports_fanotify(&self) -> (r: bool) {
        true
    }
}

/// Content in a mounted JuiceFS.
#[derive(Debug, Clone)]
pub struct JuiceFsContentStore {
    pub mount_root: String,
}

impl JuiceFsContentStore {
    pub fn new(mount_root: &str) -> (r: JuiceFsContentStore)
        ensures
            r.base() == mount_root@,
    {
        JuiceFsContentStore { mount_root: mount_root.to_owned() }
    }
}

impl ContentStore for JuiceFsContentStore {
    open spec fn base(&self) -> Seq<char> {
        self.mount_root@
    }

    fn workspace_root(&self, workspace_id: &str) -> (r: Result<String, StorageError>) {
        root_of_workspace(self.mount_root.as_str(), workspace_id)
    }

    open spec fn has_fanotify(&self) -> bool {
        true
    }

    fn supports_fanotify(&self) -> (r: bool) {
        true
    }
}

// ---------------------------------------------------------------------------
// Files
// ---------------------------------------------------------------------------

/// The file that holds the content of the node at `path`: always below the workspace's directory.
pub open spec fn content_file_of(workspace_root: Seq<char>, path: Seq<char>) -> Seq<char> {
    joined_file_path(workspace_root, strip_slashes(path))
}

pub fn content_file(workspace_root: &str, path: &str) -> (r: String)
    ensures
        r@ == content_file_of(workspace_root@, path@),
{
    file_path_under(workspace_root, strip_leading_slashes(path).as_str())
}

proof fn lemma_strip_slashes(s: Seq<char>)
    ensures
        strip_slashes(s).len() > 0 ==> strip_slashes(s)[0] != '/',
    decreases s.len(),
{
    if s.len() > 0 && s[0] == '/' {
        lemma_strip_slashes(s.drop_first());
    }
}

/// The content of a node is kept below its workspace's directory, whatever slashes its path begins
/// with.
pub proof fn lemma_content_below_root(workspace_root: Seq<char>, path: Seq<char>)
    ensures
        crate::text::has_prefix(content_file_of(workspace_root, path), workspace_root),
{
    lemma_strip_slashes(path);
    let f = content_file_of(workspace_root, path);
    assert(f.take(workspace_root.len() as int) =~= workspace_root);
}

/// The name of a file: the last component of its path, unless that is `..`.
pub open spec fn file_name_of(path: Seq<char>) -> Option<Seq<char>> {
    let cs = path_components(path);
    if cs.len() == 0 || cs.last() == seq!['.', '.'] {
        None
    } else {
        Some(cs.last())
    }
}

/// The name under which the content of a file is written before it takes the file's place.
pub open spec fn temp_name_of(file_path: Seq<char>, unique: Seq<char>) -> Seq<char> {
    let name = match file_name_of(file_path) {
        Some(n) => n,
        None => "content"@,
    };
    "."@ + name + ".tmp."@ + unique
}

pub fn temp_file_name(file_path: &str, unique: &str) -> (r: String)
    ensures
        r@ == temp_name_of(file_path@, unique@),
{
    proof {
        reveal_strlit("..");
        assert(".."@ =~= seq!['.', '.']);
    }
    let mut r = ".".to_owned();
    match last_component(file_path) {
        Some(name) => {
            if same_text(name.as_str(), "..") {
                r.append("content");
            } else {
                r.append(name.as_str());
            }
        },
        None => {
            r.append("content");
        },
    }
    r.append(".tmp.");
    r.append(unique);
    r
}

/// The database of a workspace's index.
pub open spec fn index_db_of(root: Seq<char>, workspace_id: Seq<char>) -> Result<
    Seq<char>,
    crate::index_error::ErrorView,
> {
    let w = crate::text::trim(workspace_id);
    if w.len() == 0 {
        Err(crate::index_error::ErrorView::InvalidPath("workspace_id cannot be empty"@))
    } else {
        Ok(joined_file_path(joined_file_path(root, w), "index.db"@))
    }
}

pub fn db_path_for_workspace(root: &str, workspace_id: &str) -> (r: Result<
    String,
    crate::index_error::IndexError,
>)
    ensures
        crate::index_error::agrees(r, index_db_of(root@, workspace_id@)),
{
    let w = crate::text::trim_text(workspace_id);
    if w.as_str().is_empty() {
        return Err(
            crate::index_error::IndexError::InvalidPath(
                "workspace_id cannot be empty".to_owned(),
            ),
        );
    }
    Ok(file_path_under(file_path_under(root, w.as_str()).as_str(), "index.db"))
}

/// A workspace lies in a directory of its own name under the root, and only a blank name has none.
pub proof fn lemma_where_a_workspace_is(root: Seq<char>, workspace_id: Seq<char>)
    ensures
        is_blank(workspace_id) <==> workspace_root_of(root, workspace_id) == Err::<
            Seq<char>,
            StorageError,
        >(StorageError::EmptyWorkspace),
        !is_blank(workspace_id) && workspace_id[0] != '/' && root.len() > 0 && root.last() != '/'
            ==> workspace_root_of(root, workspace_id) == Ok::<Seq<char>, StorageError>(
            root + seq!['/'] + workspace_id,
        ),
{
}

/// The database of a workspace lies in its directory, whatever blanks stand round its name.
pub proof fn lemma_where_an_index_is(root: Seq<char>, workspace_id: Seq<char>)
    ensures
        ({
            let w = crate::text::trim(workspace_id);
            let r = index_db_of(root, workspace_id);
            &&& r is Ok <==> w.len() > 0
            &&& w.len() > 0 && w[0] != '/' && w.last() != '/' && root.len() > 0 && root.last() != '/'
                ==> r->Ok_0 == root + seq!['/'] + w + seq!['/'] + "index.db"@
            &&& w.len() == 0 ==> r == Err::<Seq<char>, crate::index_error::ErrorView>(
                crate::index_error::ErrorView::InvalidPath("workspace_id cannot be empty"@),
            )
        }),
{
    reveal_strlit("index.db");
    assert("index.db"@[0] == 'i');
}

/// A file lies under the root of its workspace, whether its path begins with a slash or not.
pub proof fn lemma_where_a_file_is(workspace_root: Seq<char>, path: Seq<char>)
    requires
        path.len() > 0,
        path[0] != '/',
        workspace_root.len() > 0,
        workspace_root.last() != '/',
    ensures
        content_file_of(workspace_root, path) == workspace_root + seq!['/'] + path,
        content_file_of(workspace_root, seq!['/'] + path) == workspace_root + seq!['/'] + path,
{
    reveal_with_fuel(strip_slashes, 2);
    assert((seq!['/'] + path).drop_first() =~= path);
}

/// A file is written under a hidden name first, made of its own name and something that no other
/// write has.
pub proof fn lemma_temp_names(file_path: Seq<char>, unique: Seq<char>, other: Seq<char>)
    ensures
        ({
            let t = temp_name_of(file_path, unique);
            &&& t.len() > 0 && t[0] == '.'
            &&& t.len() >= unique.len() && t.skip(t.len() - unique.len()) == unique
            &&& file_name_of(file_path) is Some ==> t == "."@ + file_name_of(file_path)->0 + ".tmp."@
                + unique
            &&& file_name_of(file_path) is None ==> t == ".content.tmp."@ + unique
            &&& unique.len() == other.len() && unique != other ==> t != temp_name_of(file_path, other)
        }),
{
    reveal_strlit(".");
    reveal_strlit("content");
    reveal_strlit(".tmp.");
    reveal_strlit(".content.tmp.");
    let t = temp_name_of(file_path, unique);
    let u = temp_name_of(file_path, other);
    assert(t[0] == '.');
    assert(t.skip(t.len() - unique.len()) =~= unique);
    assert(u.skip(u.len() - other.len()) =~= other);
    assert(("."@ + "content"@ + ".tmp."@) =~= ".content.tmp."@);
}

/// The name of a file is the last part of its path; a path that ends above where it began has none.
pub proof fn lemma_file_names(path: Seq<char>)
    ensures
        path_components(path).len() == 0 ==> file_name_of(path) is None,
        path_components(path).len() > 0 && path_components(path).last() == ".."@ ==> file_name_of(
            path,
        ) is None,
        path_components(path).len() > 0 && path_components(path).last() != ".."@ ==> file_name_of(
            path,
        ) == Some(path_components(path).last()),
{
    reveal_strlit("..");
    assert(".."@ =~= seq!['.', '.']);
}

} // verus!
