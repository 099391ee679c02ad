//! Where the application keeps its data under the user's home directory.

use vstd::prelude::*;

verus! {

/// The path `PathBuf::from(base).join(seg)`, as text.
pub uninterp spec fn path_join(base: Seq<char>, seg: Seq<char>) -> Seq<char>;

/// `Path::join`: `seg` appended to `base` with the platform's separator (or
/// `seg` alone when it is absolute). The result is named, not spelled out:
/// separators and prefixes are the platform's.
#[verifier::external_body]
fn join_path(base: &str, seg: &str) -> (r: String)
    ensures
        r@ == path_join(base@, seg@),
{
    std::path::Path::new(base).join(seg).to_string_lossy().into_owned()
}

/// The application's directory tree.
#[derive(Debug, Clone)]
pub struct Paths {
    pub root: String,
}

impl Paths {
    /// The tree rooted at `CogniTrade` in the home directory `home`.
    pub fn new(home: String) -> (p: Paths)
        ensures
            p.root@ == path_join(home@, "CogniTrade"@),
    {
        Paths { root: join_path(home.as_str(), "CogniTrade") }
    }

    /// Where dropped documents are watched and ingested.
    pub fn library(&self) -> (r: String)
        ensures
            r@ == path_join(self.root@, "library"@),
    {
        join_path(self.root.as_str(), "library")
    }

    /// Where chart screenshots are saved.
    pub fn screenshots(&self) -> (r: String)
        ensures
            r@ == path_join(self.root@, "screenshots"@),
    {
        join_path(self.root.as_str(), "screenshots")
    }

    /// Where the databases live.
    pub fn data(&self) -> (r: String)
        ensures
            r@ == path_join(self.root@, "data"@),
    {
        join_path(self.root.as_str(), "data")
    }

    /// The vector store database.
    pub fn lancedb(&self) -> (r: String)
        ensures
            r@ == path_join(path_join(self.root@, "data"@), "vec.db"@),
    {
        join_path(self.data().as_str(), "vec.db")
    }

    /// The chat, predictions, cost and settings database.
    pub fn chat_db(&self) -> (r: String)
        ensures
            r@ == path_join(path_join(self.root@, "data"@), "chat.db"@),
    {
        join_path(self.data().as_str(), "chat.db")
    }

    /// Where logs are written.
    pub fn logs(&self) -> (r: String)
        ensures
            r@ == path_join(self.root@, "logs"@),
    {
        join_path(self.root.as_str(), "logs")
    }
}

} // verus!
