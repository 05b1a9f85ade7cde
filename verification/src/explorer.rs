//! Knowledge exploration settings: what to explore, and where the wiki and
//! project databases are.

use std::path::PathBuf;
use vstd::prelude::*;

verus! {

#[verifier::external_type_specification]
#[verifier::external_body]
pub struct ExPathBuf(PathBuf);

/// `PathBuf::clone`: a copy of the path, equal to it.
pub assume_specification[ <PathBuf as Clone>::clone ](p: &PathBuf) -> (r: PathBuf)
    ensures
        r == *p,
;

/// What to explore and how deep to go.
#[derive(Clone, Debug)]
pub struct ExploreQuery {
    pub topic: String,
    pub entity_kinds: Vec<String>,
    pub depth: u32,
    pub limit: usize,
    pub include_history: bool,
}

/// Explores the wiki graph and project metadata for relevant knowledge.
pub struct KnowledgeExplorer {
    wiki_db: Option<PathBuf>,
    project_db: Option<PathBuf>,
}

/// `Path::exists`: whether something is at the path on disk now. What the
/// disk holds is not stated.
#[verifier::external_body]
fn path_exists(p: &PathBuf) -> (r: bool) {
    p.exists()
}

impl KnowledgeExplorer {
    /// The wiki database, if any.
    pub closed spec fn wiki(&self) -> Option<PathBuf> {
        self.wiki_db
    }

    /// The project database, if any.
    pub closed spec fn project(&self) -> Option<PathBuf> {
        self.project_db
    }

    /// An explorer on the wiki database at `wiki_db`, or `None` when no file
    /// is there.
    pub fn new(wiki_db: PathBuf) -> (r: Option<KnowledgeExplorer>)
        ensures
            r matches Some(e) ==> e.wiki() == Some(wiki_db) && e.project() is None,
    {
        let exists = path_exists(&wiki_db);
        Self::with_wiki_if(wiki_db, exists)
    }

    /// An explorer on the wiki database at `wiki_db` when `exists`, else `None`.
    pub fn with_wiki_if(wiki_db: PathBuf, exists: bool) -> (r: Option<KnowledgeExplorer>)
        ensures
            exists <==> r is Some,
            r matches Some(e) ==> e.wiki() == Some(wiki_db) && e.project() is None,
    {
        if exists {
            Some(KnowledgeExplorer { wiki_db: Some(wiki_db), project_db: None })
        } else {
            None
        }
    }

    /// An explorer over the code graph of one project only, without a wiki.
    pub fn code_only(project_db: PathBuf) -> (r: KnowledgeExplorer)
        ensures
            r.wiki() is None,
            r.project() == Some(project_db),
    {
        KnowledgeExplorer { wiki_db: None, project_db: Some(project_db) }
    }

    /// The same explorer with a project database for project history.
    pub fn with_project_db(self, db: PathBuf) -> (r: KnowledgeExplorer)
        ensures
            r.wiki() == self.wiki(),
            r.project() == Some(db),
    {
        let mut s = self;
        s.project_db = Some(db);
        s
    }

    /// Whether a wiki database is configured.
    pub fn has_wiki(&self) -> (r: bool)
        ensures
            r == self.wiki() is Some,
    {
        self.wiki_db.is_some()
    }
}

} // verus!
