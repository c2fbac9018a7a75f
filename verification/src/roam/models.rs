use vstd::prelude::*;

verus! {

/// A node of the org-roam database.
#[derive(Clone, Debug)]
pub struct OrgRoamNode {
    pub id: String,
    pub file: String,
    pub level: i32,
    pub pos: i32,
    pub todo: Option<String>,
    pub priority: Option<String>,
    pub scheduled: Option<String>,
    pub deadline: Option<String>,
    pub title: Option<String>,
    pub properties: Option<String>,
    pub olp: Option<String>,
    pub tags: Vec<String>,
    pub aliases: Vec<String>,
}

/// A link between two nodes.
#[derive(Clone, Debug)]
pub struct OrgRoamLink {
    pub pos: i32,
    pub source: String,
    pub dest: String,
    pub link_type: String,
    pub properties: Option<String>,
}

/// A file known to the database.
#[derive(Clone, Debug)]
pub struct OrgRoamFile {
    pub file: String,
    pub title: Option<String>,
    pub hash: String,
    pub atime: i64,
    pub mtime: i64,
}

/// How many of each kind of row the database holds.
#[derive(Clone, Copy, Debug, PartialEq, Eq, Structural)]
pub struct DatabaseStats {
    pub nodes: i64,
    pub files: i64,
    pub links: i64,
    pub unique_tags: i64,
    pub aliases: i64,
}

} // verus!
