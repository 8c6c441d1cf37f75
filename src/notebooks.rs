//! Notebooks: directories of posts under the configured root.
//!
//! The file system stays with the caller. These functions decide, from what
//! the caller found on disk, which notebooks there are, where a new post
//! goes and what it holds, and what a query over the posts returns.

use vstd::prelude::*;
use crate::config::Config;
use crate::index::{entry_line, index_entry, post_contents, post_text_of, views};
use crate::path::{file_name, join, joined, last_component, post_path_of, render_post_path, suffixed, suffixed_path};
use crate::search::{all_tags, is_tally, search_files, search_result, Tag};
use crate::slug::{slug_of, slugify};
use crate::time::Timestamp;
use crate::Error;

verus! {

/// The file inside a notebook directory that holds its configuration.
pub const CONFIG_FILE: &'static str = "notebook.toml";

/// The file inside a notebook directory that holds its post index.
pub const INDEX_FILE: &'static str = "posts.txt";

/// The settings of one notebook.
pub struct NotebookConfig {
    pub name: String,
    pub description: String,
    /// Where a post goes, relative to the notebook directory, with the
    /// placeholders `%Y`, `%m`, `%d` (the date) and `%s` (the slug).
    pub post_path: String,
    /// Whether a post starts with a header that holds its timestamp.
    pub metadata: bool,
}

/// A notebook: its id (the name of its directory) and its directory.
pub struct Notebook {
    pub id: String,
    pub path: String,
}

/// A post about to be written: where it goes relative to the notebook
/// directory, before any collision suffix, and what the file holds.
pub struct Draft {
    pub relative: String,
    pub contents: String,
}

/// One place a post may be written to, and the index line that records it.
pub struct Target {
    pub path: String,
    pub index_line: String,
}

/// What to do next while looking for a free place for a post.
pub enum Step {
    /// The place is free: write the post there.
    Write(Target),
    /// The place is taken: try this attempt next.
    Retry(u64),
    /// Every attempt is taken.
    GiveUp,
}

/// A directory entry under the notebook root, as the caller found it.
pub struct Child {
    pub path: String,
    /// Whether the entry exists as a directory.
    pub exists: bool,
    /// Whether it holds a notebook configuration file.
    pub has_config: bool,
}

/// The notebook at `path`, if the directory exists and holds a configuration.
pub open spec fn notebook_at(path: Seq<char>, exists: bool, has_config: bool) -> Option<(Seq<char>, Seq<char>)> {
    if exists && has_config { Some((last_component(path), path)) } else { None }
}

/// Whether `r` is the notebook `notebook_at` describes.
pub open spec fn loaded_as(r: Option<Notebook>, path: Seq<char>, exists: bool, has_config: bool) -> bool {
    match notebook_at(path, exists, has_config) {
        Some((id, p)) => r is Some && r->0.id@ == id && r->0.path@ == p,
        None => r is None,
    }
}

/// The notebooks among the first `n` children, in their order.
pub open spec fn notebooks_upto(children: Seq<Child>, n: nat) -> Seq<(Seq<char>, Seq<char>)>
    decreases n,
{
    if n == 0 {
        Seq::empty()
    } else {
        let prev = notebooks_upto(children, (n - 1) as nat);
        let c = children[n - 1];
        match notebook_at(c.path@, c.exists, c.has_config) {
            Some(nb) => prev.push(nb),
            None => prev,
        }
    }
}

/// The place of attempt `n` for a post at `rel` in the notebook directory
/// `base`.
pub open spec fn attempt_path(base: Seq<char>, rel: Seq<char>, n: nat) -> Seq<char> {
    joined(base, suffixed(rel, n))
}

/// Whether attempt `k` is the first whose place is not among `existing`.
pub open spec fn is_first_free(base: Seq<char>, rel: Seq<char>, existing: Set<Seq<char>>, k: nat) -> bool {
    &&& !existing.contains(attempt_path(base, rel, k))
    &&& forall|j: nat| j < k ==> existing.contains(#[trigger] attempt_path(base, rel, j))
}

/// Posting twice to the same template path keeps both posts: the first
/// post takes the first free attempt; once it is written, the second post
/// takes a later attempt, whose place is neither the first post's nor any
/// place that existed before.
pub proof fn lemma_repeated_post_distinct(base: Seq<char>, rel: Seq<char>, existing: Set<Seq<char>>, k1: nat, k2: nat)
    requires
        is_first_free(base, rel, existing, k1),
        is_first_free(base, rel, existing.insert(attempt_path(base, rel, k1)), k2),
    ensures
        k1 < k2,
        attempt_path(base, rel, k2) != attempt_path(base, rel, k1),
        !existing.contains(attempt_path(base, rel, k2)),
{
    if k2 < k1 {
        assert(existing.contains(attempt_path(base, rel, k2)));
    }
}

/// The ids and directories of a sequence of notebooks.
pub open spec fn notebook_views(v: Seq<Notebook>) -> Seq<(Seq<char>, Seq<char>)> {
    v.map_values(|nb: Notebook| (nb.id@, nb.path@))
}

impl NotebookConfig {
    /// The settings of a new notebook `id`: named after it, no description,
    /// posts at `%Y-%m-%d-%s.md`, with a metadata header.
    pub fn default_for(id: &str) -> (r: NotebookConfig)
        ensures
            r.name@ == id@,
            r.description@ == Seq::<char>::empty(),
            r.post_path@ == "%Y-%m-%d-%s.md"@,
            r.metadata,
    {
        NotebookConfig {
            name: id.to_string(),
            description: String::new(),
            post_path: String::from_str("%Y-%m-%d-%s.md"),
            metadata: true,
        }
    }
}

impl Notebook {
    /// Loads a notebook from any path: the directory must exist and hold a
    /// configuration file. Returns `None` otherwise.
    pub fn load_from_path(path: &str, exists: bool, has_config: bool) -> (r: Option<Notebook>)
        ensures
            loaded_as(r, path@, exists, has_config),
    {
        if exists && has_config {
            Some(Notebook { id: file_name(path), path: path.to_string() })
        } else {
            None
        }
    }

    /// The directory of notebook `id` under the configured root.
    pub fn path_in(config: &Config, id: &str) -> (r: String)
        ensures
            r@ == joined(config.root@, id@),
    {
        join(config.root.as_str(), id)
    }

    /// Loads notebook `id` from the root directory; `exists` and
    /// `has_config` tell what the caller found at [`Notebook::path_in`].
    pub fn load(config: &Config, id: &str, exists: bool, has_config: bool) -> (r: Option<Notebook>)
        ensures
            loaded_as(r, joined(config.root@, id@), exists, has_config),
    {
        let p = Notebook::path_in(config, id);
        Notebook::load_from_path(p.as_str(), exists, has_config)
    }

    /// Plans a new notebook `id`. Fails with `Exists` exactly when its
    /// directory exists already; otherwise gives the notebook and the
    /// settings to write into it.
    pub fn generate(config: &Config, id: &str, exists: bool) -> (r: Result<(Notebook, NotebookConfig), Error>)
        ensures
            exists <==> r == Err::<(Notebook, NotebookConfig), Error>(Error::Exists),
            !exists <==> r is Ok,
            r is Ok ==> ({
                let (nb, conf) = r->Ok_0;
                &&& nb.path@ == joined(config.root@, id@)
                &&& nb.id@ == last_component(joined(config.root@, id@))
                &&& conf.name@ == id@
                &&& conf.description@ == Seq::<char>::empty()
                &&& conf.post_path@ == "%Y-%m-%d-%s.md"@
                &&& conf.metadata
            }),
    {
        if exists {
            return Err(Error::Exists);
        }
        let p = Notebook::path_in(config, id);
        let nb = Notebook { id: file_name(p.as_str()), path: p };
        Ok((nb, NotebookConfig::default_for(id)))
    }

    /// The post of `text` written at `now` under the settings `config`:
    /// its path from the template, with the slug of the text, and its
    /// contents, the header first when the settings ask for one.
    pub fn draft_post(&self, config: &NotebookConfig, text: &str, now: &Timestamp) -> (r: Draft)
        ensures
            r.relative@ == post_path_of(config.post_path@, *now, slug_of(text@)),
            r.contents@ == post_text_of(config.metadata, now.timestamp@, text@),
    {
        let slug = slugify(text);
        let relative = render_post_path(config.post_path.as_str(), now, slug.as_str());
        let contents = post_contents(config.metadata, now.timestamp.as_str(), text);
        Draft { relative, contents }
    }

    /// The place of attempt `attempt` for a post at `relative`: attempt `0`
    /// is the path itself, attempt `n` has `.n` appended to its last
    /// component. The index line records the file name of that place.
    pub fn post_target(&self, relative: &str, attempt: u64) -> (r: Target)
        ensures
            r.path@ == joined(self.path@, suffixed(relative@, attempt as nat)),
            r.index_line@ == entry_line(last_component(r.path@)),
    {
        let rel = suffixed_path(relative, attempt);
        let path = join(self.path.as_str(), rel.as_str());
        let name = file_name(path.as_str());
        let index_line = index_entry(name.as_str());
        Target { path, index_line }
    }

    /// The next step of the search for a free place for a post at
    /// `relative`, from attempt `0` on: write at attempt `attempt` when its
    /// place is not `occupied`, else go on to the next attempt.
    pub fn next_step(&self, relative: &str, attempt: u64, occupied: bool) -> (r: Step)
        ensures
            !occupied ==> (r matches Step::Write(t) && t.path@ == attempt_path(self.path@, relative@, attempt as nat)
                && t.index_line@ == entry_line(last_component(t.path@))),
            occupied && attempt < u64::MAX ==> (r matches Step::Retry(n) && n == attempt + 1),
            occupied && attempt == u64::MAX ==> r is GiveUp,
    {
        if !occupied {
            Step::Write(self.post_target(relative, attempt))
        } else if attempt < u64::MAX {
            Step::Retry(attempt + 1)
        } else {
            Step::GiveUp
        }
    }

    /// The paths of the posts named in the index, joined onto the notebook
    /// directory.
    pub fn absolute_paths(&self, names: &Vec<String>) -> (r: Vec<String>)
        ensures
            r.len() == names.len(),
            forall|i: int| 0 <= i < r.len() ==> #[trigger] r@[i]@ == joined(self.path@, names@[i]@),
    {
        let mut r: Vec<String> = Vec::new();
        let mut i: usize = 0;
        while i < names.len()
            invariant
                i <= names.len(),
                r.len() == i,
                forall|k: int| 0 <= k < i ==> #[trigger] r@[k]@ == joined(self.path@, names@[k]@),
            decreases names.len() - i,
        {
            r.push(join(self.path.as_str(), names[i].as_str()));
            i = i + 1;
        }
        r
    }

    /// The posts named in the index whose text contains `query`, as paths
    /// joined onto the notebook directory, in index order. `texts[i]` is
    /// the text of post `names[i]`, or `None` where it could not be read.
    pub fn search(&self, names: &Vec<String>, texts: &Vec<Option<String>>, query: &str) -> (r: Vec<String>)
        requires
            names.len() == texts.len(),
        ensures
            exists|paths: Seq<String>|
                paths.len() == names.len()
                && (forall|i: int| 0 <= i < paths.len() ==> #[trigger] paths[i]@ == joined(self.path@, names@[i]@))
                && views(r@) == search_result(views(paths), texts@, query@),
    {
        let paths = self.absolute_paths(names);
        search_files(&paths, texts, query)
    }

    /// The tags of the notebook's posts, each with its number of
    /// occurrences. `texts` holds the text of each post, or `None` where it
    /// could not be read.
    pub fn tags(&self, texts: &Vec<Option<String>>) -> (r: Vec<Tag>)
        ensures
            is_tally(r@, all_tags(texts@)),
    {
        crate::search::tags(texts)
    }
}

/// The notebooks among the entries of the root directory, in their order;
/// entries that are not notebooks are left out.
pub fn list_notebooks(children: &Vec<Child>) -> (r: Vec<Notebook>)
    ensures
        notebook_views(r@) == notebooks_upto(children@, children.len() as nat),
{
    let mut r: Vec<Notebook> = Vec::new();
    let mut i: usize = 0;
    while i < children.len()
        invariant
            i <= children.len(),
            notebook_views(r@) == notebooks_upto(children@, i as nat),
        decreases children.len() - i,
    {
        let c = &children[i];
        let nb = Notebook::load_from_path(c.path.as_str(), c.exists, c.has_config);
        match nb {
            Some(n) => {
                let ghost before = r@;
                r.push(n);
                proof {
                    assert(notebook_views(r@) =~= notebook_views(before).push((r@.last().id@, r@.last().path@)));
                }
            },
            None => {},
        }
        i = i + 1;
    }
    r
}

} // verus!
