//! Project context: technology tags read off a directory listing, and the
//! ranking boost they give to commands.
use vstd::prelude::*;
use crate::text::{lower_of, has_infix, views, chars_of, contains_chars, lowercase, same_text};

verus! {

/// The technology tags of a project, each at most once, in ascending order.
pub struct ProjectContext {
    pub tags: Vec<String>,
}

impl View for ProjectContext {
    type V = Seq<Seq<char>>;

    open spec fn view(&self) -> Seq<Seq<char>> {
        views(self.tags@)
    }
}

/// Boost multipliers are written in tenths: ten is neutral.
pub const NO_BOOST: u32 = 10;

/// The boost a command gets in a project with `tags`, in tenths: the first
/// row of the table whose tag is present and one of whose keywords the
/// lower-cased command contains decides; no such row leaves it neutral.
pub open spec fn boost_of(tags: Seq<Seq<char>>, command: Seq<char>) -> u32 {
    boost_table(tags, lower_of(command))
}

/// The boost table applied to an already lower-cased command `c`.
pub open spec fn boost_table(tags: Seq<Seq<char>>, c: Seq<char>) -> u32 {
    if tags.contains("nodejs"@) && (has_infix(c, "npm"@) || has_infix(c, "yarn"@) || has_infix(c, "node"@)) {
        25
    } else if tags.contains("python"@) && (has_infix(c, "pip"@) || has_infix(c, "python"@) || has_infix(c, "venv"@)) {
        25
    } else if (tags.contains("docker"@) || tags.contains("docker-compose"@)) && has_infix(c, "docker"@) {
        25
    } else if tags.contains("kubernetes"@) && (has_infix(c, "kubectl"@) || has_infix(c, "helm"@) || has_infix(c, "k8s"@)) {
        25
    } else if tags.contains("git"@) && has_infix(c, "git"@) {
        20
    } else if tags.contains("rust"@) && (has_infix(c, "cargo"@) || has_infix(c, "rustc"@)) {
        25
    } else if tags.contains("golang"@) && (has_infix(c, "go "@) || has_infix(c, "go\t"@)) {
        25
    } else if tags.contains("java"@) && (has_infix(c, "mvn"@) || has_infix(c, "gradle"@) || has_infix(c, "javac"@)) {
        25
    } else {
        NO_BOOST
    }
}

fn has_word(c: &Vec<char>, w: &str) -> (r: bool)
    ensures
        r == has_infix(c@, w@),
{
    let wc = chars_of(w);
    contains_chars(c, &wc)
}

impl ProjectContext {
    /// A context with no tags.
    pub fn empty() -> (r: Self)
        ensures
            r@ == Seq::<Seq<char>>::empty(),
    {
        let r = ProjectContext { tags: Vec::new() };
        assert(r@ =~= Seq::<Seq<char>>::empty());
        r
    }

    /// Whether the context has `tag`.
    pub fn has_tag(&self, tag: &str) -> (r: bool)
        ensures
            r == self@.contains(tag@),
    {
        let mut i: usize = 0;
        while i < self.tags.len()
            invariant
                i <= self.tags@.len(),
                forall|k: int| 0 <= k < i ==> #[trigger] self.tags@[k]@ != tag@,
            decreases self.tags@.len() - i,
        {
            if same_text(self.tags[i].as_str(), tag) {
                assert(self@[i as int] == tag@);
                return true;
            }
            i += 1;
        }
        assert forall|k: int| 0 <= k < self@.len() implies self@[k] != tag@ by {
            assert(self@[k] == self.tags@[k]@);
        }
        false
    }

    /// The boost `command` gets in this context, in tenths.
    pub fn get_boost_multiplier(&self, command: &str) -> (r: u32)
        ensures
            r == boost_of(self@, command@),
    {
        let lc = lowercase(command);
        self.boost_for_lowered(lc.as_str())
    }

    /// The boost an already lower-cased command gets in this context, in tenths.
    pub fn boost_for_lowered(&self, lowered: &str) -> (r: u32)
        ensures
            r == boost_table(self@, lowered@),
    {
        let c = chars_of(lowered);
        if self.has_tag("nodejs") && (has_word(&c, "npm") || has_word(&c, "yarn") || has_word(&c, "node")) {
            return 25;
        }
        if self.has_tag("python") && (has_word(&c, "pip") || has_word(&c, "python") || has_word(&c, "venv")) {
            return 25;
        }
        if (self.has_tag("docker") || self.has_tag("docker-compose")) && has_word(&c, "docker") {
            return 25;
        }
        if self.has_tag("kubernetes") && (has_word(&c, "kubectl") || has_word(&c, "helm") || has_word(&c, "k8s")) {
            return 25;
        }
        if self.has_tag("git") && has_word(&c, "git") {
            return 20;
        }
        if self.has_tag("rust") && (has_word(&c, "cargo") || has_word(&c, "rustc")) {
            return 25;
        }
        if self.has_tag("golang") && (has_word(&c, "go ") || has_word(&c, "go\t")) {
            return 25;
        }
        if self.has_tag("java") && (has_word(&c, "mvn") || has_word(&c, "gradle") || has_word(&c, "javac")) {
            return 25;
        }
        NO_BOOST
    }
}

/// One entry of a project directory: its name, whether it is a regular
/// file, and its text where it was read.
pub struct DirItem {
    pub name: String,
    pub is_file: bool,
    pub content: Option<String>,
}

/// What detection reads of a project directory.
pub struct DirListing {
    /// Whether the directory could be read at all.
    pub exists: bool,
    pub items: Vec<DirItem>,
}

/// The listing has an entry named `name`.
pub open spec fn present(l: DirListing, name: Seq<char>) -> bool {
    exists|i: int| 0 <= i < l.items@.len() && #[trigger] l.items@[i].name@ == name
}

/// A file name with a `.yml` or `.yaml` extension.
pub open spec fn manifest_name(name: Seq<char>) -> bool {
    (name.len() > 4 && name.subrange(name.len() - 4, name.len() as int) == ".yml"@)
        || (name.len() > 5 && name.subrange(name.len() - 5, name.len() as int) == ".yaml"@)
}

/// Some manifest file of the listing mentions `kind:` or `apiVersion:`.
pub open spec fn has_cluster_manifest(l: DirListing) -> bool {
    exists|i: int| 0 <= i < l.items@.len() && {
        let it = #[trigger] l.items@[i];
        it.is_file && manifest_name(it.name@) && it.content is Some && (has_infix(
            it.content->Some_0@,
            "kind:"@,
        ) || has_infix(it.content->Some_0@, "apiVersion:"@))
    }
}

pub open spec fn tag_if(b: bool, tag: Seq<char>) -> Seq<Seq<char>> {
    if b { seq![tag] } else { Seq::empty() }
}

/// The tags of a listing, in ascending order; none for a directory that
/// could not be read.
pub open spec fn detected_tags(l: DirListing) -> Seq<Seq<char>> {
    if !l.exists {
        Seq::empty()
    } else {
        tag_if(present(l, "Dockerfile"@), "docker"@)
            + tag_if(present(l, "docker-compose.yml"@) || present(l, "docker-compose.yaml"@), "docker-compose"@)
            + tag_if(present(l, ".git"@), "git"@)
            + tag_if(present(l, "go.mod"@), "golang"@)
            + tag_if(present(l, "pom.xml"@), "java"@)
            + tag_if(has_cluster_manifest(l), "kubernetes"@)
            + tag_if(present(l, "package.json"@), "nodejs"@)
            + tag_if(present(l, "pyproject.toml"@) || present(l, "requirements.txt"@), "python"@)
            + tag_if(present(l, "Cargo.toml"@), "rust"@)
    }
}

/// Whether a file name has a `.yml` or `.yaml` extension.
pub fn is_manifest_name(name: &str) -> (r: bool)
    ensures
        r == manifest_name(name@),
{
    let c = chars_of(name);
    let n = c.len();
    if n > 4 {
        let mut tail: Vec<char> = Vec::new();
        let mut i: usize = n - 4;
        while i < n
            invariant
                n == c@.len(),
                n > 4,
                n - 4 <= i <= n,
                tail@ == c@.subrange(n - 4, i as int),
            decreases n - i,
        {
            tail.push(c[i]);
            i += 1;
            assert(tail@ =~= c@.subrange(n - 4, i as int));
        }
        if same_chars_lit(&tail, ".yml") {
            return true;
        }
    }
    if n > 5 {
        let mut tail: Vec<char> = Vec::new();
        let mut i: usize = n - 5;
        while i < n
            invariant
                n == c@.len(),
                n > 5,
                n - 5 <= i <= n,
                tail@ == c@.subrange(n - 5, i as int),
            decreases n - i,
        {
            tail.push(c[i]);
            i += 1;
            assert(tail@ =~= c@.subrange(n - 5, i as int));
        }
        if same_chars_lit(&tail, ".yaml") {
            return true;
        }
    }
    false
}

fn same_chars_lit(v: &Vec<char>, lit: &str) -> (r: bool)
    ensures
        r == (v@ == lit@),
{
    let l = chars_of(lit);
    crate::text::same_chars(v, &l)
}

fn listed(l: &DirListing, name: &str) -> (r: bool)
    ensures
        r == present(*l, name@),
{
    let mut i: usize = 0;
    while i < l.items.len()
        invariant
            i <= l.items@.len(),
            forall|k: int| 0 <= k < i ==> #[trigger] l.items@[k].name@ != name@,
        decreases l.items@.len() - i,
    {
        if same_text(l.items[i].name.as_str(), name) {
            return true;
        }
        i += 1;
    }
    false
}

fn cluster_manifest(l: &DirListing) -> (r: bool)
    ensures
        r == has_cluster_manifest(*l),
{
    let mut i: usize = 0;
    while i < l.items.len()
        invariant
            i <= l.items@.len(),
            forall|k: int| 0 <= k < i ==> {
                let it = #[trigger] l.items@[k];
                !(it.is_file && manifest_name(it.name@) && it.content is Some && (has_infix(
                    it.content->Some_0@,
                    "kind:"@,
                ) || has_infix(it.content->Some_0@, "apiVersion:"@)))
            },
        decreases l.items@.len() - i,
    {
        let it = &l.items[i];
        if it.is_file && is_manifest_name(it.name.as_str()) {
            match &it.content {
                Some(text) => {
                    let t = chars_of(text.as_str());
                    if has_word(&t, "kind:") || has_word(&t, "apiVersion:") {
                        return true;
                    }
                },
                None => {},
            }
        }
        i += 1;
    }
    false
}

fn push_tag_if(tags: &mut Vec<String>, cond: bool, tag: &str)
    ensures
        views(final(tags)@) == views(old(tags)@) + tag_if(cond, tag@),
{
    if cond {
        tags.push(tag.to_owned());
        assert(views(tags@) =~= views(old(tags)@) + tag_if(cond, tag@));
    } else {
        assert(views(tags@) =~= views(old(tags)@) + tag_if(cond, tag@));
    }
}

/// The project context of a directory listing: a tag for each marker file
/// present, `kubernetes` for a manifest that mentions `kind:` or
/// `apiVersion:`, `git` for a version-control directory; no tags for a
/// directory that could not be read.
pub fn detect_project_context(listing: &DirListing) -> (r: ProjectContext)
    ensures
        r@ == detected_tags(*listing),
{
    let mut tags: Vec<String> = Vec::new();
    assert(views(tags@) =~= Seq::<Seq<char>>::empty());
    if !listing.exists {
        return ProjectContext { tags };
    }
    let ghost l = *listing;
    push_tag_if(&mut tags, listed(listing, "Dockerfile"), "docker");
    push_tag_if(&mut tags, listed(listing, "docker-compose.yml") || listed(listing, "docker-compose.yaml"), "docker-compose");
    push_tag_if(&mut tags, listed(listing, ".git"), "git");
    push_tag_if(&mut tags, listed(listing, "go.mod"), "golang");
    push_tag_if(&mut tags, listed(listing, "pom.xml"), "java");
    push_tag_if(&mut tags, cluster_manifest(listing), "kubernetes");
    push_tag_if(&mut tags, listed(listing, "package.json"), "nodejs");
    push_tag_if(&mut tags, listed(listing, "pyproject.toml") || listed(listing, "requirements.txt"), "python");
    push_tag_if(&mut tags, listed(listing, "Cargo.toml"), "rust");
    assert(Seq::<Seq<char>>::empty() + tag_if(present(l, "Dockerfile"@), "docker"@) =~= tag_if(present(l, "Dockerfile"@), "docker"@));
    ProjectContext { tags }
}

} // verus!
