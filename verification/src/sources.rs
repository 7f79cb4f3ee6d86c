//! Where projects come from: recent history, configured paths, scanned roots and
//! zoxide.

use vstd::prelude::*;
use crate::config;
use crate::config::{Config, ConfigModel};
use crate::order;
use crate::order::TextKey;
use crate::paths;
use crate::text;

verus! {

broadcast use crate::text::lemma_views_push;

/// A project directory that the picker can open.
#[derive(Debug, PartialEq, Eq)]
pub struct Candidate {
    /// The directory itself, for identity.
    pub path: String,
    /// What is shown for it.
    pub display: String,
}

/// The view of a [`Candidate`].
#[verifier::ext_equal]
pub struct CandidateModel {
    pub path: Seq<char>,
    pub display: Seq<char>,
}

impl View for Candidate {
    type V = CandidateModel;

    open spec fn view(&self) -> CandidateModel {
        CandidateModel { path: self.path@, display: self.display@ }
    }
}

impl Clone for Candidate {
    fn clone(&self) -> (copy: Self)
        ensures
            copy == *self,
    {
        Candidate { path: self.path.clone(), display: self.display.clone() }
    }
}

/// The last piece of a path; the whole path when it has no name.
pub fn basename(p: &str) -> (name: String)
    ensures
        name@ == paths::base_name(p@),
{
    paths::last_name(p)
}

/// `dirs::home_dir`: the user's home directory, where one is known. It depends
/// on the environment and the user database, so nothing is promised of it.
#[verifier::external_body]
pub fn home_dir() -> (home: Option<String>)
{
    dirs::home_dir().map(|home| home.to_string_lossy().into_owned())
}

/// Write the user's home directory, as [`home_dir`] gives it, as `~`.
pub fn collapse_home(p: &str) -> (shown: String)
    ensures
        exists|home: Option<String>|
            #[trigger] call_ensures(home_dir, (), home) && shown@ == paths::collapsed(
                p@,
                text::view_of(home),
            ),
{
    let home = home_dir();
    match &home {
        Some(home) => paths::collapse_under(p, Some(home.as_str())),
        None => paths::collapse_under(p, None),
    }
}

/// Whether a name is hidden.
pub open spec fn is_hidden(name: Seq<char>) -> bool {
    name.len() > 0 && name[0] == '.'
}

/// Whether a directory is the root of a Git repository worth suggesting: it
/// exists, its name is not hidden, and its `.git` is a directory. A linked
/// worktree or a submodule, whose `.git` is a file, is not.
pub open spec fn is_root(path: Seq<char>, is_dir: bool, has_git_dir: bool) -> bool {
    is_dir && !is_hidden(paths::base_name(path)) && has_git_dir
}

/// Decide whether a directory is the root of a Git repository worth suggesting,
/// from whether it is a directory and whether its `.git` is one.
pub fn is_project_root(p: &str, is_dir: bool, has_git_dir: bool) -> (found: bool)
    ensures
        found == is_root(p@, is_dir, has_git_dir),
{
    let name = text::chars_of(basename(p).as_str());
    is_dir && !(name.len() > 0 && name[0] == '.') && has_git_dir
}

/// The file system, as discovery sees it.
pub struct Disk {
    /// The entries of a directory, as full paths; none where it cannot be read.
    pub entries: spec_fn(Seq<char>) -> Seq<Seq<char>>,
    /// Whether a path is a directory.
    pub is_dir: spec_fn(Seq<char>) -> bool,
    /// Whether the `.git` of a path is a directory.
    pub has_git_dir: spec_fn(Seq<char>) -> bool,
    /// The canonical spelling of a path, where it exists.
    pub canonical: spec_fn(Seq<char>) -> Option<Seq<char>>,
}

impl Disk {
    /// Whether a path is the root of a Git repository worth suggesting.
    pub open spec fn is_project(self, path: Seq<char>) -> bool {
        is_root(path, (self.is_dir)(path), (self.has_git_dir)(path))
    }

    /// The repositories among paths.
    pub open spec fn projects(self, listed: Seq<Seq<char>>) -> Seq<Seq<char>> {
        listed.filter(|path: Seq<char>| self.is_project(path))
    }

    /// The repositories in a directory, in order.
    pub open spec fn projects_under(self, root: Seq<char>) -> Seq<Seq<char>> {
        sorted(self.projects((self.entries)(root)))
    }

    /// The repositories in directories, from the one at `i` on.
    pub open spec fn projects_under_all(self, roots: Seq<Seq<char>>, i: int) -> Seq<Seq<char>>
        decreases roots.len() - i,
    {
        if i < 0 || i >= roots.len() {
            Seq::empty()
        } else {
            self.projects_under(roots[i]) + self.projects_under_all(roots, i + 1)
        }
    }

    /// The projects that paths stand for, from the one at `i` on, after those
    /// found before: directories that exist, each once, by canonical spelling.
    pub open spec fn resolved(
        self,
        listed: Seq<Seq<char>>,
        i: int,
        found: Seq<CandidateModel>,
        home: Option<Seq<char>>,
    ) -> Seq<CandidateModel>
        decreases listed.len() - i,
    {
        if i < 0 || i >= listed.len() {
            found
        } else {
            self.resolved(listed, i + 1, self.with_path(found, listed[i], home), home)
        }
    }

    /// Projects with what one more path stands for.
    pub open spec fn with_path(
        self,
        found: Seq<CandidateModel>,
        path: Seq<char>,
        home: Option<Seq<char>>,
    ) -> Seq<CandidateModel> {
        match (self.canonical)(path) {
            Some(canonical) => with_canonical(found, canonical, (self.is_dir)(canonical), home),
            None => found,
        }
    }
}

/// Projects with one more directory, unless it is known or no directory.
pub open spec fn with_canonical(
    found: Seq<CandidateModel>,
    canonical: Seq<char>,
    is_dir: bool,
    home: Option<Seq<char>>,
) -> Seq<CandidateModel> {
    if is_dir && !knows(found, canonical) {
        found.push(
            CandidateModel {
                path: canonical,
                display: text::sanitized(paths::collapsed(canonical, home)),
            },
        )
    } else {
        found
    }
}

/// Whether a directory is among projects.
pub open spec fn knows(found: Seq<CandidateModel>, path: Seq<char>) -> bool {
    exists|i: int| 0 <= i < found.len() && paths::same_path((#[trigger] found[i]).path, path)
}

/// Paths in the order of texts.
pub open spec fn sorted(listed: Seq<Seq<char>>) -> Seq<Seq<char>> {
    order::arranged(listed, order::ordered::<TextKey>(listed))
}

/// Paths with a leading `~` written out.
pub open spec fn all_expanded(listed: Seq<Seq<char>>, home: Option<Seq<char>>) -> Seq<Seq<char>> {
    Seq::new(listed.len(), |i: int| config::expanded(listed[i], home))
}

/// The projects of a configuration: recent ones, configured paths, repositories
/// in configured directories, and zoxide's repositories, in this order.
pub open spec fn gathered(
    config: ConfigModel,
    zoxide: Seq<Seq<char>>,
    recent: Seq<Seq<char>>,
    home: Option<Seq<char>>,
    disk: Disk,
) -> Seq<CandidateModel> {
    disk.resolved(
        recent + all_expanded(config.paths, home) + disk.projects_under_all(
            all_expanded(config.roots, home),
            0,
        ) + disk.projects(
            if config.use_zoxide {
                zoxide
            } else {
                Seq::empty()
            },
        ),
        0,
        Seq::empty(),
        home,
    )
}

/// What discovery is busy with.
#[derive(Debug, Clone, Copy, PartialEq, Eq)]
pub enum Phase {
    /// Reading the next directory.
    Listing,
    /// Checking the entries of a directory.
    CheckingRoot,
    /// Checking zoxide's directories.
    CheckingZoxide,
    /// Finding canonical spellings.
    Resolving,
    /// Nothing any more.
    Finished,
}

/// Discovery of projects, one question to the file system at a time.
#[derive(Debug)]
pub struct Gather {
    phase: Phase,
    roots: Vec<String>,
    next_root: usize,
    zoxide: Vec<String>,
    /// Paths being checked.
    batch: Vec<String>,
    next_in_batch: usize,
    /// Those of the batch that are projects.
    kept: Vec<String>,
    /// Paths found so far.
    raw: Vec<String>,
    next_raw: usize,
    found: Vec<Candidate>,
    home: Option<String>,
}

/// The view of a [`Gather`].
#[verifier::ext_equal]
pub struct GatherModel {
    pub phase: Phase,
    pub roots: Seq<Seq<char>>,
    pub next_root: int,
    pub zoxide: Seq<Seq<char>>,
    pub batch: Seq<Seq<char>>,
    pub next_in_batch: int,
    pub kept: Seq<Seq<char>>,
    pub raw: Seq<Seq<char>>,
    pub next_raw: int,
    pub found: Seq<CandidateModel>,
    pub home: Option<Seq<char>>,
}

/// A question to the file system, or the end.
#[derive(Debug, PartialEq, Eq)]
pub enum Ask {
    /// The entries of a directory.
    Entries(String),
    /// Whether a path is a directory and whether its `.git` is one.
    Check(String),
    /// The canonical spelling of a path, and whether that is a directory.
    Canonical(String),
    /// These are the projects.
    Done(Vec<Candidate>),
    /// Discovery was interrupted: there is no result.
    Cancelled,
}

/// The view of an [`Ask`].
#[verifier::ext_equal]
pub enum AskModel {
    Entries(Seq<char>),
    Check(Seq<char>),
    Canonical(Seq<char>),
    Done(Seq<CandidateModel>),
    Cancelled,
}

impl View for Ask {
    type V = AskModel;

    open spec fn view(&self) -> AskModel {
        match self {
            Ask::Entries(path) => AskModel::Entries(path@),
            Ask::Check(path) => AskModel::Check(path@),
            Ask::Canonical(path) => AskModel::Canonical(path@),
            Ask::Done(found) => AskModel::Done(text::views(found@)),
            Ask::Cancelled => AskModel::Cancelled,
        }
    }
}

/// An answer of the file system.
#[derive(Debug, PartialEq, Eq)]
pub enum Answer {
    /// The entries of a directory, as full paths; none where it cannot be read.
    Entries(Vec<String>),
    /// Whether the path is a directory, and whether its `.git` is one.
    Check { is_dir: bool, has_git_dir: bool },
    /// The canonical spelling and whether it is a directory; none where the path
    /// does not exist.
    Canonical(Option<(String, bool)>),
}

/// The view of an [`Answer`].
#[verifier::ext_equal]
pub enum AnswerModel {
    Entries(Seq<Seq<char>>),
    Check { is_dir: bool, has_git_dir: bool },
    Canonical(Option<(Seq<char>, bool)>),
}

impl View for Answer {
    type V = AnswerModel;

    open spec fn view(&self) -> AnswerModel {
        match self {
            Answer::Entries(entries) => AnswerModel::Entries(text::views(entries@)),
            Answer::Check { is_dir, has_git_dir } => AnswerModel::Check {
                is_dir: *is_dir,
                has_git_dir: *has_git_dir,
            },
            Answer::Canonical(canonical) => AnswerModel::Canonical(
                match canonical {
                    Some((path, is_dir)) => Some((path@, *is_dir)),
                    None => None,
                },
            ),
        }
    }
}

impl Disk {
    /// The answer that a question deserves.
    pub open spec fn answers(self, ask: AskModel, answer: AnswerModel) -> bool {
        match ask {
            AskModel::Entries(path) => answer == AnswerModel::Entries((self.entries)(path)),
            AskModel::Check(path) => answer == (AnswerModel::Check {
                is_dir: (self.is_dir)(path),
                has_git_dir: (self.has_git_dir)(path),
            }),
            AskModel::Canonical(path) => answer == AnswerModel::Canonical(
                match (self.canonical)(path) {
                    Some(canonical) => Some((canonical, (self.is_dir)(canonical))),
                    None => None,
                },
            ),
            _ => false,
        }
    }
}

impl GatherModel {
    /// The question that discovery asks next.
    pub open spec fn ask(self) -> AskModel {
        match self.phase {
            Phase::Listing => AskModel::Entries(self.roots[self.next_root]),
            Phase::CheckingRoot => AskModel::Check(self.batch[self.next_in_batch]),
            Phase::CheckingZoxide => AskModel::Check(self.batch[self.next_in_batch]),
            Phase::Resolving => AskModel::Canonical(self.raw[self.next_raw]),
            Phase::Finished => AskModel::Done(self.found),
        }
    }

    /// Whether discovery has something to ask in its phase.
    pub open spec fn ready(self) -> bool {
        match self.phase {
            Phase::Listing => 0 <= self.next_root < self.roots.len(),
            Phase::CheckingRoot => 0 <= self.next_in_batch < self.batch.len() && 0
                <= self.next_root <= self.roots.len(),
            Phase::CheckingZoxide => 0 <= self.next_in_batch < self.batch.len(),
            Phase::Resolving => 0 <= self.next_raw < self.raw.len(),
            Phase::Finished => true,
        }
    }

    /// Discovery with an answer to its question taken in. An answer to another
    /// question changes nothing.
    pub open spec fn answered(self, answer: AnswerModel) -> GatherModel {
        match (self.phase, answer) {
            (Phase::Listing, AnswerModel::Entries(entries)) => GatherModel {
                batch: entries,
                next_in_batch: 0,
                kept: Seq::empty(),
                next_root: self.next_root + 1,
                phase: Phase::CheckingRoot,
                ..self
            },
            (Phase::CheckingRoot, AnswerModel::Check { is_dir, has_git_dir }) => self.checked(
                is_dir,
                has_git_dir,
            ),
            (Phase::CheckingZoxide, AnswerModel::Check { is_dir, has_git_dir }) => self.checked(
                is_dir,
                has_git_dir,
            ),
            (Phase::Resolving, AnswerModel::Canonical(canonical)) => GatherModel {
                found: match canonical {
                    Some((path, is_dir)) => with_canonical(self.found, path, is_dir, self.home),
                    None => self.found,
                },
                next_raw: self.next_raw + 1,
                ..self
            },
            _ => self,
        }
    }

    /// Discovery with the path being checked kept or dropped.
    pub open spec fn checked(self, is_dir: bool, has_git_dir: bool) -> GatherModel {
        let path = self.batch[self.next_in_batch];
        GatherModel {
            kept: if is_root(path, is_dir, has_git_dir) {
                self.kept.push(path)
            } else {
                self.kept
            },
            next_in_batch: self.next_in_batch + 1,
            ..self
        }
    }

    /// Discovery after a directory is checked through: its repositories are taken
    /// in, in order.
    pub open spec fn past_root(self) -> GatherModel {
        if self.phase is CheckingRoot && self.next_in_batch == self.batch.len() {
            GatherModel {
                raw: self.raw + sorted(self.kept),
                phase: Phase::Listing,
                ..self
            }
        } else {
            self
        }
    }

    /// Discovery after the last directory: zoxide's are next.
    pub open spec fn past_roots(self) -> GatherModel {
        if self.phase is Listing && self.next_root == self.roots.len() {
            GatherModel {
                phase: Phase::CheckingZoxide,
                batch: self.zoxide,
                next_in_batch: 0,
                kept: Seq::empty(),
                ..self
            }
        } else {
            self
        }
    }

    /// Discovery after zoxide's directories: canonical spellings are next.
    pub open spec fn past_zoxide(self) -> GatherModel {
        if self.phase is CheckingZoxide && self.next_in_batch == self.batch.len() {
            GatherModel {
                raw: self.raw + self.kept,
                phase: Phase::Resolving,
                next_raw: 0,
                found: Seq::empty(),
                ..self
            }
        } else {
            self
        }
    }

    /// Discovery after the last path: it is finished.
    pub open spec fn past_paths(self) -> GatherModel {
        if self.phase is Resolving && self.next_raw == self.raw.len() {
            GatherModel { phase: Phase::Finished, ..self }
        } else {
            self
        }
    }

    /// Discovery in the next phase that has something to ask.
    pub open spec fn settled(self) -> GatherModel {
        self.past_root().past_roots().past_zoxide().past_paths()
    }

    /// What discovery will have found in the end, on a given disk.
    pub open spec fn outcome(self, disk: Disk) -> Seq<CandidateModel> {
        let later = disk.projects_under_all(self.roots, self.next_root) + disk.projects(
            self.zoxide,
        );
        let checked = self.kept + disk.projects(self.batch.skip(self.next_in_batch));
        match self.phase {
            Phase::Listing => disk.resolved(self.raw + later, 0, Seq::empty(), self.home),
            Phase::CheckingRoot => disk.resolved(
                self.raw + sorted(checked) + later,
                0,
                Seq::empty(),
                self.home,
            ),
            Phase::CheckingZoxide => disk.resolved(
                self.raw + checked,
                0,
                Seq::empty(),
                self.home,
            ),
            Phase::Resolving => disk.resolved(self.raw, self.next_raw, self.found, self.home),
            Phase::Finished => self.found,
        }
    }
}

impl View for Gather {
    type V = GatherModel;

    closed spec fn view(&self) -> GatherModel {
        GatherModel {
            phase: self.phase,
            roots: text::views(self.roots@),
            next_root: self.next_root as int,
            zoxide: text::views(self.zoxide@),
            batch: text::views(self.batch@),
            next_in_batch: self.next_in_batch as int,
            kept: text::views(self.kept@),
            raw: text::views(self.raw@),
            next_raw: self.next_raw as int,
            found: text::views(self.found@),
            home: text::view_of(self.home),
        }
    }
}

/// The first path of a list decides on its own whether it is kept.
proof fn lemma_projects_skip(disk: Disk, listed: Seq<Seq<char>>, n: int)
    requires
        0 <= n < listed.len(),
    ensures
        disk.projects(listed.skip(n)) == (if disk.is_project(listed[n]) {
            seq![listed[n]]
        } else {
            Seq::empty()
        }) + disk.projects(listed.skip(n + 1)),
{
    let keep = |path: Seq<char>| disk.is_project(path);
    let first = seq![listed[n]];
    let rest = listed.skip(n + 1);
    assert(listed.skip(n) =~= first + rest);
    Seq::filter_distributes_over_add(first, rest, keep);
    assert(first.filter(keep) =~= if disk.is_project(listed[n]) {
        first
    } else {
        Seq::empty()
    }) by {
        reveal_with_fuel(Seq::filter, 2);
        assert(first.drop_last() =~= Seq::empty());
        assert(first.last() == listed[n]);
    }
}

/// Nothing is kept of nothing.
proof fn lemma_projects_of_nothing(disk: Disk, listed: Seq<Seq<char>>)
    ensures
        disk.projects(listed.skip(listed.len() as int)) == Seq::<Seq<char>>::empty(),
{
    reveal(Seq::filter);
    assert(listed.skip(listed.len() as int) =~= Seq::empty());
}

/// Put paths in order.
fn sort_paths(listed: &Vec<String>) -> (list: Vec<String>)
    ensures
        text::views(list@) == sorted(text::views(listed@)),
{
    let ghost all = text::views(listed@);
    let mut keys: Vec<TextKey> = Vec::new();
    let mut i: usize = 0;
    while i < listed.len()
        invariant
            i <= listed@.len(),
            all == text::views(listed@),
            text::views(keys@) == all.take(i as int),
        decreases listed@.len() - i,
    {
        keys.push(TextKey { text: listed[i].clone() });
        assert(all.take(i + 1) =~= all.take(i as int).push(all[i as int]));
        i += 1;
    }
    assert(all.take(i as int) =~= all);
    let places = order::stable_order(&keys);
    let ghost at = order::positions(places@);
    let mut list: Vec<String> = Vec::new();
    let mut k: usize = 0;
    while k < places.len()
        invariant
            k <= places@.len(),
            all == text::views(listed@),
            at == order::positions(places@),
            order::is_permutation(at, listed@.len()),
            text::views(list@) == order::arranged(all, at).take(k as int),
        decreases places@.len() - k,
    {
        assert(at[k as int] == places@[k as int] as int);
        list.push(listed[places[k]].clone());
        assert(order::arranged(all, at).take(k + 1) =~= order::arranged(all, at).take(
            k as int,
        ).push(all[at[k as int]]));
        k += 1;
    }
    assert(order::arranged(all, at).take(k as int) =~= order::arranged(all, at));
    list
}

/// Write out the leading `~` of paths.
fn expand_all(listed: &Vec<String>, home: &Option<String>) -> (list: Vec<String>)
    ensures
        text::views(list@) == all_expanded(text::views(listed@), text::view_of(*home)),
{
    let ghost wanted = all_expanded(text::views(listed@), text::view_of(*home));
    let mut list: Vec<String> = Vec::new();
    let mut i: usize = 0;
    while i < listed.len()
        invariant
            i <= listed@.len(),
            wanted == all_expanded(text::views(listed@), text::view_of(*home)),
            text::views(list@) == wanted.take(i as int),
        decreases listed@.len() - i,
    {
        let full = match home {
            Some(home) => config::expand_under(listed[i].as_str(), Some(home.as_str())),
            None => config::expand_under(listed[i].as_str(), None),
        };
        list.push(full);
        assert(wanted.take(i + 1) =~= wanted.take(i as int).push(wanted[i as int]));
        i += 1;
    }
    assert(wanted.take(i as int) =~= wanted);
    list
}

/// Add texts to a list.
fn add_all(list: &mut Vec<String>, mut more: Vec<String>)
    ensures
        text::views(final(list)@) == text::views(old(list)@) + text::views(more@),
{
    let ghost before = list@;
    let ghost added = more@;
    list.append(&mut more);
    assert(text::views(list@) =~= text::views(before) + text::views(added));
}

/// Whether a directory is among projects.
fn is_known(found: &Vec<Candidate>, path: &str) -> (known: bool)
    ensures
        known == knows(text::views(found@), path@),
{
    let ghost all = text::views(found@);
    let mut i: usize = 0;
    while i < found.len()
        invariant
            i <= found@.len(),
            all == text::views(found@),
            forall|k: int| 0 <= k < i ==> !paths::same_path((#[trigger] all[k]).path, path@),
        decreases found@.len() - i,
    {
        assert(all[i as int] == found@[i as int]@);
        if paths::equal_paths(found[i].path.as_str(), path) {
            return true;
        }
        i += 1;
    }
    false
}

/// Add a directory to projects, unless it is known or no directory. What is shown
/// carries no control characters; the path stays as it is.
pub fn add_canonical(
    found: &mut Vec<Candidate>,
    canonical: String,
    is_dir: bool,
    home: Option<&str>,
)
    ensures
        text::views(final(found)@) == with_canonical(
            text::views(old(found)@),
            canonical@,
            is_dir,
            match home {
                Some(home) => Some(home@),
                None => None,
            },
        ),
{
    if is_dir && !is_known(found, canonical.as_str()) {
        let shown = paths::collapse_under(canonical.as_str(), home);
        let display = text::sanitize_text(shown.as_str());
        found.push(Candidate { path: canonical, display });
    }
}

impl Gather {
    /// Indices stay within their lists.
    pub closed spec fn wf(self) -> bool {
        &&& self.next_root <= self.roots.len()
        &&& self.next_in_batch <= self.batch.len()
        &&& self.next_raw <= self.raw.len()
    }

    /// Go on to the next phase that has something to ask.
    fn settle(&mut self)
        requires
            old(self).wf(),
        ensures
            final(self).wf(),
            final(self)@ == old(self)@.settled(),
            final(self)@.ready(),
            forall|disk: Disk|
                #[trigger] final(self)@.outcome(disk) == old(self)@.outcome(disk),
    {
        if let Phase::CheckingRoot = self.phase {
            if self.next_in_batch == self.batch.len() {
                let ghost before = self@;
                let ordered = sort_paths(&self.kept);
                add_all(&mut self.raw, ordered);
                self.phase = Phase::Listing;
                proof {
                    assert forall|disk: Disk| #[trigger] self@.outcome(disk) == before.outcome(
                        disk,
                    ) by {
                        lemma_projects_of_nothing(disk, before.batch);
                        assert(before.kept + Seq::empty() =~= before.kept);
                        let later = disk.projects_under_all(before.roots, before.next_root)
                            + disk.projects(before.zoxide);
                        assert(self@.raw + later =~= before.raw + sorted(before.kept) + later);
                    }
                }
            }
        }
        if let Phase::Listing = self.phase {
            if self.next_root == self.roots.len() {
                let ghost before = self@;
                self.phase = Phase::CheckingZoxide;
                self.batch = text::copied_all(&self.zoxide);
                self.next_in_batch = 0;
                self.kept = Vec::new();
                proof {
                    assert(self@.kept =~= Seq::empty());
                    assert forall|disk: Disk| #[trigger] self@.outcome(disk) == before.outcome(
                        disk,
                    ) by {
                        assert(self@.batch.skip(0) =~= before.zoxide);
                        assert(disk.projects_under_all(before.roots, before.next_root)
                            =~= Seq::empty());
                        assert(before.raw + (Seq::<Seq<char>>::empty() + disk.projects(
                            before.zoxide,
                        )) =~= self@.raw + (self@.kept + disk.projects(before.zoxide)));
                    }
                }
            }
        }
        if let Phase::CheckingZoxide = self.phase {
            if self.next_in_batch == self.batch.len() {
                let ghost before = self@;
                let kept = text::copied_all(&self.kept);
                add_all(&mut self.raw, kept);
                self.phase = Phase::Resolving;
                self.next_raw = 0;
                self.found = Vec::new();
                proof {
                    assert(self@.found =~= Seq::empty());
                    assert forall|disk: Disk| #[trigger] self@.outcome(disk) == before.outcome(
                        disk,
                    ) by {
                        lemma_projects_of_nothing(disk, before.batch);
                        assert(before.kept + Seq::empty() =~= before.kept);
                    }
                }
            }
        }
        if let Phase::Resolving = self.phase {
            if self.next_raw == self.raw.len() {
                self.phase = Phase::Finished;
            }
        }
    }

    /// The question to ask next.
    fn question(&self) -> (ask: Ask)
        requires
            self.wf(),
            self@.ready(),
        ensures
            ask@ == self@.ask(),
    {
        match self.phase {
            Phase::Listing => Ask::Entries(self.roots[self.next_root].clone()),
            Phase::CheckingRoot => Ask::Check(self.batch[self.next_in_batch].clone()),
            Phase::CheckingZoxide => Ask::Check(self.batch[self.next_in_batch].clone()),
            Phase::Resolving => Ask::Canonical(self.raw[self.next_raw].clone()),
            Phase::Finished => {
                let found = copied_candidates(&self.found);
                Ask::Done(found)
            },
        }
    }

    /// Go on with an answer. An answer to another question is not taken: the
    /// question is asked again. A cancelled discovery has no result, so that a
    /// partial one is never taken for a complete one.
    pub fn step(&mut self, answer: Answer, cancelled: bool) -> (ask: Ask)
        requires
            old(self).wf(),
            old(self)@.ready(),
        ensures
            final(self).wf(),
            final(self)@.ready(),
            final(self)@ == (if cancelled {
                old(self)@
            } else {
                old(self)@.answered(answer@).settled()
            }),
            cancelled ==> ask@ == AskModel::Cancelled,
            !cancelled ==> ask@ == final(self)@.ask(),
            forall|disk: Disk|
                !cancelled && #[trigger] disk.answers(old(self)@.ask(), answer@)
                    ==> final(self)@.outcome(disk) == old(self)@.outcome(disk),
    {
        if cancelled {
            return Ask::Cancelled;
        }
        let ghost start = self@;
        match (self.phase, answer) {
            (Phase::Listing, Answer::Entries(entries)) => {
                self.batch = entries;
                self.next_in_batch = 0;
                self.kept = Vec::new();
                self.next_root += 1;
                self.phase = Phase::CheckingRoot;
                proof {
                    assert(self@.kept =~= Seq::empty());
                    assert forall|disk: Disk| #[trigger] disk.answers(
                        start.ask(),
                        answer@,
                    ) implies self@.outcome(disk) == start.outcome(disk) by {
                        let root = start.roots[start.next_root];
                        assert(self@.batch == (disk.entries)(root));
                        assert(self@.batch.skip(0) =~= self@.batch);
                        assert(self@.kept + disk.projects(self@.batch) =~= disk.projects(
                            self@.batch,
                        ));
                        let later = disk.projects_under_all(start.roots, start.next_root + 1);
                        let zoxide = disk.projects(start.zoxide);
                        assert(start.raw + ((disk.projects_under(root) + later) + zoxide)
                            =~= start.raw + disk.projects_under(root) + (later + zoxide));
                    }
                }
            },
            (Phase::CheckingRoot, Answer::Check { is_dir, has_git_dir }) => {
                self.check(is_dir, has_git_dir);
            },
            (Phase::CheckingZoxide, Answer::Check { is_dir, has_git_dir }) => {
                self.check(is_dir, has_git_dir);
            },
            (Phase::Resolving, Answer::Canonical(canonical)) => {
                if let Some((path, is_dir)) = canonical {
                    match &self.home {
                        Some(home) => add_canonical(
                            &mut self.found,
                            path,
                            is_dir,
                            Some(home.as_str()),
                        ),
                        None => add_canonical(&mut self.found, path, is_dir, None),
                    }
                }
                self.next_raw += 1;
                proof {
                    assert forall|disk: Disk| #[trigger] disk.answers(
                        start.ask(),
                        answer@,
                    ) implies self@.outcome(disk) == start.outcome(disk) by {
                        assert(self@.found == disk.with_path(
                            start.found,
                            start.raw[start.next_raw],
                            start.home,
                        ));
                    }
                }
            },
            _ => {},
        }
        self.settle();
        self.question()
    }

    /// Note whether the path being checked is a project.
    fn check(&mut self, is_dir: bool, has_git_dir: bool)
        requires
            old(self).wf(),
            old(self)@.ready(),
            old(self)@.phase is CheckingRoot || old(self)@.phase is CheckingZoxide,
        ensures
            final(self).wf(),
            final(self)@ == old(self)@.checked(is_dir, has_git_dir),
            forall|disk: Disk|
                #[trigger] disk.answers(
                    old(self)@.ask(),
                    AnswerModel::Check { is_dir, has_git_dir },
                ) ==> final(self)@.outcome(disk) == old(self)@.outcome(disk),
    {
        let ghost start = self@;
        let keep = is_project_root(
            self.batch[self.next_in_batch].as_str(),
            is_dir,
            has_git_dir,
        );
        if keep {
            self.kept.push(self.batch[self.next_in_batch].clone());
        }
        self.next_in_batch += 1;
        proof {
            assert forall|disk: Disk| #[trigger] disk.answers(
                start.ask(),
                AnswerModel::Check { is_dir, has_git_dir },
            ) implies self@.outcome(disk) == start.outcome(disk) by {
                let path = start.batch[start.next_in_batch];
                lemma_projects_skip(disk, start.batch, start.next_in_batch);
                assert(keep == disk.is_project(path));
                let rest = disk.projects(start.batch.skip(start.next_in_batch + 1));
                if keep {
                    assert(start.kept + (seq![path] + rest) =~= start.kept.push(path) + rest);
                } else {
                    assert(start.kept + (Seq::<Seq<char>>::empty() + rest) =~= start.kept + rest);
                }
            }
        }
    }
}

/// Copy projects.
pub fn copied_candidates(found: &Vec<Candidate>) -> (copy: Vec<Candidate>)
    ensures
        copy@ == found@,
{
    let mut copy: Vec<Candidate> = Vec::new();
    let mut i: usize = 0;
    while i < found.len()
        invariant
            i <= found@.len(),
            copy@ == found@.take(i as int),
        decreases found@.len() - i,
    {
        copy.push(found[i].clone());
        i += 1;
    }
    copy
}

/// Discovery before it has asked anything.
pub open spec fn gather_start(
    config: ConfigModel,
    zoxide: Seq<Seq<char>>,
    recent: Seq<Seq<char>>,
    home: Option<Seq<char>>,
) -> GatherModel {
    GatherModel {
        phase: Phase::Listing,
        roots: all_expanded(config.roots, home),
        next_root: 0,
        zoxide: if config.use_zoxide {
            zoxide
        } else {
            Seq::empty()
        },
        batch: Seq::empty(),
        next_in_batch: 0,
        kept: Seq::empty(),
        raw: recent + all_expanded(config.paths, home),
        next_raw: 0,
        found: Seq::empty(),
        home,
    }
}

/// Begin the discovery of projects. On every disk, answering its questions
/// truthfully to the end gives the projects that [`gathered`] says. A cancelled
/// discovery asks nothing, but one that has nothing to ask is done all the same.
pub fn gather(
    cfg: &Config,
    zoxide_lines: &Vec<String>,
    recent: &Vec<String>,
    home: Option<String>,
    cancelled: bool,
) -> (begun: (Gather, Ask))
    ensures
        begun.0.wf(),
        begun.0@.ready(),
        begun.0@ == gather_start(
            cfg@,
            text::views(zoxide_lines@),
            text::views(recent@),
            text::view_of(home),
        ).settled(),
        begun.1@ == (if cancelled && !(begun.0@.ask() is Done) {
            AskModel::Cancelled
        } else {
            begun.0@.ask()
        }),
        cfg@.paths.len() + cfg@.roots.len() + recent@.len() == 0 && (!cfg.use_zoxide
            || zoxide_lines@.len() == 0) ==> begun.1@ == AskModel::Done(Seq::empty()),
        forall|disk: Disk|
            #[trigger] begun.0@.outcome(disk) == gathered(
                cfg@,
                text::views(zoxide_lines@),
                text::views(recent@),
                text::view_of(home),
                disk,
            ),
{
    let mut raw = text::copied_all(recent);
    add_all(&mut raw, expand_all(&cfg.paths, &home));
    let zoxide: Vec<String> = if cfg.use_zoxide {
        text::copied_all(zoxide_lines)
    } else {
        Vec::new()
    };
    assert(!cfg.use_zoxide ==> text::views(zoxide@) =~= Seq::empty());
    let mut gather = Gather {
        phase: Phase::Listing,
        roots: expand_all(&cfg.roots, &home),
        next_root: 0,
        zoxide,
        batch: Vec::new(),
        next_in_batch: 0,
        kept: Vec::new(),
        raw,
        next_raw: 0,
        found: Vec::new(),
        home,
    };
    proof {
        assert forall|disk: Disk| #[trigger] gather@.outcome(disk) == gathered(
            cfg@,
            text::views(zoxide_lines@),
            text::views(recent@),
            text::view_of(home),
            disk,
        ) by {
            let under = disk.projects_under_all(gather@.roots, 0);
            let named = disk.projects(gather@.zoxide);
            assert(gather@.raw + (under + named) =~= gather@.raw + under + named);
        }
    }
    assert(gather@ =~= gather_start(
        cfg@,
        text::views(zoxide_lines@),
        text::views(recent@),
        text::view_of(home),
    ));
    gather.settle();
    let question = gather.question();
    let ask = match &question {
        Ask::Done(_) => question,
        _ => if cancelled {
            Ask::Cancelled
        } else {
            question
        },
    };
    (gather, ask)
}

/// Whether no two projects are the same directory.
pub open spec fn all_different(found: Seq<CandidateModel>) -> bool {
    forall|i: int, j: int|
        0 <= i < j < found.len() ==> !paths::same_path(
            (#[trigger] found[i]).path,
            (#[trigger] found[j]).path,
        )
}

proof fn lemma_resolved_different(
    disk: Disk,
    listed: Seq<Seq<char>>,
    i: int,
    found: Seq<CandidateModel>,
    home: Option<Seq<char>>,
)
    requires
        0 <= i <= listed.len(),
        all_different(found),
        forall|k: int| 0 <= k < found.len() ==> (disk.is_dir)((#[trigger] found[k]).path),
    ensures
        all_different(disk.resolved(listed, i, found, home)),
        forall|k: int|
            0 <= k < disk.resolved(listed, i, found, home).len() ==> (disk.is_dir)(
                (#[trigger] disk.resolved(listed, i, found, home)[k]).path,
            ),
    decreases listed.len() - i,
{
    if i < listed.len() {
        let more = disk.with_path(found, listed[i], home);
        assert forall|a: int, b: int| 0 <= a < b < more.len() implies !paths::same_path(
            (#[trigger] more[a]).path,
            (#[trigger] more[b]).path,
        ) by {
            assert(more[a] == found[a]);
            if b < found.len() {
                assert(more[b] == found[b]);
            }
        }
        assert forall|k: int| 0 <= k < more.len() implies (disk.is_dir)(
            (#[trigger] more[k]).path,
        ) by {
            if k < found.len() {
                assert(more[k] == found[k]);
            }
        }
        lemma_resolved_different(disk, listed, i + 1, more, home);
    }
}

/// Whatever the sources name, each project comes once and is a directory.
pub proof fn projects_are_distinct_directories(
    config: ConfigModel,
    zoxide: Seq<Seq<char>>,
    recent: Seq<Seq<char>>,
    home: Option<Seq<char>>,
    disk: Disk,
)
    ensures
        all_different(gathered(config, zoxide, recent, home, disk)),
        forall|k: int|
            0 <= k < gathered(config, zoxide, recent, home, disk).len() ==> (disk.is_dir)(
                (#[trigger] gathered(config, zoxide, recent, home, disk)[k]).path,
            ),
{
    lemma_resolved_different(
        disk,
        recent + all_expanded(config.paths, home) + disk.projects_under_all(
            all_expanded(config.roots, home),
            0,
        ) + disk.projects(
            if config.use_zoxide {
                zoxide
            } else {
                Seq::empty()
            },
        ),
        0,
        Seq::empty(),
        home,
    );
}

/// What is known stays known.
proof fn lemma_resolved_keeps(
    disk: Disk,
    listed: Seq<Seq<char>>,
    i: int,
    found: Seq<CandidateModel>,
    home: Option<Seq<char>>,
    path: Seq<char>,
)
    requires
        knows(found, path),
    ensures
        knows(disk.resolved(listed, i, found, home), path),
    decreases listed.len() - i,
{
    if 0 <= i < listed.len() {
        let more = disk.with_path(found, listed[i], home);
        let k = choose|k: int|
            0 <= k < found.len() && paths::same_path((#[trigger] found[k]).path, path);
        assert(more[k] == found[k]);
        lemma_resolved_keeps(disk, listed, i + 1, more, home, path);
    }
}

/// Every listed path that stands for a directory is known in the end.
proof fn lemma_resolved_knows(
    disk: Disk,
    listed: Seq<Seq<char>>,
    i: int,
    found: Seq<CandidateModel>,
    home: Option<Seq<char>>,
    at: int,
)
    requires
        0 <= i <= at < listed.len(),
        (disk.canonical)(listed[at]) is Some,
        (disk.is_dir)((disk.canonical)(listed[at])->0),
    ensures
        knows(disk.resolved(listed, i, found, home), (disk.canonical)(listed[at])->0),
    decreases at - i,
{
    let more = disk.with_path(found, listed[i], home);
    if i == at {
        let path = (disk.canonical)(listed[at])->0;
        if !knows(found, path) {
            assert(paths::same_path(more[found.len() as int].path, path));
        }
        lemma_resolved_keeps(disk, listed, i + 1, more, home, path);
    } else {
        lemma_resolved_knows(disk, listed, i + 1, more, home, at);
    }
}

/// A directory that the user named is always among the projects, whatever else is
/// found: no filter applies to it.
pub proof fn named_directories_are_offered(
    config: ConfigModel,
    zoxide: Seq<Seq<char>>,
    recent: Seq<Seq<char>>,
    home: Option<Seq<char>>,
    disk: Disk,
    at: int,
)
    requires
        0 <= at < config.paths.len(),
        (disk.canonical)(all_expanded(config.paths, home)[at]) is Some,
        (disk.is_dir)((disk.canonical)(all_expanded(config.paths, home)[at])->0),
    ensures
        knows(
            gathered(config, zoxide, recent, home, disk),
            (disk.canonical)(all_expanded(config.paths, home)[at])->0,
        ),
{
    let named = all_expanded(config.paths, home);
    let under = disk.projects_under_all(all_expanded(config.roots, home), 0);
    let hinted = disk.projects(
        if config.use_zoxide {
            zoxide
        } else {
            Seq::empty()
        },
    );
    let listed = recent + named + under + hinted;
    assert(listed[recent.len() + at] == named[at]);
    lemma_resolved_knows(disk, listed, 0, Seq::empty(), home, recent.len() + at);
}

/// How far discovery still has to go: directories left, then phases, then paths.
pub open spec fn to_go(gather: GatherModel) -> (int, int, int) {
    (
        gather.roots.len() - gather.next_root,
        match gather.phase {
            Phase::CheckingRoot => 4,
            Phase::Listing => 3,
            Phase::CheckingZoxide => 2,
            Phase::Resolving => 1,
            Phase::Finished => 0,
        },
        match gather.phase {
            Phase::CheckingRoot => gather.batch.len() - gather.next_in_batch,
            Phase::CheckingZoxide => gather.batch.len() - gather.next_in_batch,
            Phase::Resolving => gather.raw.len() - gather.next_raw,
            _ => 0,
        },
    )
}

/// Discovery comes to an end: every truthful answer brings it closer.
pub proof fn answers_bring_discovery_closer(gather: GatherModel, answer: AnswerModel, disk: Disk)
    requires
        gather.ready(),
        0 <= gather.next_root <= gather.roots.len(),
        !(gather.phase is Finished),
        disk.answers(gather.ask(), answer),
    ensures
        ({
            let before = to_go(gather);
            let after = to_go(gather.answered(answer).settled());
            &&& after.0 >= 0 && after.1 >= 0 && after.2 >= 0
            &&& after.0 < before.0 || (after.0 == before.0 && (after.1 < before.1 || (after.1
                == before.1 && after.2 < before.2)))
        }),
{
}

} // verus!
