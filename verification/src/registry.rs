//! What muster remembers: which workspace each project directory is bound to,
//! which workspaces were used most recently, and which projects were opened.

use vstd::prelude::*;
use crate::lists;
use crate::order;
use crate::order::Ranked;
use crate::text;

verus! {

broadcast use crate::text::lemma_views_push;

/// How many opened projects are remembered.
pub const HISTORY_LIMIT: usize = 100;

/// Bindings, recency and project history. Directories are given by their
/// canonical spelling.
#[derive(Debug)]
pub struct Registry {
    /// Directories with the workspace each is bound to, in the order of the
    /// directories, so that the state file is deterministic.
    bindings: Vec<(String, String)>,
    /// Workspace ids, most recently focused first.
    mru: Vec<String>,
    /// Opened project directories, newest first. Unlike bindings, history
    /// survives workspace closure and reconciliation.
    recent: Vec<String>,
}

/// The view of a [`Registry`].
#[verifier::ext_equal]
pub struct RegistryModel {
    pub map: Map<Seq<char>, Seq<char>>,
    pub mru: Seq<Seq<char>>,
    pub recent: Seq<Seq<char>>,
}

/// Bindings as a map.
pub open spec fn as_map(pairs: Seq<(Seq<char>, Seq<char>)>) -> Map<Seq<char>, Seq<char>>
    decreases pairs.len(),
{
    if pairs.len() == 0 {
        Map::empty()
    } else {
        as_map(pairs.drop_last()).insert(pairs.last().0, pairs.last().1)
    }
}

/// Whether one directory comes strictly before another.
pub open spec fn before(a: Seq<char>, b: Seq<char>) -> bool {
    text::at_most(a, b) && a != b
}

/// Whether bindings are in the order of their directories, each at most once.
pub open spec fn in_order(pairs: Seq<(Seq<char>, Seq<char>)>) -> bool {
    forall|i: int, j: int|
        #![trigger pairs[i], pairs[j]]
        0 <= i < j < pairs.len() ==> before(pairs[i].0, pairs[j].0)
}

/// History with a project opened: it comes first, and the oldest fall off.
pub open spec fn remembered(recent: Seq<Seq<char>>, directory: Seq<char>) -> Seq<Seq<char>> {
    if recent.len() > 0 && recent[0] == directory {
        recent
    } else {
        lists::at_most_first(lists::fronted(recent, directory), HISTORY_LIMIT as nat)
    }
}

/// Recency with a workspace used: it comes first.
pub open spec fn touched(mru: Seq<Seq<char>>, workspace: Seq<char>) -> Seq<Seq<char>> {
    if mru.len() > 0 && mru[0] == workspace {
        mru
    } else {
        lists::fronted(mru, workspace)
    }
}

impl RegistryModel {
    /// Whether history holds every bound directory, or is full.
    pub open spec fn remembers_bindings(self) -> bool {
        self.recent.len() == HISTORY_LIMIT || forall|directory: Seq<char>|
            #[trigger] self.map.contains_key(directory) ==> self.recent.contains(directory)
    }

    /// After binding a directory to a workspace.
    pub open spec fn bound(self, directory: Seq<char>, workspace: Seq<char>) -> RegistryModel {
        RegistryModel {
            map: self.map.insert(directory, workspace),
            recent: remembered(self.recent, directory),
            ..self
        }
    }

    /// After forgetting everything that refers to a workspace that is not live.
    pub open spec fn reconciled(self, live: Seq<Seq<char>>) -> RegistryModel {
        RegistryModel {
            map: Map::new(
                |directory: Seq<char>|
                    self.map.contains_key(directory) && live.contains(self.map[directory]),
                |directory: Seq<char>| self.map[directory],
            ),
            mru: self.mru.filter(|workspace: Seq<char>| live.contains(workspace)),
            ..self
        }
    }
}

/// Opening a project keeps every bound directory in history, and its own, unless
/// history is full.
proof fn lemma_remembers_bindings(
    before: RegistryModel,
    directory: Seq<char>,
    workspace: Seq<char>,
)
    requires
        before.remembers_bindings(),
        before.recent.no_duplicates(),
        before.recent.len() <= HISTORY_LIMIT,
    ensures
        before.bound(directory, workspace).remembers_bindings(),
        (RegistryModel {
            recent: remembered(before.recent, directory),
            ..before
        }).remembers_bindings(),
{
    let rest = lists::without(before.recent, directory);
    let after = remembered(before.recent, directory);
    lists::lemma_without(before.recent, directory);
    lists::lemma_without_takes_one(before.recent, directory);
    if after.len() != HISTORY_LIMIT {
        assert(before.recent.len() < HISTORY_LIMIT);
        assert(after[0] == directory);
        assert forall|other: Seq<char>| before.recent.contains(other) implies after.contains(
            other,
        ) by {
            if after != before.recent && other != directory {
                assert(rest.contains(other));
                let i = choose|i: int| 0 <= i < rest.len() && rest[i] == other;
                assert(after[i + 1] == other);
            }
        }
    }
}

impl View for Registry {
    type V = RegistryModel;

    closed spec fn view(&self) -> RegistryModel {
        RegistryModel {
            map: as_map(text::views(self.bindings@)),
            mru: text::views(self.mru@),
            recent: text::views(self.recent@),
        }
    }
}

/// A binding read from the state file.
#[derive(Debug)]
pub struct SavedBinding {
    pub directory: String,
    pub workspace: String,
    /// Whether the directory, as it was saved, is a symbolic link.
    pub is_symlink: bool,
    /// The canonical spelling of the directory.
    pub canonical: String,
}

/// The view of a [`SavedBinding`].
#[verifier::ext_equal]
pub struct SavedModel {
    pub directory: Seq<char>,
    pub workspace: Seq<char>,
    pub is_symlink: bool,
    pub canonical: Seq<char>,
}

impl View for SavedBinding {
    type V = SavedModel;

    open spec fn view(&self) -> SavedModel {
        SavedModel {
            directory: self.directory@,
            workspace: self.workspace@,
            is_symlink: self.is_symlink,
            canonical: self.canonical@,
        }
    }
}

impl Ranked for SavedBinding {
    /// Real directories come before symbolic links, then by directory, then by
    /// workspace.
    open spec fn precedes(a: SavedModel, b: SavedModel) -> bool {
        if a.is_symlink != b.is_symlink {
            !a.is_symlink
        } else if a.directory != b.directory {
            text::at_most(a.directory, b.directory)
        } else {
            text::at_most(a.workspace, b.workspace)
        }
    }

    proof fn total(a: SavedModel, b: SavedModel) {
        text::lemma_at_most_total(a.directory, b.directory);
        text::lemma_at_most_total(a.workspace, b.workspace);
    }

    proof fn transitive(a: SavedModel, b: SavedModel, c: SavedModel) {
        if text::at_most(a.directory, b.directory) && text::at_most(b.directory, c.directory) {
            text::lemma_at_most_transitive(a.directory, b.directory, c.directory);
            if a.directory == c.directory {
                text::lemma_at_most_antisymmetric(a.directory, b.directory);
            }
        }
        if text::at_most(a.workspace, b.workspace) && text::at_most(b.workspace, c.workspace) {
            text::lemma_at_most_transitive(a.workspace, b.workspace, c.workspace);
        }
    }

    fn may_precede(&self, other: &Self) -> (before: bool) {
        if self.is_symlink != other.is_symlink {
            !self.is_symlink
        } else if !text::same(self.directory.as_str(), other.directory.as_str()) {
            text::not_after(self.directory.as_str(), other.directory.as_str())
        } else {
            text::not_after(self.workspace.as_str(), other.workspace.as_str())
        }
    }
}

/// The bindings kept of the first `n` saved ones, taken in the given order: of
/// several for one canonical directory, the first.
pub open spec fn kept_bindings(
    saved: Seq<SavedModel>,
    places: Seq<int>,
    n: nat,
) -> Map<Seq<char>, Seq<char>>
    decreases n,
{
    if n == 0 {
        Map::empty()
    } else {
        let front = kept_bindings(saved, places, (n - 1) as nat);
        let binding = saved[places[n - 1]];
        if front.contains_key(binding.canonical) {
            front
        } else {
            front.insert(binding.canonical, binding.workspace)
        }
    }
}

/// The bindings kept of saved ones.
pub open spec fn loaded_map(saved: Seq<SavedModel>) -> Map<Seq<char>, Seq<char>> {
    kept_bindings(saved, order::ordered::<SavedBinding>(saved), saved.len())
}

/// What bindings in order say of their map.
pub proof fn lemma_as_map(pairs: Seq<(Seq<char>, Seq<char>)>)
    requires
        in_order(pairs),
    ensures
        forall|i: int|
            0 <= i < pairs.len() ==> as_map(pairs).contains_key((#[trigger] pairs[i]).0)
                && as_map(pairs)[pairs[i].0] == pairs[i].1,
        forall|key: Seq<char>|
            #[trigger] as_map(pairs).contains_key(key) ==> exists|i: int|
                0 <= i < pairs.len() && (#[trigger] pairs[i]).0 == key,
    decreases pairs.len(),
{
    if pairs.len() > 0 {
        let front = pairs.drop_last();
        assert forall|i: int, j: int|
            #![trigger front[i], front[j]]
            0 <= i < j < front.len() implies before(front[i].0, front[j].0) by {
            assert(pairs[i] == front[i] && pairs[j] == front[j]);
        }
        lemma_as_map(front);
        assert forall|i: int| 0 <= i < pairs.len() implies as_map(pairs).contains_key(
            (#[trigger] pairs[i]).0,
        ) && as_map(pairs)[pairs[i].0] == pairs[i].1 by {
            if i < front.len() {
                assert(front[i] == pairs[i]);
                assert(before(pairs[i].0, pairs[pairs.len() - 1].0));
            }
        }
        assert forall|key: Seq<char>| #[trigger] as_map(pairs).contains_key(key) implies exists|
            i: int,
        |
            0 <= i < pairs.len() && (#[trigger] pairs[i]).0 == key by {
            if key == pairs.last().0 {
                assert(pairs[pairs.len() - 1].0 == key);
            } else {
                assert(as_map(front).contains_key(key));
                let i = choose|i: int| 0 <= i < front.len() && (#[trigger] front[i]).0 == key;
                assert(pairs[i].0 == key);
            }
        }
    }
}

/// Bindings that hold the same pairs have the same map.
proof fn lemma_same_map(
    pairs: Seq<(Seq<char>, Seq<char>)>,
    map: Map<Seq<char>, Seq<char>>,
)
    requires
        in_order(pairs),
        forall|i: int|
            0 <= i < pairs.len() ==> map.contains_key((#[trigger] pairs[i]).0) && map[pairs[i].0]
                == pairs[i].1,
        forall|key: Seq<char>|
            #[trigger] map.contains_key(key) ==> exists|i: int|
                0 <= i < pairs.len() && (#[trigger] pairs[i]).0 == key,
    ensures
        as_map(pairs) == map,
{
    lemma_as_map(pairs);
    let mine = as_map(pairs);
    assert forall|key: Seq<char>| mine.contains_key(key) == map.contains_key(key) by {
        if mine.contains_key(key) {
            let i = choose|i: int| 0 <= i < pairs.len() && (#[trigger] pairs[i]).0 == key;
            assert(map.contains_key(pairs[i].0));
        }
        if map.contains_key(key) {
            let i = choose|i: int| 0 <= i < pairs.len() && (#[trigger] pairs[i]).0 == key;
            assert(mine.contains_key(pairs[i].0));
        }
    }
    assert forall|key: Seq<char>| mine.contains_key(key) implies mine[key] == map[key] by {
        let i = choose|i: int| 0 <= i < pairs.len() && (#[trigger] pairs[i]).0 == key;
        assert(mine[pairs[i].0] == pairs[i].1);
    }
    assert(mine =~= map);
}

/// A list of texts without one of them.
fn drop_text(texts: &Vec<String>, item: &str) -> (rest: Vec<String>)
    ensures
        text::views(rest@) == lists::without(text::views(texts@), item@),
{
    let ghost all = text::views(texts@);
    let mut rest: Vec<String> = Vec::new();
    let mut i: usize = 0;
    reveal(Seq::filter);
    assert(text::views(rest@) =~= lists::without(all.take(0), item@));
    while i < texts.len()
        invariant
            i <= texts@.len(),
            all == text::views(texts@),
            text::views(rest@) == lists::without(all.take(i as int), item@),
        decreases texts@.len() - i,
    {
        reveal(Seq::filter);
        assert(all.take(i + 1).drop_last() =~= all.take(i as int));
        assert(all.take(i + 1).last() == texts@[i as int]@);
        if !text::same(texts[i].as_str(), item) {
            rest.push(texts[i].clone());
        }
        i += 1;
    }
    assert(all.take(i as int) =~= all);
    rest
}

/// A list of texts with one of them first.
fn front_text(texts: &Vec<String>, item: &str) -> (list: Vec<String>)
    ensures
        text::views(list@) == lists::fronted(text::views(texts@), item@),
{
    let mut list = drop_text(texts, item);
    let ghost rest = text::views(list@);
    list.insert(0, item.to_string());
    assert(text::views(list@) =~= seq![item@] + rest);
    list
}

/// Whether a slice holds a text.
pub fn lists(texts: &[String], item: &str) -> (found: bool)
    ensures
        found == text::views(texts@).contains(item@),
{
    let ghost all = text::views(texts@);
    let mut i: usize = 0;
    while i < texts.len()
        invariant
            i <= texts@.len(),
            all == text::views(texts@),
            forall|k: int| 0 <= k < i ==> #[trigger] all[k] != item@,
        decreases texts@.len() - i,
    {
        assert(all[i as int] == texts@[i as int]@);
        if text::same(texts[i].as_str(), item) {
            return true;
        }
        i += 1;
    }
    false
}

impl Registry {
    /// The bound directories, in order.
    pub closed spec fn keys(self) -> Seq<Seq<char>> {
        Seq::new(self.bindings@.len(), |i: int| self.bindings@[i].0@)
    }

    /// The bindings, in the order of their directories.
    pub closed spec fn pairs(self) -> Seq<(Seq<char>, Seq<char>)> {
        text::views(self.bindings@)
    }

    /// Bindings are in order, and history holds each project once and no more
    /// than the limit.
    closed spec fn in_shape(self) -> bool {
        &&& in_order(text::views(self.bindings@))
        &&& text::views(self.recent@).no_duplicates()
        &&& self.recent@.len() <= HISTORY_LIMIT
    }

    /// Bindings are in order, history holds each project once and no more than
    /// the limit, and it holds every bound directory unless it is full.
    pub closed spec fn wf(self) -> bool {
        self.in_shape() && self@.remembers_bindings()
    }

    /// Where a directory stands among the bindings, or where it would go.
    fn place(&self, directory: &str) -> (found: (usize, bool))
        requires
            self.in_shape(),
        ensures
            found.0 <= self.bindings@.len(),
            found.1 ==> found.0 < self.bindings@.len() && self.bindings@[found.0 as int].0@
                == directory@,
            found.1 == self@.map.contains_key(directory@),
            forall|i: int|
                0 <= i < found.0 ==> before((#[trigger] self.bindings@[i]).0@, directory@),
            !found.1 ==> forall|i: int|
                found.0 <= i < self.bindings@.len() ==> before(
                    directory@,
                    (#[trigger] self.bindings@[i]).0@,
                ),
    {
        let ghost pairs = text::views(self.bindings@);
        proof {
            lemma_as_map(pairs);
        }
        let mut i: usize = 0;
        while i < self.bindings.len() && text::not_after(
            self.bindings[i].0.as_str(),
            directory,
        ) && !text::same(self.bindings[i].0.as_str(), directory)
            invariant
                i <= self.bindings@.len(),
                forall|k: int|
                    0 <= k < i ==> before((#[trigger] self.bindings@[k]).0@, directory@),
            decreases self.bindings@.len() - i,
        {
            i += 1;
        }
        if i < self.bindings.len() && text::same(self.bindings[i].0.as_str(), directory) {
            assert(pairs[i as int].0 == directory@);
            return (i, true);
        }
        proof {
            assert forall|k: int| i <= k < self.bindings@.len() implies before(
                directory@,
                (#[trigger] self.bindings@[k]).0@,
            ) by {
                text::lemma_at_most_total(directory@, self.bindings@[i as int].0@);
                if k > i {
                    assert(before(pairs[i as int].0, pairs[k].0));
                    text::lemma_at_most_transitive(
                        directory@,
                        self.bindings@[i as int].0@,
                        self.bindings@[k].0@,
                    );
                    if directory@ == self.bindings@[k].0@ {
                        text::lemma_at_most_antisymmetric(
                            directory@,
                            self.bindings@[i as int].0@,
                        );
                    }
                }
            }
            if self@.map.contains_key(directory@) {
                let k = choose|k: int|
                    0 <= k < pairs.len() && (#[trigger] pairs[k]).0 == directory@;
                assert(self.bindings@[k].0@ == directory@);
            }
        }
        (i, false)
    }

    /// The workspace that a directory is bound to.
    pub fn workspace_for(&self, directory: &str) -> (workspace: Option<&String>)
        requires
            self.wf(),
        ensures
            match workspace {
                Some(workspace) => self@.map.contains_key(directory@) && self@.map[directory@]
                    == workspace@,
                None => !self@.map.contains_key(directory@),
            },
    {
        proof {
            lemma_as_map(text::views(self.bindings@));
        }
        let (at, found) = self.place(directory);
        if found {
            assert(text::views(self.bindings@)[at as int].0 == directory@);
            Some(&self.bindings[at].1)
        } else {
            None
        }
    }

    /// Put in a binding, in place of an earlier one.
    fn insert(&mut self, directory: &str, workspace: &str)
        requires
            old(self).in_shape(),
        ensures
            final(self).in_shape(),
            final(self)@ == (RegistryModel {
                map: old(self)@.map.insert(directory@, workspace@),
                ..old(self)@
            }),
    {
        let (at, found) = self.place(directory);
        let ghost pairs = text::views(self.bindings@);
        let ghost map = self@.map;
        proof {
            lemma_as_map(pairs);
        }
        if found {
            self.bindings.remove(at);
        }
        self.bindings.insert(at, (directory.to_string(), workspace.to_string()));
        proof {
            let after = text::views(self.bindings@);
            let pair = (directory@, workspace@);
            if found {
                assert(after =~= pairs.update(at as int, pair));
            } else {
                assert(after =~= pairs.insert(at as int, pair));
            }
            assert forall|i: int, j: int|
                #![trigger after[i], after[j]]
                0 <= i < j < after.len() implies before(after[i].0, after[j].0) by {
                let a = if found || i <= at {
                    i
                } else {
                    i - 1
                };
                let b = if found || j <= at {
                    j
                } else {
                    j - 1
                };
                if i != at && j != at {
                    assert(after[i] == pairs[a] && after[j] == pairs[b]);
                } else if i == at {
                    if found {
                        assert(before(pairs[at as int].0, pairs[j].0));
                    } else {
                        assert(after[j] == pairs[j - 1]);
                    }
                } else {
                    assert(after[i] == pairs[i]);
                }
            }
            let wanted = map.insert(directory@, workspace@);
            assert forall|i: int| 0 <= i < after.len() implies wanted.contains_key(
                (#[trigger] after[i]).0,
            ) && wanted[after[i].0] == after[i].1 by {
                if i != at {
                    let a = if found || i < at {
                        i
                    } else {
                        i - 1
                    };
                    assert(after[i] == pairs[a]);
                    if i < at {
                        assert(before(after[i].0, after[at as int].0));
                    } else {
                        assert(before(after[at as int].0, after[i].0));
                    }
                }
            }
            assert forall|key: Seq<char>| #[trigger] wanted.contains_key(key) implies exists|
                i: int,
            |
                0 <= i < after.len() && (#[trigger] after[i]).0 == key by {
                if key == directory@ {
                    assert(after[at as int].0 == key);
                } else {
                    let k = choose|k: int| 0 <= k < pairs.len() && (#[trigger] pairs[k]).0 == key;
                    if found || k < at {
                        assert(after[k].0 == key);
                    } else {
                        assert(after[k + 1].0 == key);
                    }
                }
            }
            lemma_same_map(after, wanted);
        }
    }

    /// Bind a directory to a workspace and remember it as opened.
    pub fn bind(&mut self, directory: &str, workspace: &str)
        requires
            old(self).wf(),
        ensures
            final(self).wf(),
            final(self)@ == old(self)@.bound(directory@, workspace@),
    {
        proof {
            lemma_remembers_bindings(self@, directory@, workspace@);
        }
        self.insert(directory, workspace);
        self.put_first(directory);
    }

    /// Record a project seen in Herdr, independently of a live binding. Returns
    /// whether the history changed.
    pub fn remember_project(&mut self, directory: &str) -> (changed: bool)
        requires
            old(self).wf(),
        ensures
            final(self).wf(),
            final(self)@ == (RegistryModel {
                recent: remembered(old(self)@.recent, directory@),
                ..old(self)@
            }),
            changed == (final(self)@.recent != old(self)@.recent),
    {
        proof {
            lemma_remembers_bindings(self@, directory@, Seq::empty());
        }
        self.put_first(directory)
    }

    /// Put a project first in the history. Returns whether the history changed.
    fn put_first(&mut self, directory: &str) -> (changed: bool)
        requires
            old(self).in_shape(),
        ensures
            final(self).in_shape(),
            final(self)@ == (RegistryModel {
                recent: remembered(old(self)@.recent, directory@),
                ..old(self)@
            }),
            changed == (final(self)@.recent != old(self)@.recent),
    {
        if self.recent.len() > 0 && text::same(self.recent[0].as_str(), directory) {
            return false;
        }
        let ghost before_all = text::views(self.recent@);
        let mut recent = front_text(&self.recent, directory);
        let ghost fronted_all = text::views(recent@);
        proof {
            lists::lemma_without(before_all, directory@);
            let rest = lists::without(before_all, directory@);
            assert forall|i: int, j: int|
                0 <= i < fronted_all.len() && 0 <= j < fronted_all.len() && i
                    != j implies fronted_all[i] != fronted_all[j] by {
                if i > 0 {
                    assert(fronted_all[i] == rest[i - 1]);
                    assert(rest.contains(rest[i - 1]));
                }
                if j > 0 {
                    assert(fronted_all[j] == rest[j - 1]);
                    assert(rest.contains(rest[j - 1]));
                }
            }
            assert(fronted_all[0] == directory@);
        }
        if recent.len() > HISTORY_LIMIT {
            recent.truncate(HISTORY_LIMIT);
            assert(text::views(recent@) =~= fronted_all.take(HISTORY_LIMIT as int));
        }
        proof {
            assert(text::views(recent@)[0] == directory@);
            if before_all.len() > 0 {
                assert(before_all[0] == self.recent@[0]@);
            }
        }
        self.recent = recent;
        true
    }

    /// Opened directories, newest first, including those of closed workspaces.
    pub fn recent_projects(&self) -> (recent: Vec<String>)
        ensures
            text::views(recent@) == self@.recent,
    {
        text::copied_all(&self.recent)
    }

    /// Remove a binding only if it still names the workspace being closed.
    pub fn unbind_if_bound(&mut self, directory: &str, workspace: &str) -> (removed: bool)
        requires
            old(self).wf(),
        ensures
            final(self).wf(),
            removed == (old(self)@.map.contains_key(directory@) && old(self)@.map[directory@]
                == workspace@),
            final(self)@ == (RegistryModel {
                map: if removed {
                    old(self)@.map.remove(directory@)
                } else {
                    old(self)@.map
                },
                ..old(self)@
            }),
    {
        let (at, found) = self.place(directory);
        let ghost pairs = text::views(self.bindings@);
        let ghost map = self@.map;
        proof {
            lemma_as_map(pairs);
            if found {
                assert(pairs[at as int].0 == directory@);
            }
        }
        if found && text::same(self.bindings[at].1.as_str(), workspace) {
            self.bindings.remove(at);
            proof {
                let after = text::views(self.bindings@);
                assert(after =~= pairs.remove(at as int));
                assert forall|i: int, j: int|
                    #![trigger after[i], after[j]]
                    0 <= i < j < after.len() implies before(after[i].0, after[j].0) by {
                    let a = if i < at {
                        i
                    } else {
                        i + 1
                    };
                    let b = if j < at {
                        j
                    } else {
                        j + 1
                    };
                    assert(after[i] == pairs[a] && after[j] == pairs[b]);
                }
                let wanted = map.remove(directory@);
                assert forall|i: int| 0 <= i < after.len() implies wanted.contains_key(
                    (#[trigger] after[i]).0,
                ) && wanted[after[i].0] == after[i].1 by {
                    let a = if i < at {
                        i
                    } else {
                        i + 1
                    };
                    assert(after[i] == pairs[a]);
                    if a < at {
                        assert(before(pairs[a].0, pairs[at as int].0));
                    } else {
                        assert(before(pairs[at as int].0, pairs[a].0));
                    }
                }
                assert forall|key: Seq<char>| #[trigger] wanted.contains_key(key) implies exists|
                    i: int,
                |
                    0 <= i < after.len() && (#[trigger] after[i]).0 == key by {
                    let k = choose|k: int| 0 <= k < pairs.len() && (#[trigger] pairs[k]).0 == key;
                    if k < at {
                        assert(after[k].0 == key);
                    } else {
                        assert(after[k - 1].0 == key);
                    }
                }
                lemma_same_map(after, wanted);
            }
            true
        } else {
            false
        }
    }

    /// Mark a workspace as the most recently used. Returns whether the order
    /// changed.
    pub fn touch(&mut self, workspace_id: &str) -> (changed: bool)
        ensures
            old(self).wf() ==> final(self).wf(),
            final(self)@ == (RegistryModel {
                mru: touched(old(self)@.mru, workspace_id@),
                ..old(self)@
            }),
            changed == (final(self)@.mru != old(self)@.mru),
    {
        if self.mru.len() > 0 && text::same(self.mru[0].as_str(), workspace_id) {
            return false;
        }
        let ghost before_all = text::views(self.mru@);
        let mru = front_text(&self.mru, workspace_id);
        proof {
            assert(text::views(mru@)[0] == workspace_id@);
            if before_all.len() > 0 {
                assert(before_all[0] == self.mru@[0]@);
            }
        }
        self.mru = mru;
        true
    }

    /// Forget a workspace's recency. Returns whether it had any.
    pub fn forget(&mut self, workspace_id: &str) -> (changed: bool)
        ensures
            old(self).wf() ==> final(self).wf(),
            final(self)@ == (RegistryModel {
                mru: lists::without(old(self)@.mru, workspace_id@),
                ..old(self)@
            }),
            changed == (final(self)@.mru != old(self)@.mru),
    {
        let count: usize = self.mru.len();
        let mru = drop_text(&self.mru, workspace_id);
        proof {
            lists::lemma_filter_all(
                text::views(self.mru@),
                |other: Seq<char>| other != workspace_id@,
            );
        }
        self.mru = mru;
        count != self.mru.len()
    }

    /// Most recently used workspace ids, newest first.
    pub fn mru(&self) -> (mru: &[String])
        ensures
            text::views(mru@) == self@.mru,
    {
        self.mru.as_slice()
    }

    /// The bindings as a list, in the order of the directories.
    pub fn live_map(&self) -> (bindings: Vec<(String, String)>)
        requires
            self.wf(),
        ensures
            text::views(bindings@) == self.pairs(),
            in_order(text::views(bindings@)),
            as_map(text::views(bindings@)) == self@.map,
    {
        let ghost all = text::views(self.bindings@);
        let mut bindings: Vec<(String, String)> = Vec::new();
        let mut i: usize = 0;
        while i < self.bindings.len()
            invariant
                i <= self.bindings@.len(),
                all == text::views(self.bindings@),
                text::views(bindings@) == all.take(i as int),
            decreases self.bindings@.len() - i,
        {
            bindings.push((self.bindings[i].0.clone(), self.bindings[i].1.clone()));
            assert(all.take(i + 1) =~= all.take(i as int).push(all[i as int]));
            i += 1;
        }
        assert(all.take(i as int) =~= all);
        bindings
    }
}

impl Default for Registry {
    /// Nothing remembered.
    fn default() -> (registry: Self)
        ensures
            registry.wf(),
            registry@ == (RegistryModel {
                map: Map::empty(),
                mru: Seq::empty(),
                recent: Seq::empty(),
            }),
    {
        let registry = Registry { bindings: Vec::new(), mru: Vec::new(), recent: Vec::new() };
        assert(text::views(registry.bindings@) =~= Seq::empty());
        assert(text::views(registry.mru@) =~= Seq::empty());
        assert(text::views(registry.recent@) =~= Seq::empty());
        registry
    }
}

/// The pairs of a list whose workspace is live.
pub open spec fn live_pairs(
    pairs: Seq<(Seq<char>, Seq<char>)>,
    live: Seq<Seq<char>>,
) -> Seq<(Seq<char>, Seq<char>)> {
    pairs.filter(|pair: (Seq<char>, Seq<char>)| live.contains(pair.1))
}

/// The live pairs are some of the pairs, in the same order.
proof fn lemma_live_pairs(pairs: Seq<(Seq<char>, Seq<char>)>, live: Seq<Seq<char>>)
    requires
        in_order(pairs),
    ensures
        in_order(live_pairs(pairs, live)),
        forall|pair: (Seq<char>, Seq<char>)|
            #[trigger] live_pairs(pairs, live).contains(pair) <==> pairs.contains(pair)
                && live.contains(pair.1),
        live_pairs(pairs, live).len() <= pairs.len(),
        live_pairs(pairs, live).len() == pairs.len() <==> (forall|i: int|
            0 <= i < pairs.len() ==> live.contains((#[trigger] pairs[i]).1)),
    decreases pairs.len(),
{
    reveal(Seq::filter);
    if pairs.len() > 0 {
        let front = pairs.drop_last();
        let last = pairs.last();
        assert forall|i: int, j: int|
            #![trigger front[i], front[j]]
            0 <= i < j < front.len() implies before(front[i].0, front[j].0) by {
            assert(pairs[i] == front[i] && pairs[j] == front[j]);
        }
        lemma_live_pairs(front, live);
        let kept = live_pairs(pairs, live);
        let front_kept = live_pairs(front, live);
        assert forall|i: int, j: int|
            #![trigger kept[i], kept[j]]
            0 <= i < j < kept.len() implies before(kept[i].0, kept[j].0) by {
            assert(kept[i] == front_kept[i]);
            if j < front_kept.len() {
                assert(kept[j] == front_kept[j]);
            } else {
                assert(front_kept.contains(front_kept[i]));
                let k = choose|k: int| 0 <= k < front.len() && front[k] == front_kept[i];
                assert(pairs[k] == front[k]);
                assert(pairs[pairs.len() - 1] == last);
            }
        }
        assert forall|pair: (Seq<char>, Seq<char>)| #[trigger] kept.contains(pair)
            <==> pairs.contains(pair) && live.contains(pair.1) by {
            if kept.contains(pair) {
                let i = choose|i: int| 0 <= i < kept.len() && kept[i] == pair;
                if i < front_kept.len() {
                    assert(front_kept[i] == pair);
                    assert(front_kept.contains(pair));
                    let k = choose|k: int| 0 <= k < front.len() && front[k] == pair;
                    assert(pairs[k] == pair);
                } else {
                    assert(pairs[pairs.len() - 1] == pair);
                }
            }
            if pairs.contains(pair) && live.contains(pair.1) {
                let k = choose|k: int| 0 <= k < pairs.len() && pairs[k] == pair;
                if k < front.len() {
                    assert(front[k] == pair);
                    assert(front_kept.contains(pair));
                    let i = choose|i: int| 0 <= i < front_kept.len() && front_kept[i] == pair;
                    assert(kept[i] == pair);
                } else {
                    assert(kept[kept.len() - 1] == pair);
                }
            }
        }
        if kept.len() == pairs.len() {
            assert forall|i: int| 0 <= i < pairs.len() implies live.contains(
                (#[trigger] pairs[i]).1,
            ) by {
                if i < front.len() {
                    assert(front[i] == pairs[i]);
                }
            }
        }
        if forall|i: int| 0 <= i < pairs.len() ==> live.contains((#[trigger] pairs[i]).1) {
            assert(pairs[pairs.len() - 1] == last);
            assert forall|i: int| 0 <= i < front.len() implies live.contains(
                (#[trigger] front[i]).1,
            ) by {
                assert(pairs[i] == front[i]);
            }
        }
    }
}

/// The map of the live pairs is the map without what is not live.
proof fn lemma_live_map(model: RegistryModel, pairs: Seq<(Seq<char>, Seq<char>)>, live: Seq<Seq<char>>)
    requires
        in_order(pairs),
        model.map == as_map(pairs),
    ensures
        as_map(live_pairs(pairs, live)) == model.reconciled(live).map,
        live_pairs(pairs, live).len() == pairs.len() <==> model.reconciled(live).map == model.map,
{
    lemma_as_map(pairs);
    lemma_live_pairs(pairs, live);
    let kept = live_pairs(pairs, live);
    let wanted = model.reconciled(live).map;
    assert forall|i: int| 0 <= i < kept.len() implies wanted.contains_key((#[trigger] kept[i]).0)
        && wanted[kept[i].0] == kept[i].1 by {
        assert(kept.contains(kept[i]));
        let k = choose|k: int| 0 <= k < pairs.len() && pairs[k] == kept[i];
        assert(pairs[k] == kept[i]);
    }
    assert forall|key: Seq<char>| #[trigger] wanted.contains_key(key) implies exists|i: int|
        0 <= i < kept.len() && (#[trigger] kept[i]).0 == key by {
        let k = choose|k: int| 0 <= k < pairs.len() && (#[trigger] pairs[k]).0 == key;
        assert(pairs.contains(pairs[k]));
        assert(kept.contains(pairs[k]));
        let i = choose|i: int| 0 <= i < kept.len() && kept[i] == pairs[k];
        assert(kept[i].0 == key);
    }
    lemma_same_map(kept, wanted);
    if kept.len() == pairs.len() {
        assert forall|key: Seq<char>| model.map.contains_key(key) implies wanted.contains_key(
            key,
        ) by {
            let k = choose|k: int| 0 <= k < pairs.len() && (#[trigger] pairs[k]).0 == key;
            assert(live.contains(pairs[k].1));
        }
        assert(wanted =~= model.map);
    } else if wanted == model.map {
        let k = choose|k: int| 0 <= k < pairs.len() && !live.contains((#[trigger] pairs[k]).1);
        assert(model.map.contains_key(pairs[k].0));
        assert(wanted.contains_key(pairs[k].0));
    }
}

impl Registry {
    /// Forget bindings and recency of workspaces that are not live. History
    /// stays. Returns whether anything was forgotten.
    pub fn reconcile(&mut self, live: &[String]) -> (changed: bool)
        requires
            old(self).wf(),
        ensures
            final(self).wf(),
            final(self)@ == old(self)@.reconciled(text::views(live@)),
            changed == (final(self)@ != old(self)@),
    {
        let ghost alive = text::views(live@);
        let ghost model = self@;
        let ghost pairs = text::views(self.bindings@);
        let ghost used = text::views(self.mru@);
        let mut bindings: Vec<(String, String)> = Vec::new();
        let mut i: usize = 0;
        reveal(Seq::filter);
        assert(text::views(bindings@) =~= live_pairs(pairs.take(0), alive));
        while i < self.bindings.len()
            invariant
                i <= self.bindings@.len(),
                pairs == text::views(self.bindings@),
                alive == text::views(live@),
                text::views(bindings@) == live_pairs(pairs.take(i as int), alive),
            decreases self.bindings@.len() - i,
        {
            reveal(Seq::filter);
            assert(pairs.take(i + 1).drop_last() =~= pairs.take(i as int));
            assert(pairs.take(i + 1).last() == (
                self.bindings@[i as int].0@,
                self.bindings@[i as int].1@,
            ));
            if lists(live, self.bindings[i].1.as_str()) {
                bindings.push((self.bindings[i].0.clone(), self.bindings[i].1.clone()));
            }
            i += 1;
        }
        assert(pairs.take(i as int) =~= pairs);
        let mut mru: Vec<String> = Vec::new();
        let ghost is_live = |workspace: Seq<char>| alive.contains(workspace);
        let mut k: usize = 0;
        assert(text::views(mru@) =~= used.take(0).filter(is_live));
        while k < self.mru.len()
            invariant
                k <= self.mru@.len(),
                used == text::views(self.mru@),
                alive == text::views(live@),
                is_live == (|workspace: Seq<char>| alive.contains(workspace)),
                text::views(mru@) == used.take(k as int).filter(is_live),
            decreases self.mru@.len() - k,
        {
            reveal(Seq::filter);
            assert(used.take(k + 1).drop_last() =~= used.take(k as int));
            assert(used.take(k + 1).last() == self.mru@[k as int]@);
            if lists(live, self.mru[k].as_str()) {
                mru.push(self.mru[k].clone());
            }
            k += 1;
        }
        assert(used.take(k as int) =~= used);
        proof {
            lemma_live_map(model, pairs, alive);
            lemma_live_pairs(pairs, alive);
            lists::lemma_filter_all(used, is_live);
        }
        let changed = bindings.len() != self.bindings.len() || mru.len() != self.mru.len();
        self.bindings = bindings;
        self.mru = mru;
        proof {
            assert(model.reconciled(alive).mru == used.filter(is_live));
            if !changed {
                assert(self@ =~= model);
            }
        }
        changed
    }

    /// A registry from what the state file holds. A symbolic link and its target
    /// may both be bound from earlier days: a real directory wins over a link,
    /// then the earlier directory, then the earlier workspace. Bindings seed the
    /// history.
    pub fn load(saved: Vec<SavedBinding>, mru: Vec<String>, recent: Vec<String>) -> (registry:
        Registry)
        ensures
            registry.wf(),
            registry@.map == loaded_map(text::views(saved@)),
            registry@.mru == text::views(mru@),
            registry@.recent == lists::at_most_first(
                lists::distinct(text::views(recent@) + registry.keys()),
                HISTORY_LIMIT as nat,
            ),
    {
        let mut registry = Registry::default();
        let places = order::stable_order(&saved);
        let ghost order_of = order::positions(places@);
        let ghost all = text::views(saved@);
        let mut i: usize = 0;
        while i < places.len()
            invariant
                i <= places@.len(),
                registry.in_shape(),
                all == text::views(saved@),
                order_of == order::positions(places@),
                order::is_permutation(order_of, saved@.len()),
                registry@.map == kept_bindings(all, order_of, i as nat),
                registry@.mru == Seq::<Seq<char>>::empty(),
                registry@.recent == Seq::<Seq<char>>::empty(),
            decreases places@.len() - i,
        {
            assert(order_of[i as int] == places@[i as int] as int);
            let binding = &saved[places[i]];
            assert(all[order_of[i as int]] == binding@);
            let (_at, found) = registry.place(binding.canonical.as_str());
            if !found {
                registry.insert(binding.canonical.as_str(), binding.workspace.as_str());
            }
            i += 1;
        }
        let ghost listed = text::views(recent@) + registry.keys();
        let ghost map = registry@.map;
        let ghost keys = registry.keys();
        let mut known: Vec<String> = Vec::new();
        let mut k: usize = 0;
        let total: usize = recent.len();
        assert(text::views(known@) =~= lists::distinct(listed.take(0)));
        while k < total && known.len() < HISTORY_LIMIT
            invariant
                k <= total == recent@.len(),
                listed == text::views(recent@) + keys,
                text::views(known@) == lists::distinct(listed.take(k as int)),
                known@.len() <= HISTORY_LIMIT,
            decreases total - k,
        {
            assert(listed.take(k + 1).drop_last() =~= listed.take(k as int));
            assert(listed.take(k + 1).last() == recent@[k as int]@);
            if !text::holds(&known, recent[k].as_str()) {
                known.push(recent[k].clone());
            }
            k += 1;
        }
        let mut n: usize = 0;
        assert(k == total ==> listed.take(total as int) =~= listed.take(total + n));
        while k == total && n < registry.bindings.len() && known.len() < HISTORY_LIMIT
            invariant
                n <= registry.bindings@.len(),
                k <= total == recent@.len(),
                registry.in_shape(),
                registry.keys() == keys,
                registry@.map == map,
                listed == text::views(recent@) + keys,
                k < total ==> n == 0 && known@.len() == HISTORY_LIMIT && text::views(known@)
                    == lists::distinct(listed.take(k as int)),
                k == total ==> text::views(known@) == lists::distinct(listed.take(total + n)),
                known@.len() <= HISTORY_LIMIT,
            decreases registry.bindings@.len() - n,
        {
            assert(listed.take(total + n + 1).drop_last() =~= listed.take(total + n));
            assert(listed.take(total + n + 1).last() == registry.bindings@[n as int].0@);
            if !text::holds(&known, registry.bindings[n].0.as_str()) {
                known.push(registry.bindings[n].0.clone());
            }
            n += 1;
        }
        proof {
            let reached: int = if k < total {
                k as int
            } else {
                total + n
            };
            assert(text::views(known@) == lists::distinct(listed.take(reached)));
            lists::lemma_distinct(listed);
            lists::lemma_distinct(listed.take(reached));
            lists::lemma_distinct_grows(listed, reached);
            if known@.len() < HISTORY_LIMIT {
                assert(listed.take(reached) =~= listed);
            } else {
                assert(text::views(known@) =~= lists::at_most_first(
                    lists::distinct(listed),
                    HISTORY_LIMIT as nat,
                ));
            }
        }
        let bindings = registry.bindings;
        let registry = Registry { bindings, mru, recent: known };
        assert(registry.keys() =~= keys);
        proof {
            let pairs = text::views(registry.bindings@);
            lemma_as_map(pairs);
            lists::lemma_distinct(listed);
            if registry@.recent.len() != HISTORY_LIMIT {
                assert forall|directory: Seq<char>| #[trigger]
                    registry@.map.contains_key(directory) implies registry@.recent.contains(
                    directory,
                ) by {
                    let i = choose|i: int|
                        0 <= i < pairs.len() && (#[trigger] pairs[i]).0 == directory;
                    assert(keys[i] == directory);
                    assert(listed[recent@.len() + i] == directory);
                }
            }
        }
        registry
    }
}

/// What a well-formed registry is made of.
pub proof fn lemma_registry_parts(registry: Registry)
    requires
        registry.wf(),
    ensures
        in_order(registry.pairs()),
        registry@.map == as_map(registry.pairs()),
        registry.keys().len() == registry.pairs().len(),
        forall|i: int|
            0 <= i < registry.keys().len() ==> #[trigger] registry.keys()[i] == registry.pairs()[i].0,
        registry@.recent.no_duplicates(),
        registry@.recent.len() <= HISTORY_LIMIT,
        registry@.remembers_bindings(),
{
}

} // verus!
