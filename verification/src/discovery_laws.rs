//! What discovery offers as projects, and in which order.

use vstd::prelude::*;
use crate::config;
use crate::config::ConfigModel;
use crate::model_laws;
use crate::order;
use crate::order::{Ranked, TextKey};
use crate::paths;
use crate::sources;
use crate::sources::{CandidateModel, Disk};
use crate::text;

verus! {

/// Whether a path is a repository worth offering: a directory with a `.git`
/// directory, whose last piece does not begin with a dot.
pub open spec fn is_repository(disk: Disk, path: Seq<char>) -> bool {
    &&& (disk.is_dir)(path)
    &&& (disk.has_git_dir)(path)
    &&& paths::base_name(path).len() == 0 || paths::base_name(path)[0] != '.'
}

/// Whether a path stands for a directory.
pub open spec fn stands_for(disk: Disk, path: Seq<char>, directory: Seq<char>) -> bool {
    (disk.canonical)(path) == Some(directory) && (disk.is_dir)(directory)
}

/// Whether a directory is among projects, under any spelling.
pub open spec fn is_offered(found: Seq<CandidateModel>, directory: Seq<char>) -> bool {
    exists|i: int| 0 <= i < found.len() && paths::same_path((#[trigger] found[i]).path, directory)
}

/// The repositories in a directory are its entries that are worth offering, each as
/// often as it is listed, in the order of their paths.
pub proof fn repositories_come_in_order(disk: Disk, root: Seq<char>, i: int, j: int)
    ensures
        0 <= i < j < disk.projects_under(root).len() ==> text::at_most(
            disk.projects_under(root)[i],
            disk.projects_under(root)[j],
        ),
        forall|path: Seq<char>| #[trigger]
            disk.projects_under(root).contains(path) <==> (disk.entries)(root).contains(path)
                && is_repository(disk, path),
{
    let listed = disk.projects((disk.entries)(root));
    let places = order::ordered::<TextKey>(listed);
    let shown = disk.projects_under(root);
    order::ordering_is_a_stable_sort::<TextKey>(listed);
    if 0 <= i < j < shown.len() {
        assert(TextKey::precedes(listed[places[i]], listed[places[j]]));
    }
    assert forall|path: Seq<char>| #[trigger] shown.contains(path) <==> (disk.entries)(
        root,
    ).contains(path) && is_repository(disk, path) by {
        lemma_projects(disk, (disk.entries)(root), path);
        if shown.contains(path) {
            let k = choose|k: int| 0 <= k < shown.len() && shown[k] == path;
            assert(listed[places[k]] == path);
            assert(listed.contains(path));
        }
        if listed.contains(path) {
            let k = choose|k: int| 0 <= k < listed.len() && listed[k] == path;
            model_laws::permutation_leaves_nothing_out(places, listed.len(), k);
            let at = choose|at: int| 0 <= at < places.len() && places[at] == k;
            assert(shown[at] == path);
        }
    }
}

/// The repositories among paths.
proof fn lemma_projects(disk: Disk, listed: Seq<Seq<char>>, path: Seq<char>)
    ensures
        disk.projects(listed).contains(path) <==> listed.contains(path) && is_repository(
            disk,
            path,
        ),
    decreases listed.len(),
{
    reveal(Seq::filter);
    let found = disk.projects(listed);
    if listed.len() > 0 {
        let front = listed.drop_last();
        let before = disk.projects(front);
        lemma_projects(disk, front, path);
        if found.contains(path) {
            let i = choose|i: int| 0 <= i < found.len() && found[i] == path;
            if i < before.len() {
                assert(before[i] == path);
                assert(before.contains(path));
                let k = choose|k: int| 0 <= k < front.len() && front[k] == path;
                assert(listed[k] == path);
            } else {
                assert(listed[listed.len() - 1] == path);
            }
        }
        if listed.contains(path) && is_repository(disk, path) {
            let k = choose|k: int| 0 <= k < listed.len() && listed[k] == path;
            if k < front.len() {
                assert(front[k] == path);
                assert(before.contains(path));
                let i = choose|i: int| 0 <= i < before.len() && before[i] == path;
                assert(found[i] == path);
            } else {
                assert(found[found.len() - 1] == path);
            }
        }
    }
}

/// The repositories in directories.
proof fn lemma_projects_under(disk: Disk, roots: Seq<Seq<char>>, from: int, path: Seq<char>)
    requires
        0 <= from <= roots.len(),
    ensures
        disk.projects_under_all(roots, from).contains(path) <==> exists|r: int|
            from <= r < roots.len() && (disk.entries)(#[trigger] roots[r]).contains(path)
                && is_repository(disk, path),
    decreases roots.len() - from,
{
    let all = disk.projects_under_all(roots, from);
    if from < roots.len() {
        let here = disk.projects_under(roots[from]);
        let rest = disk.projects_under_all(roots, from + 1);
        lemma_projects_under(disk, roots, from + 1, path);
        repositories_come_in_order(disk, roots[from], 0, 0);
        if all.contains(path) {
            let i = choose|i: int| 0 <= i < all.len() && all[i] == path;
            if i < here.len() {
                assert(here[i] == path);
                assert(here.contains(path));
                assert((disk.entries)(roots[from]).contains(path));
            } else {
                assert(rest[i - here.len()] == path);
                assert(rest.contains(path));
            }
        }
        if exists|r: int|
            from <= r < roots.len() && (disk.entries)(#[trigger] roots[r]).contains(path)
                && is_repository(disk, path) {
            let r = choose|r: int|
                from <= r < roots.len() && (disk.entries)(#[trigger] roots[r]).contains(path)
                    && is_repository(disk, path);
            if r == from {
                assert(here.contains(path));
                let i = choose|i: int| 0 <= i < here.len() && here[i] == path;
                assert(all[i] == path);
            } else {
                assert(rest.contains(path));
                let i = choose|i: int| 0 <= i < rest.len() && rest[i] == path;
                assert(all[here.len() + i] == path);
            }
        }
    }
}

/// Where each project found comes from: later projects from later paths, and what
/// was listed before is known already.
proof fn lemma_resolved(
    disk: Disk,
    listed: Seq<Seq<char>>,
    i: int,
    found: Seq<CandidateModel>,
    home: Option<Seq<char>>,
) -> (from: Seq<int>)
    requires
        0 <= i <= listed.len(),
    ensures
        ({
            let all = disk.resolved(listed, i, found, home);
            &&& all.len() == found.len() + from.len()
            &&& all.take(found.len() as int) == found
            &&& forall|k: int|
                0 <= k < from.len() ==> {
                    let row = all[found.len() + k];
                    &&& i <= #[trigger] from[k] < listed.len()
                    &&& stands_for(disk, listed[from[k]], row.path)
                    &&& row.display == text::sanitized(paths::collapsed(row.path, home))
                }
            &&& forall|k: int, l: int|
                0 <= k < l < from.len() ==> #[trigger] from[k] < #[trigger] from[l]
            &&& forall|k: int, q: int, directory: Seq<char>|
                0 <= k < from.len() && i <= q < from[k] && #[trigger] stands_for(
                    disk,
                    #[trigger] listed[q],
                    directory,
                ) ==> is_offered(all.take(found.len() + #[trigger] id(k)), directory)
            &&& forall|q: int, directory: Seq<char>|
                i <= q < listed.len() && #[trigger] stands_for(
                    disk,
                    #[trigger] listed[q],
                    directory,
                ) ==> is_offered(all, directory)
        }),
    decreases listed.len() - i,
{
    if i == listed.len() {
        assert(disk.resolved(listed, i, found, home).take(found.len() as int) =~= found);
        Seq::empty()
    } else {
        let more = disk.with_path(found, listed[i], home);
        let rest = lemma_resolved(disk, listed, i + 1, more, home);
        let all = disk.resolved(listed, i, found, home);
        assert(all == disk.resolved(listed, i + 1, more, home));
        let added = more.len() > found.len();
        let from = if added {
            seq![i] + rest
        } else {
            rest
        };
        assert(more.take(found.len() as int) =~= found);
        assert(all.take(found.len() as int) =~= all.take(more.len() as int).take(
            found.len() as int,
        ));
        if added {
            assert(all[found.len() as int] == all.take(more.len() as int)[found.len() as int]);
            assert(all[found.len() as int] == more[found.len() as int]);
        }
        assert forall|k: int| 0 <= k < from.len() implies {
            let row = all[found.len() + k];
            &&& i <= #[trigger] from[k] < listed.len()
            &&& stands_for(disk, listed[from[k]], row.path)
            &&& row.display == text::sanitized(paths::collapsed(row.path, home))
        } by {
            if added {
                if k > 0 {
                    assert(from[k] == rest[k - 1]);
                }
            } else {
                assert(from[k] == rest[k]);
            }
        }
        assert forall|k: int, l: int| 0 <= k < l < from.len() implies #[trigger] from[k]
            < #[trigger] from[l] by {
            if added {
                assert(from[l] == rest[l - 1]);
                if k > 0 {
                    assert(from[k] == rest[k - 1]);
                }
            }
        }
        assert forall|directory: Seq<char>| stands_for(
            disk,
            listed[i],
            directory,
        ) implies #[trigger] is_offered(more, directory) by {
            if sources::knows(found, directory) {
                let m = choose|m: int|
                    0 <= m < found.len() && paths::same_path((#[trigger] found[m]).path, directory);
                assert(paths::same_path(more[m].path, directory));
            } else {
                assert(paths::same_path(more[found.len() as int].path, directory));
            }
        }
        assert forall|k: int, q: int, directory: Seq<char>|
            0 <= k < from.len() && i <= q < from[k] && #[trigger] stands_for(
                disk,
                #[trigger] listed[q],
                directory,
            ) implies is_offered(all.take(found.len() + #[trigger] id(k)), directory) by {
            let before = all.take(found.len() + k);
            if added {
                assert(k > 0);
                assert(from[k] == rest[k - 1]);
                if q == i {
                    assert(is_offered(more, directory));
                    lemma_offered_in(more, all, found.len() + k, directory);
                } else {
                    assert(is_offered(all.take(more.len() + id(k - 1)), directory));
                    assert(more.len() + (k - 1) == found.len() + k);
                }
            } else {
                assert(from[k] == rest[k]);
                if q == i {
                    assert(is_offered(more, directory));
                    lemma_offered_in(more, all, found.len() + k, directory);
                } else {
                    assert(is_offered(all.take(more.len() + id(k)), directory));
                }
            }
        }
        assert forall|q: int, directory: Seq<char>|
            i <= q < listed.len() && #[trigger] stands_for(
                disk,
                #[trigger] listed[q],
                directory,
            ) implies is_offered(all, directory) by {
            if q == i {
                assert(is_offered(more, directory));
                lemma_offered_in(more, all, all.len() as int, directory);
                assert(all.take(all.len() as int) =~= all);
            }
        }
        from
    }
}

spec fn id(k: int) -> int {
    k
}

/// What is offered stays offered as more is.
proof fn lemma_offered_in(
    found: Seq<CandidateModel>,
    all: Seq<CandidateModel>,
    n: int,
    directory: Seq<char>,
)
    requires
        found.len() <= n <= all.len(),
        all.take(found.len() as int) == found,
        is_offered(found, directory),
    ensures
        is_offered(all.take(n), directory),
{
    let m = choose|m: int|
        0 <= m < found.len() && paths::same_path((#[trigger] found[m]).path, directory);
    assert(all.take(found.len() as int)[m] == all.take(n)[m]);
    assert(paths::same_path(all.take(n)[m].path, directory));
}

/// All paths that discovery goes by, in order.
spec fn listing(
    config: ConfigModel,
    zoxide: Seq<Seq<char>>,
    recent: Seq<Seq<char>>,
    home: Option<Seq<char>>,
    disk: Disk,
) -> Seq<Seq<char>> {
    recent + sources::all_expanded(config.paths, home) + disk.projects_under_all(
        sources::all_expanded(config.roots, home),
        0,
    ) + disk.projects(
        if config.use_zoxide {
            zoxide
        } else {
            Seq::empty()
        },
    )
}

/// Every directory that the sources name is offered: what was opened recently, what
/// the user named, every repository right below a directory that the user named for
/// that, and every repository that zoxide knows, where it is asked.
pub proof fn every_source_is_offered(
    config: ConfigModel,
    zoxide: Seq<Seq<char>>,
    recent: Seq<Seq<char>>,
    home: Option<Seq<char>>,
    disk: Disk,
    path: Seq<char>,
    directory: Seq<char>,
)
    requires
        stands_for(disk, path, directory),
        ({
            ||| recent.contains(path)
            ||| exists|k: int|
                0 <= k < config.paths.len() && path == config::expanded(
                    #[trigger] config.paths[k],
                    home,
                )
            ||| is_repository(disk, path) && exists|r: int|
                0 <= r < config.roots.len() && (disk.entries)(
                    config::expanded(#[trigger] config.roots[r], home),
                ).contains(path)
            ||| is_repository(disk, path) && config.use_zoxide && zoxide.contains(path)
        }),
    ensures
        is_offered(sources::gathered(config, zoxide, recent, home, disk), directory),
{
    let listed = listing(config, zoxide, recent, home, disk);
    let named = sources::all_expanded(config.paths, home);
    let roots = sources::all_expanded(config.roots, home);
    let under = disk.projects_under_all(roots, 0);
    let asked = if config.use_zoxide {
        zoxide
    } else {
        Seq::empty()
    };
    let hinted = disk.projects(asked);
    lemma_resolved(disk, listed, 0, Seq::empty(), home);
    if recent.contains(path) {
        let q = choose|q: int| 0 <= q < recent.len() && recent[q] == path;
        assert(listed[q] == path);
        assert(stands_for(disk, listed[q], directory));
    } else if exists|k: int|
        0 <= k < config.paths.len() && path == config::expanded(#[trigger] config.paths[k], home) {
        let k = choose|k: int|
            0 <= k < config.paths.len() && path == config::expanded(
                #[trigger] config.paths[k],
                home,
            );
        assert(listed[recent.len() + k] == named[k]);
        assert(stands_for(disk, listed[recent.len() + k], directory));
    } else if is_repository(disk, path) && exists|r: int|
        0 <= r < config.roots.len() && (disk.entries)(
            config::expanded(#[trigger] config.roots[r], home),
        ).contains(path) {
        let r = choose|r: int|
            0 <= r < config.roots.len() && (disk.entries)(
                config::expanded(#[trigger] config.roots[r], home),
            ).contains(path);
        assert((disk.entries)(roots[r]).contains(path));
        lemma_projects_under(disk, roots, 0, path);
        let i = choose|i: int| 0 <= i < under.len() && under[i] == path;
        let q = recent.len() + named.len() + i;
        assert(listed[q] == path);
        assert(stands_for(disk, listed[q], directory));
    } else {
        lemma_projects(disk, asked, path);
        let i = choose|i: int| 0 <= i < hinted.len() && hinted[i] == path;
        let q = recent.len() + named.len() + under.len() + i;
        assert(listed[q] == path);
        assert(stands_for(disk, listed[q], directory));
    }
}

/// Whether a directory is one that was opened recently.
pub open spec fn is_recent(disk: Disk, recent: Seq<Seq<char>>, directory: Seq<char>) -> bool {
    exists|k: int| 0 <= k < recent.len() && stands_for(disk, #[trigger] recent[k], directory)
}

/// Whether a directory is one that the user named.
pub open spec fn is_named(
    disk: Disk,
    config: ConfigModel,
    home: Option<Seq<char>>,
    directory: Seq<char>,
) -> bool {
    exists|k: int|
        0 <= k < config.paths.len() && stands_for(
            disk,
            config::expanded(#[trigger] config.paths[k], home),
            directory,
        )
}

/// Whether a directory is a repository right below a directory that the user named
/// for that.
pub open spec fn is_below_root(
    disk: Disk,
    config: ConfigModel,
    home: Option<Seq<char>>,
    directory: Seq<char>,
) -> bool {
    exists|r: int, path: Seq<char>|
        #![trigger config.roots[r], stands_for(disk, path, directory)]
        {
            &&& 0 <= r < config.roots.len()
            &&& (disk.entries)(config::expanded(config.roots[r], home)).contains(path)
            &&& is_repository(disk, path)
            &&& stands_for(disk, path, directory)
        }
}

/// Whether a directory is a repository that zoxide knows, where it is asked.
pub open spec fn is_hinted(
    disk: Disk,
    config: ConfigModel,
    zoxide: Seq<Seq<char>>,
    directory: Seq<char>,
) -> bool {
    config.use_zoxide && exists|path: Seq<char>| #[trigger]
        zoxide.contains(path) && is_repository(disk, path) && stands_for(disk, path, directory)
}

/// Where a path that discovery goes by comes from.
proof fn lemma_source_of(
    config: ConfigModel,
    zoxide: Seq<Seq<char>>,
    recent: Seq<Seq<char>>,
    home: Option<Seq<char>>,
    disk: Disk,
    q: int,
    directory: Seq<char>,
)
    requires
        0 <= q < listing(config, zoxide, recent, home, disk).len(),
        stands_for(disk, listing(config, zoxide, recent, home, disk)[q], directory),
    ensures
        q < recent.len() ==> is_recent(disk, recent, directory),
        recent.len() <= q < recent.len() + config.paths.len() ==> is_named(
            disk,
            config,
            home,
            directory,
        ),
        ({
            let under = disk.projects_under_all(sources::all_expanded(config.roots, home), 0);
            let from = recent.len() + config.paths.len();
            &&& from <= q < from + under.len() ==> is_below_root(disk, config, home, directory)
            &&& from + under.len() <= q ==> is_hinted(disk, config, zoxide, directory)
        }),
{
    let listed = listing(config, zoxide, recent, home, disk);
    let named = sources::all_expanded(config.paths, home);
    let roots = sources::all_expanded(config.roots, home);
    let under = disk.projects_under_all(roots, 0);
    let asked = if config.use_zoxide {
        zoxide
    } else {
        Seq::empty()
    };
    let hinted = disk.projects(asked);
    let path = listed[q];
    if q < recent.len() {
        assert(recent[q] == path);
    } else if q < recent.len() + named.len() {
        let k = q - recent.len();
        assert(named[k] == path);
        assert(stands_for(disk, config::expanded(config.paths[k], home), directory));
    } else if q < recent.len() + named.len() + under.len() {
        assert(under[q - recent.len() - named.len()] == path);
        assert(under.contains(path));
        lemma_projects_under(disk, roots, 0, path);
        let r = choose|r: int|
            0 <= r < roots.len() && (disk.entries)(#[trigger] roots[r]).contains(path)
                && is_repository(disk, path);
        assert(roots[r] == config::expanded(config.roots[r], home));
    } else {
        assert(hinted[q - recent.len() - named.len() - under.len()] == path);
        assert(hinted.contains(path));
        lemma_projects(disk, asked, path);
        if !config.use_zoxide {
            assert(false);
        }
        assert(zoxide.contains(path));
    }
}

/// Nothing is offered that no source names: hidden directories, linked worktrees and
/// what is no repository are offered only where the user named or opened them. What
/// is offered is spelled canonically, and shown with the home directory as `~`,
/// without control characters.
pub proof fn nothing_else_is_offered(
    config: ConfigModel,
    zoxide: Seq<Seq<char>>,
    recent: Seq<Seq<char>>,
    home: Option<Seq<char>>,
    disk: Disk,
    i: int,
)
    requires
        0 <= i < sources::gathered(config, zoxide, recent, home, disk).len(),
    ensures
        ({
            let found = sources::gathered(config, zoxide, recent, home, disk)[i];
            &&& found.display == text::sanitized(paths::collapsed(found.path, home))
            &&& {
                ||| is_recent(disk, recent, found.path)
                ||| is_named(disk, config, home, found.path)
                ||| is_below_root(disk, config, home, found.path)
                ||| is_hinted(disk, config, zoxide, found.path)
            }
        }),
{
    let listed = listing(config, zoxide, recent, home, disk);
    let from = lemma_resolved(disk, listed, 0, Seq::empty(), home);
    let found = sources::gathered(config, zoxide, recent, home, disk)[i];
    assert(from[i] < listed.len());
    lemma_source_of(config, zoxide, recent, home, disk, from[i], found.path);
}

/// Sources come in order: what was opened recently, what the user named, what lies
/// below a directory named for that, and what zoxide knows. A directory of an earlier
/// source never comes after one that only a later source gives.
pub proof fn sources_come_in_order(
    config: ConfigModel,
    zoxide: Seq<Seq<char>>,
    recent: Seq<Seq<char>>,
    home: Option<Seq<char>>,
    disk: Disk,
    i: int,
    j: int,
)
    requires
        0 <= i < j < sources::gathered(config, zoxide, recent, home, disk).len(),
    ensures
        ({
            let a = sources::gathered(config, zoxide, recent, home, disk)[i].path;
            let b = sources::gathered(config, zoxide, recent, home, disk)[j].path;
            &&& is_recent(disk, recent, b) ==> is_recent(disk, recent, a)
            &&& is_named(disk, config, home, b) ==> is_recent(disk, recent, a) || is_named(
                disk,
                config,
                home,
                a,
            )
            &&& is_below_root(disk, config, home, b) ==> is_recent(disk, recent, a) || is_named(
                disk,
                config,
                home,
                a,
            ) || is_below_root(disk, config, home, a)
        }),
{
    let listed = listing(config, zoxide, recent, home, disk);
    let from = lemma_resolved(disk, listed, 0, Seq::empty(), home);
    let all = sources::gathered(config, zoxide, recent, home, disk);
    let a = all[i].path;
    let b = all[j].path;
    let named = sources::all_expanded(config.paths, home);
    let roots = sources::all_expanded(config.roots, home);
    let under = disk.projects_under_all(roots, 0);
    sources::projects_are_distinct_directories(config, zoxide, recent, home, disk);
    assert(from[i] < from[j]);
    lemma_source_of(config, zoxide, recent, home, disk, from[i], a);
    assert forall|q: int| 0 <= q < listed.len() && stands_for(
        disk,
        #[trigger] listed[q],
        b,
    ) implies from[j] <= q by {
        if q < from[j] {
            assert(is_offered(all.take(0 + id(j)), b));
            let m = choose|m: int|
                0 <= m < all.take(j).len() && paths::same_path((#[trigger] all.take(j)[m]).path, b);
            assert(all.take(j)[m] == all[m]);
            assert(!paths::same_path(all[m].path, all[j].path));
        }
    }
    if is_recent(disk, recent, b) {
        let q = choose|q: int| 0 <= q < recent.len() && stands_for(disk, #[trigger] recent[q], b);
        assert(listed[q] == recent[q]);
        assert(from[j] <= q);
    }
    if is_named(disk, config, home, b) {
        let k = choose|k: int|
            0 <= k < config.paths.len() && stands_for(
                disk,
                config::expanded(#[trigger] config.paths[k], home),
                b,
            );
        assert(listed[recent.len() + k] == named[k]);
        assert(from[j] <= recent.len() + k);
    }
    if is_below_root(disk, config, home, b) {
        let (r, path) = choose|r: int, path: Seq<char>|
            #![trigger config.roots[r], stands_for(disk, path, b)]
            {
                &&& 0 <= r < config.roots.len()
                &&& (disk.entries)(config::expanded(config.roots[r], home)).contains(path)
                &&& is_repository(disk, path)
                &&& stands_for(disk, path, b)
            };
        assert((disk.entries)(roots[r]).contains(path));
        lemma_projects_under(disk, roots, 0, path);
        let x = choose|x: int| 0 <= x < under.len() && under[x] == path;
        let q = recent.len() + named.len() + x;
        assert(listed[q] == path);
        assert(from[j] <= q);
    }
}

/// Projects that were opened recently come in the order in which they were opened,
/// latest first.
pub proof fn recent_projects_keep_their_order(
    config: ConfigModel,
    zoxide: Seq<Seq<char>>,
    recent: Seq<Seq<char>>,
    home: Option<Seq<char>>,
    disk: Disk,
    i: int,
    j: int,
    q: int,
)
    requires
        0 <= i < j < sources::gathered(config, zoxide, recent, home, disk).len(),
        0 <= q < recent.len(),
        stands_for(
            disk,
            recent[q],
            sources::gathered(config, zoxide, recent, home, disk)[j].path,
        ),
    ensures
        exists|p: int|
            0 <= p < q && stands_for(
                disk,
                #[trigger] recent[p],
                sources::gathered(config, zoxide, recent, home, disk)[i].path,
            ),
{
    let listed = listing(config, zoxide, recent, home, disk);
    let from = lemma_resolved(disk, listed, 0, Seq::empty(), home);
    let all = sources::gathered(config, zoxide, recent, home, disk);
    sources::projects_are_distinct_directories(config, zoxide, recent, home, disk);
    assert(from[i] < from[j]);
    assert(listed[q] == recent[q]);
    if q < from[j] {
        assert(is_offered(all.take(0 + id(j)), all[j].path));
        let m = choose|m: int|
            0 <= m < all.take(j).len() && paths::same_path(
                (#[trigger] all.take(j)[m]).path,
                all[j].path,
            );
        assert(all.take(j)[m] == all[m]);
    }
    assert(listed[from[i]] == recent[from[i]]);
    assert(stands_for(disk, recent[from[i]], all[i].path));
}

/// Where zoxide is not asked, what it knows plays no part.
pub proof fn zoxide_is_only_asked_where_it_is_used(
    config: ConfigModel,
    zoxide: Seq<Seq<char>>,
    other: Seq<Seq<char>>,
    recent: Seq<Seq<char>>,
    home: Option<Seq<char>>,
    disk: Disk,
)
    requires
        !config.use_zoxide,
    ensures
        sources::gathered(config, zoxide, recent, home, disk) == sources::gathered(
            config,
            other,
            recent,
            home,
            disk,
        ),
{
}

/// A path that begins with a slash, or with any other name, is taken as it is; only a
/// leading `~`, alone or before a slash, stands for the home directory.
pub proof fn only_a_leading_tilde_is_written_out(path: Seq<char>, home: Option<Seq<char>>)
    ensures
        home is None ==> config::expanded(path, home) == path,
        path.len() == 0 || path[0] != '~' ==> config::expanded(path, home) == path,
        path.len() > 1 && path[1] != '/' ==> config::expanded(path, home) == path,
        home is Some && path == seq!['~'] ==> config::expanded(path, home) == home->0,
        home is Some && path.len() >= 2 && path[0] == '~' && path[1] == '/'
            ==> config::expanded(path, home) == paths::child(home->0, path.skip(2)),
{
    assert(seq!['~'].len() == 1);
    assert(seq!['~'][0] == '~');
}

} // verus!
