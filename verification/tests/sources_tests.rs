//! Discovery of projects, configuration, and paths.

use herdr_muster::config::{expand_tilde, expand_under, Config};
use herdr_muster::paths::{
    collapse_under, equal_paths, join, last_name, rooted, split, strip,
};
use herdr_muster::sources::{
    basename, collapse_home, gather, is_project_root, Answer, Ask, Candidate,
};

/// A made-up file system.
#[derive(Default)]
struct Files {
    directories: Vec<&'static str>,
    links: Vec<(&'static str, &'static str)>,
}

impl Files {
    fn is_dir(&self, path: &str) -> bool {
        self.directories.iter().any(|directory| *directory == path)
    }

    fn answer(&self, ask: &Ask) -> Answer {
        match ask {
            Ask::Entries(path) => {
                let inside = format!("{path}/");
                Answer::Entries(
                    self.directories
                        .iter()
                        .filter(|directory| {
                            directory
                                .strip_prefix(inside.as_str())
                                .is_some_and(|rest| !rest.contains('/'))
                        })
                        .map(|directory| directory.to_string())
                        .collect(),
                )
            }
            Ask::Check(path) => Answer::Check {
                is_dir: self.is_dir(path),
                has_git_dir: self.is_dir(&format!("{path}/.git")),
            },
            Ask::Canonical(path) => {
                let linked = self.links.iter().find(|(from, _)| from == path);
                let real = linked.map_or(path.as_str(), |(_, to)| *to);
                Answer::Canonical(self.is_dir(real).then_some((real.to_string(), true)))
            }
            _ => unreachable!(),
        }
    }
}

fn run(config: &Config, zoxide: &[&str], recent: &[&str], files: &Files) -> Vec<Candidate> {
    let zoxide = zoxide.iter().map(|line| line.to_string()).collect();
    let recent = recent.iter().map(|line| line.to_string()).collect();
    let (mut gather, mut ask) = gather(config, &zoxide, &recent, Some("/home/me".into()), false);
    loop {
        match ask {
            Ask::Done(found) => return found,
            Ask::Cancelled => panic!("cancelled"),
            question => ask = gather.step(files.answer(&question), false),
        }
    }
}

fn paths_of(found: &[Candidate]) -> Vec<&str> {
    found.iter().map(|candidate| candidate.path.as_str()).collect()
}

#[test]
fn git_repos_under_finds_only_repos() {
    let files = Files {
        directories: vec!["/tmp", "/tmp/proj", "/tmp/proj/.git", "/tmp/plain"],
        ..Files::default()
    };
    let config = Config {
        paths: vec![],
        roots: vec!["/tmp".into()],
        use_zoxide: false,
    };
    assert_eq!(paths_of(&run(&config, &[], &[], &files)), vec!["/tmp/proj"]);
}

#[test]
fn gather_dedups_and_drops_missing() {
    let files = Files {
        directories: vec!["/tmp/a", "/tmp/a/.git"],
        ..Files::default()
    };
    let config = Config {
        paths: vec!["/tmp/a".into(), "/tmp/a".into()],
        roots: vec![],
        use_zoxide: true,
    };
    let found = run(&config, &["/tmp/a", "/tmp/ghost"], &[], &files);
    assert_eq!(found.len(), 1);
    assert_eq!(found[0].path, "/tmp/a");
}

#[test]
fn gather_stops_promptly_when_cancelled_mid_root_traversal() {
    let config = Config {
        paths: vec![],
        roots: vec!["/tmp/projects".into()],
        use_zoxide: false,
    };
    let (mut gather, ask) = gather(&config, &vec![], &vec![], None, false);
    assert_eq!(ask, Ask::Entries("/tmp/projects".into()));
    let entries = vec!["/tmp/projects/repo".to_string(), "/tmp/projects/plain".to_string()];
    assert_eq!(
        gather.step(Answer::Entries(entries), false),
        Ask::Check("/tmp/projects/repo".into())
    );
    let repo = Answer::Check {
        is_dir: true,
        has_git_dir: true,
    };
    assert_eq!(gather.step(repo, true), Ask::Cancelled);
}

#[test]
fn cancelled_discovery_never_begins() {
    for config in [
        Config {
            paths: vec!["/tmp/a".into()],
            roots: vec![],
            use_zoxide: false,
        },
        Config {
            paths: vec![],
            roots: vec!["/tmp/projects".into()],
            use_zoxide: false,
        },
    ] {
        let (_, ask) = gather(&config, &vec![], &vec![], None, true);
        assert_eq!(ask, Ask::Cancelled);
    }
    let zoxide = Config {
        paths: vec![],
        roots: vec![],
        use_zoxide: true,
    };
    let (_, ask) = gather(&zoxide, &vec!["/tmp/a".to_string()], &vec![], None, true);
    assert_eq!(ask, Ask::Cancelled);
}

#[test]
fn discovery_with_nothing_to_do_is_done_when_cancelled() {
    for cancelled in [false, true] {
        let config = Config {
            paths: vec![],
            roots: vec![],
            use_zoxide: false,
        };
        let lines = vec!["/tmp/a".to_string()];
        let (_, ask) = gather(&config, &lines, &vec![], None, cancelled);
        assert_eq!(ask, Ask::Done(vec![]));
    }
}

#[test]
fn answers_to_other_questions_are_not_taken() {
    let config = Config {
        paths: vec!["/tmp/a".into()],
        roots: vec![],
        use_zoxide: false,
    };
    let (mut gather, ask) = gather(&config, &vec![], &vec![], None, false);
    assert_eq!(ask, Ask::Canonical("/tmp/a".into()));
    assert_eq!(gather.step(Answer::Entries(vec![]), false), ask);
    assert_eq!(gather.step(Answer::Canonical(None), false), Ask::Done(vec![]));
}

#[test]
fn is_project_root_rules() {
    // real repo root: .git is a dir
    assert!(is_project_root("/tmp/proj", true, true));
    // hidden basename dropped
    assert!(!is_project_root("/tmp/.hidden", true, true));
    // linked worktree: .git is a file, not a dir
    assert!(!is_project_root("/tmp/wt", true, false));
    // plain dir with no .git
    assert!(!is_project_root("/tmp/plain", true, false));
    // no directory at all
    assert!(!is_project_root("/tmp/none", false, true));
}

#[test]
fn basename_and_collapse() {
    let home = dirs::home_dir().unwrap();
    assert_eq!(basename("/x/y/proj"), "proj");
    assert_eq!(collapse_home(&home.join("dev").to_string_lossy()), "~/dev");
}

#[test]
fn gather_sanitizes_display_but_keeps_the_real_path() {
    let files = Files {
        directories: vec!["/tmp/api\u{1b}[2J"],
        ..Files::default()
    };
    let config = Config {
        paths: vec!["/tmp/api\u{1b}[2J".into()],
        roots: vec![],
        use_zoxide: false,
    };
    let got = run(&config, &[], &[], &files);
    assert_eq!(got.len(), 1);
    assert!(
        !got[0].display.contains('\u{1b}'),
        "display escaped: {:?}",
        got[0].display
    );
    assert_eq!(got[0].path, "/tmp/api\u{1b}[2J");
}

#[test]
fn sources_come_in_order_and_once() {
    let files = Files {
        directories: vec![
            "/home/me/pinned",
            "/work",
            "/work/b",
            "/work/b/.git",
            "/work/a",
            "/work/a/.git",
            "/real",
            "/z",
            "/z/.git",
        ],
        links: vec![("/alias", "/real")],
    };
    let config = Config {
        paths: vec!["~/pinned".into(), "/alias".into()],
        roots: vec!["/work".into()],
        use_zoxide: true,
    };
    let found = run(&config, &["/z", "/work"], &["/real"], &files);
    assert_eq!(
        paths_of(&found),
        vec!["/real", "/home/me/pinned", "/work/a", "/work/b", "/z"]
    );
    assert_eq!(found[1].display, "~/pinned");
    let without = Config {
        use_zoxide: false,
        ..config
    };
    assert_eq!(run(&without, &["/z"], &[], &files).len(), 4);
}

#[test]
fn settings_left_out_are_the_default_ones() {
    assert_eq!(Config::from_settings(None, None, None), Config::default());
    assert!(Config::default().use_zoxide);
    let config = Config::from_settings(Some(vec!["/a".into()]), None, Some(false));
    assert_eq!(config.paths, vec!["/a"]);
    assert!(config.roots.is_empty());
    assert!(!config.use_zoxide);
}

#[test]
fn tildes_stand_for_home() {
    assert_eq!(expand_under("~", Some("/home/me")), "/home/me");
    assert_eq!(expand_under("~/dev", Some("/home/me")), "/home/me/dev");
    assert_eq!(expand_under("~other", Some("/home/me")), "~other");
    assert_eq!(expand_under("~/dev", None), "~/dev");
    let home = dirs::home_dir().unwrap();
    assert_eq!(expand_tilde("~/dev"), home.join("dev").to_string_lossy());
    assert_eq!(expand_tilde("/dev"), "/dev");
}

#[test]
fn paths_are_read_by_their_pieces() {
    assert_eq!(split("/a//b/./c/"), vec!["a", "b", "c"]);
    assert!(rooted("/a"));
    assert!(!rooted("a"));
    assert!(equal_paths("/a/b/", "/a//b"));
    assert!(!equal_paths("/a/b", "a/b"));
    assert_eq!(last_name("/a/b/"), "b");
    assert_eq!(last_name("/"), "/");
    assert_eq!(last_name("/a/.."), "/a/..");
    assert_eq!(strip("/a/b/c", "/a").as_deref(), Some("b/c"));
    assert_eq!(strip("/ab", "/a"), None);
    assert_eq!(join("/a", "b"), "/a/b");
    assert_eq!(join("/a/", "b"), "/a/b");
    assert_eq!(join("/a", "/b"), "/b");
    assert_eq!(collapse_under("/home/me", Some("/home/me")), "~");
    assert_eq!(collapse_under("/home/me/x", Some("/home/me")), "~/x");
    assert_eq!(collapse_under("/home/meadow", Some("/home/me")), "/home/meadow");
}
