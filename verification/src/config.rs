//! What the user configured.

use vstd::prelude::*;
use crate::paths;
use crate::sources;
use crate::text;

verus! {

/// Where projects are looked for.
#[derive(Debug, PartialEq, Eq)]
pub struct Config {
    /// Directories that are always shown.
    pub paths: Vec<String>,
    /// Directories that are scanned one level deep for Git repositories.
    pub roots: Vec<String>,
    /// Whether zoxide's directories are taken in.
    pub use_zoxide: bool,
}

/// The view of a [`Config`].
#[verifier::ext_equal]
pub struct ConfigModel {
    pub paths: Seq<Seq<char>>,
    pub roots: Seq<Seq<char>>,
    pub use_zoxide: bool,
}

impl View for Config {
    type V = ConfigModel;

    open spec fn view(&self) -> ConfigModel {
        ConfigModel {
            paths: text::views(self.paths@),
            roots: text::views(self.roots@),
            use_zoxide: self.use_zoxide,
        }
    }
}

impl Clone for Config {
    fn clone(&self) -> (copy: Self)
        ensures
            copy@ == self@,
    {
        Config {
            paths: text::copied_all(&self.paths),
            roots: text::copied_all(&self.roots),
            use_zoxide: self.use_zoxide,
        }
    }
}

impl Default for Config {
    /// No directories of the user's own, and zoxide taken in.
    fn default() -> (config: Self)
        ensures
            config@ == (ConfigModel {
                paths: Seq::empty(),
                roots: Seq::empty(),
                use_zoxide: true,
            }),
    {
        let config = Config { paths: Vec::new(), roots: Vec::new(), use_zoxide: true };
        assert(config@.paths =~= Seq::empty());
        assert(config@.roots =~= Seq::empty());
        config
    }
}

impl Config {
    /// A configuration from what the file sets; what it leaves out is as without
    /// a file.
    pub fn from_settings(
        paths: Option<Vec<String>>,
        roots: Option<Vec<String>>,
        use_zoxide: Option<bool>,
    ) -> (config: Config)
        ensures
            config@.paths == (match paths {
                Some(paths) => text::views(paths@),
                None => Seq::empty(),
            }),
            config@.roots == (match roots {
                Some(roots) => text::views(roots@),
                None => Seq::empty(),
            }),
            config@.use_zoxide == (match use_zoxide {
                Some(wanted) => wanted,
                None => true,
            }),
    {
        let mut config = Config::default();
        if let Some(paths) = paths {
            config.paths = paths;
        }
        if let Some(roots) = roots {
            config.roots = roots;
        }
        if let Some(wanted) = use_zoxide {
            config.use_zoxide = wanted;
        }
        config
    }
}

/// A path with a leading `~` written out.
pub open spec fn expanded(path: Seq<char>, home: Option<Seq<char>>) -> Seq<char> {
    match home {
        Some(home) => if path == seq!['~'] {
            home
        } else if path.len() >= 2 && path[0] == '~' && path[1] == '/' {
            paths::child(home, path.skip(2))
        } else {
            path
        },
        None => path,
    }
}

/// Write out a leading `~`.
pub fn expand_under(path: &str, home: Option<&str>) -> (full: String)
    ensures
        full@ == expanded(
            path@,
            match home {
                Some(home) => Some(home@),
                None => None,
            },
        ),
{
    if let Some(home) = home {
        let chars = text::chars_of(path);
        if chars.len() == 1 && chars[0] == '~' {
            assert(path@ =~= seq!['~']);
            return home.to_string();
        }
        if chars.len() >= 2 && chars[0] == '~' && chars[1] == '/' {
            let rest = text::text_between(&chars, 2, chars.len());
            assert(rest@ =~= path@.skip(2));
            assert(seq!['~'].len() == 1);
            return paths::join(home, rest.as_str());
        }
        assert(path@ != seq!['~']) by {
            if path@ == seq!['~'] {
                assert(path@[0] == '~');
            }
        }
    }
    path.to_string()
}

/// Write out a leading `~` as the home directory that [`sources::home_dir`] gives.
pub fn expand_tilde(path: &str) -> (full: String)
    ensures
        exists|home: Option<String>|
            #[trigger] call_ensures(sources::home_dir, (), home) && full@ == expanded(
                path@,
                text::view_of(home),
            ),
{
    let home = sources::home_dir();
    match &home {
        Some(home) => expand_under(path, Some(home.as_str())),
        None => expand_under(path, None),
    }
}

/// Which panes of a runtime are shown in Jump Pane mode.
#[derive(Debug, PartialEq, Eq)]
pub struct JumpPaneFilter {
    pub runtime: Option<Vec<String>>,
    pub host: Option<Vec<String>>,
    pub workspace: Option<Vec<String>>,
    pub status: Option<Vec<String>>,
    pub include_hidden: bool,
    pub include_plugin: bool,
    pub include_floating: bool,
    pub include_suppressed: bool,
}

/// The view of a [`JumpPaneFilter`].
#[verifier::ext_equal]
pub struct FilterModel {
    pub runtime: Option<Seq<Seq<char>>>,
    pub host: Option<Seq<Seq<char>>>,
    pub workspace: Option<Seq<Seq<char>>>,
    pub status: Option<Seq<Seq<char>>>,
    pub include_hidden: bool,
    pub include_plugin: bool,
    pub include_floating: bool,
    pub include_suppressed: bool,
}

/// The view of an optional list of texts.
pub open spec fn list_view(list: Option<Vec<String>>) -> Option<Seq<Seq<char>>> {
    match list {
        Some(list) => Some(text::views(list@)),
        None => None,
    }
}

impl View for JumpPaneFilter {
    type V = FilterModel;

    open spec fn view(&self) -> FilterModel {
        FilterModel {
            runtime: list_view(self.runtime),
            host: list_view(self.host),
            workspace: list_view(self.workspace),
            status: list_view(self.status),
            include_hidden: self.include_hidden,
            include_plugin: self.include_plugin,
            include_floating: self.include_floating,
            include_suppressed: self.include_suppressed,
        }
    }
}

/// A filter that lets every ordinary pane through.
pub open spec fn open_filter() -> FilterModel {
    FilterModel {
        runtime: None,
        host: None,
        workspace: None,
        status: None,
        include_hidden: false,
        include_plugin: false,
        include_floating: false,
        include_suppressed: false,
    }
}

/// Copy an optional list of texts.
fn copied_list(list: &Option<Vec<String>>) -> (copy: Option<Vec<String>>)
    ensures
        list_view(copy) == list_view(*list),
{
    match list {
        Some(list) => Some(text::copied_all(list)),
        None => None,
    }
}

impl Clone for JumpPaneFilter {
    fn clone(&self) -> (copy: Self)
        ensures
            copy@ == self@,
    {
        JumpPaneFilter {
            runtime: copied_list(&self.runtime),
            host: copied_list(&self.host),
            workspace: copied_list(&self.workspace),
            status: copied_list(&self.status),
            include_hidden: self.include_hidden,
            include_plugin: self.include_plugin,
            include_floating: self.include_floating,
            include_suppressed: self.include_suppressed,
        }
    }
}

impl Default for JumpPaneFilter {
    /// Every ordinary pane; none that is hidden, suppressed, floating or a
    /// plugin's.
    fn default() -> (filter: Self)
        ensures
            filter@ == open_filter(),
    {
        JumpPaneFilter {
            runtime: None,
            host: None,
            workspace: None,
            status: None,
            include_hidden: false,
            include_plugin: false,
            include_floating: false,
            include_suppressed: false,
        }
    }
}

/// A further runtime whose panes are shown in Jump Pane mode.
#[derive(Debug, PartialEq, Eq)]
pub struct JumpPaneSession {
    pub name: String,
    /// The executable; Herdr's own when left out.
    pub command: Option<String>,
    pub args: Vec<String>,
    pub remote: Option<String>,
    /// The socket by which panes are focused.
    pub socket: Option<String>,
    pub filter: JumpPaneFilter,
}

/// The view of a [`JumpPaneSession`].
#[verifier::ext_equal]
pub struct SessionModel {
    pub name: Seq<char>,
    pub command: Option<Seq<char>>,
    pub args: Seq<Seq<char>>,
    pub remote: Option<Seq<char>>,
    pub socket: Option<Seq<char>>,
    pub filter: FilterModel,
}

impl View for JumpPaneSession {
    type V = SessionModel;

    open spec fn view(&self) -> SessionModel {
        SessionModel {
            name: self.name@,
            command: text::view_of(self.command),
            args: text::views(self.args@),
            remote: text::view_of(self.remote),
            socket: text::view_of(self.socket),
            filter: self.filter@,
        }
    }
}

/// The runtimes of Jump Pane mode besides the default one.
#[derive(Debug, PartialEq, Eq)]
pub struct JumpPaneConfig {
    pub sessions: Vec<JumpPaneSession>,
}

impl Default for JumpPaneConfig {
    /// No runtime but the default one.
    fn default() -> (config: Self)
        ensures
            config.sessions@.len() == 0,
    {
        JumpPaneConfig { sessions: Vec::new() }
    }
}

} // verus!
