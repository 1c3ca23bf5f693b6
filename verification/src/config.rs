//! The user's configuration (`~/.config/maram/config.toml`).

use vstd::prelude::*;
use crate::error::MaramError;
use crate::path::{FsPath, PathModel, is_component, opt_model};
use crate::metadata::with_component;
use crate::text::string_from_chars;

verus! {

/// The settings of `config.toml`.
#[derive(Debug)]
pub struct Config {
    /// Variants to create with a new worktree set.
    pub default_variants: Vec<String>,
    /// Whether `--no-session` is the default; the flag then turns sessions on.
    pub no_session: bool,
    /// Where worktree sets are stored (`~` stands for the home directory).
    pub maram_dir: Option<String>,
    /// A Zellij layout template put before the tabs of each session.
    pub prefix_zellij_layout: Option<String>,
}

/// Where the configuration file is, and the directory to create for it, if any.
#[derive(Debug)]
pub struct ConfigLocation {
    pub file: FsPath,
    pub create_dir: Option<FsPath>,
}

/// `.config`
pub open spec fn dot_config_name() -> Seq<char> {
    seq!['.', 'c', 'o', 'n', 'f', 'i', 'g']
}

/// `maram`
pub open spec fn app_dir_name() -> Seq<char> {
    seq!['m', 'a', 'r', 'a', 'm']
}

/// `config.toml`
pub open spec fn config_file_name() -> Seq<char> {
    seq!['c', 'o', 'n', 'f', 'i', 'g', '.', 't', 'o', 'm', 'l']
}

/// `~/.config/maram/config.toml` for home directory `home`.
pub open spec fn dot_config_model(home: PathModel) -> PathModel {
    with_component(with_component(with_component(home, dot_config_name()), app_dir_name()), config_file_name())
}

/// Appends a fixed name that is a component.
fn push_fixed(p: &FsPath, chars: Vec<char>) -> (r: FsPath)
    requires
        is_component(chars@),
    ensures
        r@ == with_component(p@, chars@),
{
    let s = string_from_chars(&chars);
    p.push_component(s.as_str())
}

impl Config {
    /// The configuration when there is no file: no default variants, sessions
    /// on, the default directory and no layout template.
    pub fn default_config() -> (r: Config)
        ensures
            r.default_variants@.len() == 0,
            !r.no_session,
            r.maram_dir is None,
            r.prefix_zellij_layout is None,
    {
        Config { default_variants: Vec::new(), no_session: false, maram_dir: None, prefix_zellij_layout: None }
    }

    /// `~/.config/maram/config.toml`, the preferred place of the file.
    pub fn dot_config_path(home: &FsPath) -> (r: FsPath)
        ensures
            r@ == dot_config_model(home@),
    {
        let a = vec!['.', 'c', 'o', 'n', 'f', 'i', 'g'];
        assert(a@ =~= dot_config_name());
        proof {
            crate::path::lemma_name_is_component(a@);
        }
        let p1 = push_fixed(home, a);
        let b = vec!['m', 'a', 'r', 'a', 'm'];
        assert(b@ =~= app_dir_name());
        proof {
            crate::path::lemma_name_is_component(b@);
        }
        let p2 = push_fixed(&p1, b);
        let c = vec!['c', 'o', 'n', 'f', 'i', 'g', '.', 't', 'o', 'm', 'l'];
        assert(c@ =~= config_file_name());
        proof {
            crate::path::lemma_name_is_component(c@);
        }
        push_fixed(&p2, c)
    }

    /// Where the configuration file is: `~/.config/maram/config.toml` when it
    /// exists, else `config.toml` in the directory `maram` of the platform's
    /// configuration directory, which is to be created.
    pub fn config_path(home: Option<FsPath>, dot_config_exists: bool, config_dir: Option<FsPath>) -> (r: Result<ConfigLocation, MaramError>)
        ensures
            home is None ==> r == Err::<ConfigLocation, MaramError>(MaramError::NoHomeDir),
            home is Some && dot_config_exists ==> (r matches Ok(l) && l.file@ == dot_config_model(home->0@) && l.create_dir is None),
            home is Some && !dot_config_exists && config_dir is None ==> r == Err::<ConfigLocation, MaramError>(MaramError::NoConfigDir),
            home is Some && !dot_config_exists && config_dir is Some ==> (r matches Ok(l)
                && (l.create_dir matches Some(cd) && cd@ == with_component(config_dir->0@, app_dir_name()))
                && l.file@ == with_component(with_component(config_dir->0@, app_dir_name()), config_file_name())),
    {
        let h = match home {
            Some(h) => h,
            None => return Err(MaramError::NoHomeDir),
        };
        if dot_config_exists {
            return Ok(ConfigLocation { file: Self::dot_config_path(&h), create_dir: None });
        }
        let d = match config_dir {
            Some(d) => d,
            None => return Err(MaramError::NoConfigDir),
        };
        let b = vec!['m', 'a', 'r', 'a', 'm'];
        assert(b@ =~= app_dir_name());
        proof {
            crate::path::lemma_name_is_component(b@);
        }
        let dir = push_fixed(&d, b);
        let c = vec!['c', 'o', 'n', 'f', 'i', 'g', '.', 't', 'o', 'm', 'l'];
        assert(c@ =~= config_file_name());
        proof {
            crate::path::lemma_name_is_component(c@);
        }
        let file = push_fixed(&dir, c);
        Ok(ConfigLocation { file, create_dir: Some(dir) })
    }
}

impl Default for Config {
    fn default() -> (r: Config)
        ensures
            r.default_variants@.len() == 0,
            !r.no_session,
            r.maram_dir is None,
            r.prefix_zellij_layout is None,
    {
        Config::default_config()
    }
}

} // verus!
