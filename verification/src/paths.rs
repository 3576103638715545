use vstd::prelude::*;

use crate::text::{chars_of, push_str_chars, string_from_chars};

verus! {

/// Which kind of build runs: a development build finds its files next to
/// the working directory, a release build in system and user directories.
#[derive(Clone, Copy, Debug, PartialEq, Eq, Structural)]
pub enum BuildProfile {
    Debug,
    Release,
}

/// Where the game finds its assets and levels and keeps imported ones.
#[derive(Clone, Debug, PartialEq, Eq)]
pub struct PathConfig {
    pub build_profile: BuildProfile,
    pub asset_root: String,
    pub levels_dir: String,
    pub builtin_default_pack: String,
    pub user_data_dir: String,
    pub imported_dir: String,
}

/// Directories given by the environment (unset or empty variables are
/// `None`).
#[derive(Clone, Debug)]
pub struct EnvOverrides {
    pub asset_dir: Option<String>,
    pub levels_dir: Option<String>,
    pub user_data_dir: Option<String>,
    pub xdg_data_home: Option<String>,
    pub home_dir: Option<String>,
}

impl Default for EnvOverrides {
    fn default() -> (e: EnvOverrides)
        ensures
            e.asset_dir is None && e.levels_dir is None && e.user_data_dir is None && e.xdg_data_home is None
                && e.home_dir is None,
    {
        EnvOverrides { asset_dir: None, levels_dir: None, user_data_dir: None, xdg_data_home: None, home_dir: None }
    }
}

/// `rel` appended to `base` as a path component, the way `Path::join` does
/// for a relative component: a `/` goes between them unless `base` is empty
/// or already ends with one.
pub open spec fn joined(base: Seq<char>, rel: Seq<char>) -> Seq<char> {
    if base.len() > 0 && base.last() != '/' { base + seq!['/'] + rel } else { base + rel }
}

/// A relative path: not empty and not starting at the root.
pub open spec fn relative(rel: Seq<char>) -> bool {
    rel.len() > 0 && rel[0] != '/'
}

pub fn join_path(base: &str, rel: &str) -> (r: String)
    requires
        relative(rel@),
    ensures
        r@ == joined(base@, rel@),
{
    let mut out = chars_of(base);
    let n = out.len();
    if n > 0 && out[n - 1] != '/' {
        out.push('/');
    }
    push_str_chars(&mut out, rel);
    string_from_chars(out.as_slice())
}

pub open spec fn opt_view(o: Option<String>) -> Option<Seq<char>> {
    match o {
        Some(s) => Some(s@),
        None => None,
    }
}

/// Where a release build keeps user data: under `XDG_DATA_HOME`, else under
/// the home directory, else relative to the working directory.
pub open spec fn release_user_data_dir(xdg: Option<Seq<char>>, home: Option<Seq<char>>) -> Seq<char> {
    match xdg {
        Some(p) => joined(p, "sokoban"@),
        None => match home {
            Some(h) => joined(h, ".local/share/sokoban"@),
            None => ".local/share/sokoban"@,
        },
    }
}

fn default_release_user_data_dir(env: &EnvOverrides) -> (r: String)
    ensures
        r@ == release_user_data_dir(opt_view(env.xdg_data_home), opt_view(env.home_dir)),
{
    proof {
        reveal_strlit("sokoban");
        reveal_strlit(".local/share/sokoban");
    }
    if let Some(path) = &env.xdg_data_home {
        return join_path(path.as_str(), "sokoban");
    }
    if let Some(path) = &env.home_dir {
        return join_path(path.as_str(), ".local/share/sokoban");
    }
    string_from_chars(chars_of(".local/share/sokoban").as_slice())
}

fn or_default(o: &Option<String>, default: &String) -> (r: String)
    ensures
        r@ == match o {
            Some(s) => s@,
            None => default@,
        },
{
    match o {
        Some(s) => s.clone(),
        None => default.clone(),
    }
}

pub open spec fn override_or(o: Option<String>, default: Seq<char>) -> Seq<char> {
    match o {
        Some(s) => s@,
        None => default,
    }
}

/// The default asset, level and user-data directories of a build.
pub open spec fn default_dirs(profile: BuildProfile, cwd: Seq<char>, env: EnvOverrides) -> (Seq<char>, Seq<char>, Seq<char>) {
    match profile {
        BuildProfile::Debug => (joined(cwd, "assets"@), joined(cwd, "levels"@), joined(cwd, "levels"@)),
        BuildProfile::Release => (
            "/usr/share/sokoban/assets"@,
            "/usr/share/sokoban/levels"@,
            release_user_data_dir(opt_view(env.xdg_data_home), opt_view(env.home_dir)),
        ),
    }
}

/// Works out the directories: each given by the environment wins, the
/// others come from the build's defaults; the built-in pack and the
/// imported directory sit inside the levels and user-data directories.
pub fn resolve_with_env(profile: BuildProfile, cwd: &str, env: &EnvOverrides) -> (c: PathConfig)
    ensures
        ({
            let (da, dl, du) = default_dirs(profile, cwd@, *env);
            &&& c.build_profile == profile
            &&& c.asset_root@ == override_or(env.asset_dir, da)
            &&& c.levels_dir@ == override_or(env.levels_dir, dl)
            &&& c.user_data_dir@ == override_or(env.user_data_dir, du)
            &&& c.builtin_default_pack@ == joined(c.levels_dir@, "default.txt"@)
            &&& c.imported_dir@ == joined(c.user_data_dir@, "imported"@)
        }),
{
    proof {
        reveal_strlit("assets");
        reveal_strlit("levels");
        reveal_strlit("default.txt");
        reveal_strlit("imported");
    }
    let (default_asset_root, default_levels_dir, default_user_data_dir) = match profile {
        BuildProfile::Debug => (join_path(cwd, "assets"), join_path(cwd, "levels"), join_path(cwd, "levels")),
        BuildProfile::Release => (
            string_from_chars(chars_of("/usr/share/sokoban/assets").as_slice()),
            string_from_chars(chars_of("/usr/share/sokoban/levels").as_slice()),
            default_release_user_data_dir(env),
        ),
    };
    let asset_root = or_default(&env.asset_dir, &default_asset_root);
    let levels_dir = or_default(&env.levels_dir, &default_levels_dir);
    let user_data_dir = or_default(&env.user_data_dir, &default_user_data_dir);
    let builtin_default_pack = join_path(levels_dir.as_str(), "default.txt");
    let imported_dir = join_path(user_data_dir.as_str(), "imported");
    PathConfig { build_profile: profile, asset_root, levels_dir, builtin_default_pack, user_data_dir, imported_dir }
}

} // verus!
