use sokoban::paths::{join_path, resolve_with_env, BuildProfile, EnvOverrides};

#[test]
fn debug_defaults_use_repo_relative_paths() {
    let cwd = "/repo/sokoban";
    let cfg = resolve_with_env(BuildProfile::Debug, cwd, &EnvOverrides::default());
    assert_eq!(cfg.asset_root, "/repo/sokoban/assets");
    assert_eq!(cfg.levels_dir, "/repo/sokoban/levels");
    assert_eq!(cfg.builtin_default_pack, "/repo/sokoban/levels/default.txt");
    assert_eq!(cfg.user_data_dir, "/repo/sokoban/levels");
    assert_eq!(cfg.imported_dir, "/repo/sokoban/levels/imported");
}

#[test]
fn release_defaults_use_system_and_xdg_paths() {
    let cwd = "/repo/sokoban";
    let env = EnvOverrides { xdg_data_home: Some("/home/alex/.xdg-data".to_string()), ..EnvOverrides::default() };
    let cfg = resolve_with_env(BuildProfile::Release, cwd, &env);
    assert_eq!(cfg.asset_root, "/usr/share/sokoban/assets");
    assert_eq!(cfg.levels_dir, "/usr/share/sokoban/levels");
    assert_eq!(cfg.builtin_default_pack, "/usr/share/sokoban/levels/default.txt");
    assert_eq!(cfg.user_data_dir, "/home/alex/.xdg-data/sokoban");
    assert_eq!(cfg.imported_dir, "/home/alex/.xdg-data/sokoban/imported");
}

#[test]
fn release_falls_back_to_home_when_xdg_missing() {
    let cwd = "/repo/sokoban";
    let env = EnvOverrides { home_dir: Some("/home/alex".to_string()), ..EnvOverrides::default() };
    let cfg = resolve_with_env(BuildProfile::Release, cwd, &env);
    assert_eq!(cfg.user_data_dir, "/home/alex/.local/share/sokoban");
    assert_eq!(cfg.imported_dir, "/home/alex/.local/share/sokoban/imported");
}

#[test]
fn explicit_env_overrides_take_precedence() {
    let cwd = "/repo/sokoban";
    let env = EnvOverrides {
        asset_dir: Some("/opt/sokoban/assets".to_string()),
        levels_dir: Some("/opt/sokoban/levels".to_string()),
        user_data_dir: Some("/var/lib/sokoban-user".to_string()),
        xdg_data_home: Some("/home/alex/.xdg-data".to_string()),
        home_dir: Some("/home/alex".to_string()),
    };
    let cfg = resolve_with_env(BuildProfile::Release, cwd, &env);
    assert_eq!(cfg.asset_root, "/opt/sokoban/assets");
    assert_eq!(cfg.levels_dir, "/opt/sokoban/levels");
    assert_eq!(cfg.builtin_default_pack, "/opt/sokoban/levels/default.txt");
    assert_eq!(cfg.user_data_dir, "/var/lib/sokoban-user");
    assert_eq!(cfg.imported_dir, "/var/lib/sokoban-user/imported");
}

#[test]
fn release_without_xdg_or_home_is_relative() {
    let cfg = resolve_with_env(BuildProfile::Release, "/x", &EnvOverrides::default());
    assert_eq!(cfg.user_data_dir, ".local/share/sokoban");
    assert_eq!(cfg.imported_dir, ".local/share/sokoban/imported");
}

#[test]
fn join_adds_one_separator() {
    assert_eq!(join_path("/a/", "b"), "/a/b");
    assert_eq!(join_path("/a", "b"), "/a/b");
    assert_eq!(join_path("", "b"), "b");
}
