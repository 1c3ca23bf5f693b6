use maram::config::Config;
use maram::error::MaramError;
use maram::path::FsPath;

#[test]
fn default_configuration() {
    let c = Config::default();
    assert!(c.default_variants.is_empty());
    assert!(!c.no_session);
    assert!(c.maram_dir.is_none());
    assert!(c.prefix_zellij_layout.is_none());
}

#[test]
fn configuration_file_location() {
    let home = FsPath::parse("/home/u");
    assert_eq!(Config::dot_config_path(&home).to_string(), "/home/u/.config/maram/config.toml");
    let l = Config::config_path(Some(home.clone()), true, Some(FsPath::parse("/xdg"))).ok().unwrap();
    assert_eq!(l.file.to_string(), "/home/u/.config/maram/config.toml");
    assert!(l.create_dir.is_none());
    let l = Config::config_path(Some(home.clone()), false, Some(FsPath::parse("/xdg"))).ok().unwrap();
    assert_eq!(l.file.to_string(), "/xdg/maram/config.toml");
    assert_eq!(l.create_dir.unwrap().to_string(), "/xdg/maram");
    assert_eq!(Config::config_path(None, true, None).err(), Some(MaramError::NoHomeDir));
    assert_eq!(Config::config_path(Some(home), false, None).err(), Some(MaramError::NoConfigDir));
}
