use lulu::model::{Config, Repository};
use lulu::package::{Dependencies, Dependency, DependencyType};
use lulu::workflow::{
    apt_build_dependencies, checkout_dir_name, deb_file_name, install_source, is_ignored, version_from_describe,
    InstallSource,
};

#[test]
fn install_source_by_name() {
    assert_eq!(install_source(None), InstallSource::Local);
    assert_eq!(
        install_source(Some("https://example.org/a.git".to_string())),
        InstallSource::Git("https://example.org/a.git".to_string())
    );
    assert_eq!(
        install_source(Some("git@example.org:a.git".to_string())),
        InstallSource::Git("git@example.org:a.git".to_string())
    );
    assert_eq!(install_source(Some("htop".to_string())), InstallSource::Db("htop".to_string()));
    assert_eq!(install_source(Some("agit@x".to_string())), InstallSource::Db("agit@x".to_string()));
}

#[test]
fn checkout_dir_flattens_url() {
    assert_eq!(checkout_dir_name("https://x.org/a/b"), "lulu_https___x.org_a_b");
    assert_eq!(checkout_dir_name(""), "lulu_");
}

#[test]
fn version_from_git_describe() {
    assert_eq!(version_from_describe("v1.2-3-gabc"), "1.2.3.gabc");
    assert_eq!(version_from_describe("1.0"), "1.0");
    assert_eq!(version_from_describe("vv"), "");
}

#[test]
fn deb_name() {
    assert_eq!(deb_file_name("htop", "3.2.1"), "htop-3.2.1.deb");
}

#[test]
fn apt_dependencies_in_order() {
    let dep = |is: DependencyType| Dependency { is, git: None };
    let deps = Dependencies {
        runtime: vec![],
        build: vec![
            ("cmake".to_string(), dep(DependencyType::APT)),
            ("lib".to_string(), dep(DependencyType::GIT)),
            ("make".to_string(), dep(DependencyType::APT)),
        ],
        optional: vec![],
    };
    assert_eq!(apt_build_dependencies(&deps), vec!["cmake".to_string(), "make".to_string()]);
}

#[test]
fn ignore_list() {
    let config = Config {
        ignore: vec!["a".to_string(), "b".to_string()],
        repositories: vec![Repository { name: "main".to_string(), source: "https://x".to_string() }],
    };
    assert!(is_ignored(&config, &"b".to_string()));
    assert!(!is_ignored(&config, &"c".to_string()));
}
