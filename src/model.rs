use vstd::prelude::*;

verus! {

/// The configuration file: packages never to upgrade, and the package
/// repositories to follow.
#[derive(Clone, Debug, PartialEq, Eq)]
pub struct Config {
    pub ignore: Vec<String>,
    pub repositories: Vec<Repository>,
}

/// A package repository: a name and the git URL it is cloned from.
#[derive(Clone, Debug, PartialEq, Eq)]
pub struct Repository {
    pub name: String,
    pub source: String,
}

/// A document of the `packages` collection: the repository a package comes
/// from and the directory holding its `LULU.toml`.
#[derive(Clone, Debug, PartialEq, Eq)]
pub struct DbPackage {
    pub repository: String,
    pub path: String,
}

/// A document of the `installed` collection: the installed version, the
/// commit it was built from, and its source repository.
#[derive(Clone, Debug, PartialEq, Eq)]
pub struct Installed {
    pub version: String,
    pub hash: String,
    pub source: String,
}

} // verus!
