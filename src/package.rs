use vstd::prelude::*;

verus! {

/// A package description, as read from a `LULU.toml` file.
#[derive(Clone, Debug, PartialEq, Eq)]
pub struct Lulu {
    pub package: Package,
    pub dependencies: Dependencies,
    pub script: Script,
}

#[derive(Clone, Debug, PartialEq, Eq)]
pub struct Package {
    pub name: String,
    pub maintainers: Vec<String>,
    pub description: String,
    pub url: Option<String>,
    pub source: String,
    pub arch: Vec<String>,
    pub license: Vec<String>,
    pub provides: Vec<String>,
    pub preinst: Option<String>,
    pub postinst: Option<String>,
    pub prerm: Option<String>,
    pub postrm: Option<String>,
}

/// Dependencies by name, in ascending order of name.
#[derive(Clone, Debug, PartialEq, Eq)]
pub struct Dependencies {
    pub runtime: Vec<(String, Dependency)>,
    pub build: Vec<(String, Dependency)>,
    pub optional: Vec<(String, Dependency)>,
}

/// The shell scripts that prepare, build, check and package the sources.
#[derive(Clone, Debug, PartialEq, Eq)]
pub struct Script {
    pub prepare: Option<String>,
    pub build: Option<String>,
    pub check: Option<String>,
    pub package: String,
}

#[derive(Clone, Debug, PartialEq, Eq)]
pub struct Dependency {
    pub is: DependencyType,
    pub git: Option<String>,
}

/// Where a dependency comes from.
#[derive(Clone, Copy, Debug, PartialEq, Eq, Structural)]
pub enum DependencyType {
    APT,
    GIT,
}

} // verus!
