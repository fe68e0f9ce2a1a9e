use crate::model::Config;
use crate::package::{Dependencies, Dependency, DependencyType};
use vstd::prelude::*;

verus! {

/// Where `install` takes a package from.
#[derive(Clone, Debug, PartialEq, Eq)]
pub enum InstallSource {
    /// The `LULU.toml` of the current directory.
    Local,
    /// A git repository holding a `LULU.toml`, by URL.
    Git(String),
    /// A package of the `packages` collection, by name.
    Db(String),
}

/// `pat` occurs in `s` at position `i`.
pub open spec fn occurs_at(s: Seq<char>, pat: Seq<char>, i: int) -> bool {
    0 <= i && i + pat.len() <= s.len() && s.subrange(i, i + pat.len()) == pat
}

/// `pat` occurs somewhere in `s`.
pub open spec fn contains_seq(s: Seq<char>, pat: Seq<char>) -> bool {
    exists|i: int| #[trigger] occurs_at(s, pat, i)
}

/// A package name that designates a git repository: one holding `://` or
/// starting with `git@`.
pub open spec fn is_git_url(s: Seq<char>) -> bool {
    contains_seq(s, seq![':', '/', '/']) || occurs_at(s, seq!['g', 'i', 't', '@'], 0)
}

/// A URL with `:` and `/` turned into `_`, fit for a directory name.
pub open spec fn flattened(s: Seq<char>) -> Seq<char>
    decreases s.len(),
{
    if s.len() == 0 {
        s
    } else {
        flattened(s.drop_last()) + if s.last() == ':' || s.last() == '/' {
            seq!['_']
        } else {
            seq![s.last()]
        }
    }
}

/// A `git describe` output made a package version: `-` becomes `.`, and
/// every `v` is dropped.
pub open spec fn version_of(s: Seq<char>) -> Seq<char>
    decreases s.len(),
{
    if s.len() == 0 {
        s
    } else {
        version_of(s.drop_last()) + if s.last() == '-' {
            seq!['.']
        } else if s.last() == 'v' {
            Seq::empty()
        } else {
            seq![s.last()]
        }
    }
}

/// The names of the dependencies that apt provides, in order.
pub open spec fn apt_names(deps: Seq<(String, Dependency)>) -> Seq<Seq<char>>
    decreases deps.len(),
{
    if deps.len() == 0 {
        Seq::empty()
    } else if deps.last().1.is == DependencyType::APT {
        apt_names(deps.drop_last()).push(deps.last().0@)
    } else {
        apt_names(deps.drop_last())
    }
}

/// Whether `pat` occurs in `s` at position `i`.
fn matches_at(s: &str, pat: &str, i: usize) -> (r: bool)
    ensures
        r == occurs_at(s@, pat@, i as int),
{
    let n = s.unicode_len();
    let m = pat.unicode_len();
    if i > n || m > n - i {
        return false;
    }
    let mut j: usize = 0;
    while j < m
        invariant
            j <= m,
            m == pat@.len(),
            n == s@.len(),
            i + m <= n,
            forall|t: int| 0 <= t < j ==> s@[i + t] == pat@[t],
        decreases m - j,
    {
        if s.get_char(i + j) != pat.get_char(j) {
            proof {
                assert(s@.subrange(i as int, i + m)[j as int] != pat@[j as int]);
            }
            return false;
        }
        j = j + 1;
    }
    proof {
        assert(s@.subrange(i as int, i + m) =~= pat@);
    }
    true
}

/// Whether `pat` occurs in `s`.
fn contains_str(s: &str, pat: &str) -> (r: bool)
    ensures
        r == contains_seq(s@, pat@),
{
    let n = s.unicode_len();
    let mut i: usize = 0;
    while i <= n
        invariant
            n == s@.len(),
            forall|t: int| 0 <= t < i ==> !#[trigger] occurs_at(s@, pat@, t),
        decreases n + 1 - i,
    {
        if matches_at(s, pat, i) {
            return true;
        }
        if i == n {
            proof {
                assert forall|t: int| !#[trigger] occurs_at(s@, pat@, t) by {
                    if t > n {
                        assert(!occurs_at(s@, pat@, t));
                    }
                }
            }
            return false;
        }
        i = i + 1;
    }
    false
}

/// Where `install` takes `name` from: the current directory when no name is
/// given, a git repository for a URL, the `packages` collection otherwise.
pub fn install_source(name: Option<String>) -> (r: InstallSource)
    ensures
        match name {
            None => r == InstallSource::Local,
            Some(n) => if is_git_url(n@) {
                r == InstallSource::Git(n)
            } else {
                r == InstallSource::Db(n)
            },
        },
{
    match name {
        None => InstallSource::Local,
        Some(n) => {
            let sep = "://";
            let user = "git@";
            proof {
                reveal_strlit("://");
                reveal_strlit("git@");
                assert(sep@ =~= seq![':', '/', '/']);
                assert(user@ =~= seq!['g', 'i', 't', '@']);
            }
            if contains_str(n.as_str(), sep) || matches_at(n.as_str(), user, 0) {
                InstallSource::Git(n)
            } else {
                InstallSource::Db(n)
            }
        },
    }
}

/// The name of the directory that a repository at `url` is cloned into:
/// `lulu_` followed by the URL with `:` and `/` turned into `_`.
pub fn checkout_dir_name(url: &str) -> (r: String)
    ensures
        r@ == seq!['l', 'u', 'l', 'u', '_'] + flattened(url@),
{
    let prefix = "lulu_";
    let under = "_";
    proof {
        reveal_strlit("lulu_");
        reveal_strlit("_");
    }
    let mut out = String::from_str(prefix);
    let n = url.unicode_len();
    let mut i: usize = 0;
    while i < n
        invariant
            i <= n,
            n == url@.len(),
            under@ == seq!['_'],
            out@ == seq!['l', 'u', 'l', 'u', '_'] + flattened(url@.take(i as int)),
        decreases n - i,
    {
        let c = url.get_char(i);
        proof {
            assert(url@.take(i + 1).drop_last() =~= url@.take(i as int));
            assert(url@.take(i + 1).last() == c);
        }
        if c == ':' || c == '/' {
            out.append(under);
        } else {
            let one = url.substring_char(i, i + 1);
            proof {
                assert(one@ =~= seq![c]);
            }
            out.append(one);
        }
        proof {
            assert(out@ =~= seq!['l', 'u', 'l', 'u', '_'] + flattened(url@.take(i + 1)));
        }
        i = i + 1;
    }
    proof {
        assert(url@.take(n as int) =~= url@);
    }
    out
}

/// The package version that a `git describe` output `d` stands for.
pub fn version_from_describe(d: &str) -> (r: String)
    ensures
        r@ == version_of(d@),
{
    let dot = ".";
    proof {
        reveal_strlit(".");
    }
    let mut out = String::new();
    let n = d.unicode_len();
    let mut i: usize = 0;
    proof {
        assert(d@.take(0) =~= Seq::<char>::empty());
    }
    while i < n
        invariant
            i <= n,
            n == d@.len(),
            dot@ == seq!['.'],
            out@ == version_of(d@.take(i as int)),
        decreases n - i,
    {
        let c = d.get_char(i);
        proof {
            assert(d@.take(i + 1).drop_last() =~= d@.take(i as int));
            assert(d@.take(i + 1).last() == c);
        }
        if c == '-' {
            out.append(dot);
        } else if c != 'v' {
            let one = d.substring_char(i, i + 1);
            proof {
                assert(one@ =~= seq![c]);
            }
            out.append(one);
        }
        proof {
            assert(out@ =~= version_of(d@.take(i + 1)));
        }
        i = i + 1;
    }
    proof {
        assert(d@.take(n as int) =~= d@);
    }
    out
}

/// The file a built package is written to: `<name>-<version>.deb`.
pub fn deb_file_name(name: &str, version: &str) -> (r: String)
    ensures
        r@ == name@ + seq!['-'] + version@ + seq!['.', 'd', 'e', 'b'],
{
    let dash = "-";
    let ext = ".deb";
    proof {
        reveal_strlit("-");
        reveal_strlit(".deb");
    }
    let mut out = String::from_str(name);
    out.append(dash);
    out.append(version);
    out.append(ext);
    out
}

/// The build dependencies that apt provides, by name and in order.
pub fn apt_build_dependencies(deps: &Dependencies) -> (r: Vec<String>)
    ensures
        r@.len() == apt_names(deps.build@).len(),
        forall|i: int| 0 <= i < r@.len() ==> #[trigger] r@[i]@ == apt_names(deps.build@)[i],
{
    let mut out: Vec<String> = Vec::new();
    let mut i: usize = 0;
    proof {
        assert(deps.build@.take(0) =~= Seq::<(String, Dependency)>::empty());
    }
    while i < deps.build.len()
        invariant
            i <= deps.build.len(),
            out@.len() == apt_names(deps.build@.take(i as int)).len(),
            forall|t: int| 0 <= t < out@.len() ==> #[trigger] out@[t]@ == apt_names(deps.build@.take(i as int))[t],
        decreases deps.build.len() - i,
    {
        proof {
            assert(deps.build@.take(i + 1).drop_last() =~= deps.build@.take(i as int));
            assert(deps.build@.take(i + 1).last() == deps.build@[i as int]);
        }
        if deps.build[i].1.is == DependencyType::APT {
            out.push(deps.build[i].0.clone());
        }
        i = i + 1;
    }
    proof {
        assert(deps.build@.take(i as int) =~= deps.build@);
    }
    out
}

/// Whether package `id` is listed under `ignore` in `config`.
pub fn is_ignored(config: &Config, id: &String) -> (r: bool)
    ensures
        r == exists|i: int| 0 <= i < config.ignore@.len() && #[trigger] config.ignore@[i]@ == id@,
{
    let mut i: usize = 0;
    while i < config.ignore.len()
        invariant
            i <= config.ignore.len(),
            forall|t: int| 0 <= t < i ==> #[trigger] config.ignore@[t]@ != id@,
        decreases config.ignore.len() - i,
    {
        if config.ignore[i] == *id {
            return true;
        }
        i = i + 1;
    }
    false
}

} // verus!
