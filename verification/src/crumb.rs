//! Packages: the manifest of a package, and the plan by which its archive
//! is baked.
//!
//! Baking packs a package's directory into the archive `name@version.crumb`
//! inside that directory. The payload under `source` goes in whole, at the
//! archive's root; every other entry of the directory goes in under its own
//! name, unless it is the archive itself or the manifest tells to ignore it.

use vstd::prelude::*;
use vstd::string::*;
use crate::error::Error;
use crate::order::{sort_by_name, sorted};
use crate::text::{holds_name, string_views};

verus! {

/// The `[package]` table of a manifest.
#[derive(Debug, Clone, PartialEq, Eq)]
pub struct CrumblePackageInfo {
    pub name: String,
    pub description: Option<String>,
    pub version: String,
    pub license: Option<String>,
    pub homepage: Option<Vec<String>>,
    pub authors: Option<Vec<String>>,
}

/// The `[scripts]` table of a manifest: shell commands, each optional.
#[derive(Debug, Clone, PartialEq, Eq)]
pub struct ScriptInfo {
    pub install: Option<String>,
    pub uninstall: Option<String>,
    pub build: Option<String>,
}

/// A package manifest.
#[derive(Debug, Clone, PartialEq, Eq)]
pub struct CrumbInfo {
    pub package: CrumblePackageInfo,
    pub scripts: ScriptInfo,
    /// Package names with their version constraints.
    pub dependencies: Option<Vec<(String, String)>>,
    /// Names of the files that stay out of the archive.
    pub ignore: Option<Vec<String>>,
}

/// What baking writes: the archive's file name, whether the payload
/// directory goes in, and the other entries that go in, in packing order.
#[derive(Debug, Clone, PartialEq, Eq)]
pub struct BakePlan {
    pub archive: String,
    pub source: bool,
    pub files: Vec<String>,
}

/// The packaging operations.
pub struct Crumb {}

/// The file name of the archive of a package: `name@version.crumb`.
pub open spec fn archive_file_name(name: Seq<char>, version: Seq<char>) -> Seq<char> {
    name + seq!['@'] + version + seq!['.', 'c', 'r', 'u', 'm', 'b']
}

/// The name of the payload directory.
pub open spec fn source_dir() -> Seq<char> {
    seq!['s', 'o', 'u', 'r', 'c', 'e']
}

/// The names that the manifest tells to ignore.
pub open spec fn ignored(info: CrumbInfo) -> Seq<Seq<char>> {
    match info.ignore {
        Some(names) => string_views(names@),
        None => Seq::empty(),
    }
}

/// The entry `name` of the package directory goes into the archive under
/// its own name: it is not the archive, not ignored, and not the payload
/// directory that went in whole.
pub open spec fn is_packed(
    name: Seq<char>,
    archive: Seq<char>,
    ignore: Seq<Seq<char>>,
    source: bool,
) -> bool {
    name != archive && !ignore.contains(name) && !(source && name == source_dir())
}

/// The entries among `names` that go into the archive, in their order.
pub open spec fn packed_names(
    names: Seq<Seq<char>>,
    archive: Seq<char>,
    ignore: Seq<Seq<char>>,
    source: bool,
) -> Seq<Seq<char>>
    decreases names.len(),
{
    if names.len() == 0 {
        Seq::empty()
    } else {
        let before = packed_names(names.drop_last(), archive, ignore, source);
        if is_packed(names.last(), archive, ignore, source) {
            before.push(names.last())
        } else {
            before
        }
    }
}

/// The build step allows baking to go on: the manifest declares no build
/// command, or the command was run and reported the exit status 0.
pub open spec fn build_passed(info: CrumbInfo, build_status: Option<i32>) -> bool {
    info.scripts.build is None || build_status == Some(0i32)
}

impl Crumb {
    /// The file name of the archive of the package `name` in the version
    /// `version`.
    pub fn archive_name(name: &str, version: &str) -> (r: String)
        ensures
            r@ == archive_file_name(name@, version@),
    {
        let mut r = String::from_str(name);
        r.push('@');
        r.append(version);
        r.append(".crumb");
        proof {
            reveal_strlit(".crumb");
            assert(r@ =~= archive_file_name(name@, version@));
        }
        r
    }

    /// Plans the archive of the package that `info` describes.
    ///
    /// `build_status` is the exit status of the manifest's build command,
    /// run in the package directory before anything is listed; `None` where
    /// the command was not run. `has_source` tells whether the package
    /// directory holds the payload directory, and `listing` names the
    /// entries of the package directory. They are packed in the order of
    /// their names.
    ///
    /// Where the manifest declares a build command that did not report
    /// success, baking stops with `BuildScriptFailure`.
    pub fn bake_package(
        info: &CrumbInfo,
        build_status: Option<i32>,
        has_source: bool,
        listing: Vec<String>,
    ) -> (r: Result<BakePlan, Error>)
        ensures
            !build_passed(*info, build_status) ==> r == Err::<BakePlan, Error>(
                Error::BuildScriptFailure,
            ),
            build_passed(*info, build_status) ==> r is Ok && r->Ok_0.archive@ == archive_file_name(
                info.package.name@,
                info.package.version@,
            ) && r->Ok_0.source == has_source && string_views(r->Ok_0.files@) == packed_names(
                string_views(sorted(listing@)),
                archive_file_name(info.package.name@, info.package.version@),
                ignored(*info),
                has_source,
            ),
    {
        if info.scripts.build.is_some() {
            match build_status {
                Some(status) => {
                    if status != 0 {
                        return Err(Error::BuildScriptFailure);
                    }
                },
                None => {
                    return Err(Error::BuildScriptFailure);
                },
            }
        }
        let archive = Crumb::archive_name(info.package.name.as_str(), info.package.version.as_str());
        let source_name = String::from_str("source");
        let none: Vec<String> = Vec::new();
        let ignore: &Vec<String> = match &info.ignore {
            Some(names) => names,
            None => &none,
        };
        let ghost given = listing@;
        let listing = sort_by_name(listing);
        let ghost names = string_views(listing@);
        let ghost skip = ignored(*info);
        proof {
            reveal_strlit("source");
            assert(source_name@ =~= source_dir());
            assert(string_views(none@) =~= Seq::<Seq<char>>::empty());
            assert(string_views(ignore@) == skip);
            assert(names.take(0) =~= Seq::<Seq<char>>::empty());
        }
        let mut files: Vec<String> = Vec::new();
        proof {
            assert(string_views(files@) =~= Seq::<Seq<char>>::empty());
        }
        let mut i: usize = 0;
        while i < listing.len()
            invariant
                i <= listing.len(),
                names == string_views(listing@),
                listing@ == sorted(given),
                string_views(ignore@) == skip,
                source_name@ == source_dir(),
                string_views(files@) == packed_names(names.take(i as int), archive@, skip, has_source),
            decreases listing.len() - i,
        {
            let name = &listing[i];
            let keep = !(*name == archive) && !holds_name(ignore, name) && !(has_source && *name
                == source_name);
            proof {
                let t = names.take(i + 1);
                assert(t.drop_last() =~= names.take(i as int));
                assert(t.last() == name@);
                assert(keep == is_packed(name@, archive@, skip, has_source));
            }
            if keep {
                proof {
                    assert(string_views(files@.push(*name)) =~= string_views(files@).push(name@));
                }
                files.push(name.clone());
            }
            i = i + 1;
        }
        proof {
            assert(names.take(i as int) =~= names);
        }
        Ok(BakePlan { archive, source: has_source, files })
    }
}

} // verus!
