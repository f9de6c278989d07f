use bread::crumb::{BakePlan, Crumb, CrumbInfo, CrumblePackageInfo, ScriptInfo};
use bread::error::Error;

fn manifest(build: Option<&str>, ignore: Option<Vec<&str>>) -> CrumbInfo {
    CrumbInfo {
        package: CrumblePackageInfo {
            name: "linux-fs".to_string(),
            description: Some("Linux Filesystem".to_string()),
            version: "1.0".to_string(),
            license: None,
            homepage: None,
            authors: None,
        },
        scripts: ScriptInfo {
            install: Some("./install.sh".to_string()),
            uninstall: Some("./uninstall.sh".to_string()),
            build: build.map(|b| b.to_string()),
        },
        dependencies: None,
        ignore: ignore.map(|names| names.into_iter().map(|n| n.to_string()).collect()),
    }
}

fn names(list: &[&str]) -> Vec<String> {
    list.iter().map(|n| n.to_string()).collect()
}

#[test]
fn archive_is_named_after_package_and_version() {
    assert_eq!(Crumb::archive_name("foo", "1.2.3"), "foo@1.2.3.crumb");
    assert_eq!(Crumb::archive_name("", ""), "@.crumb");
}

#[test]
fn ignored_file_stays_out() {
    let info = manifest(None, Some(vec!["README.md"]));
    let listing = names(&["install.sh", "source", "README.md", "crumb.toml", "LICENSE"]);
    let plan = Crumb::bake_package(&info, None, true, listing.clone()).unwrap();
    assert_eq!(
        plan,
        BakePlan {
            archive: "linux-fs@1.0.crumb".to_string(),
            source: true,
            files: names(&["LICENSE", "crumb.toml", "install.sh"]),
        }
    );
}

#[test]
fn missing_payload_directory_is_tolerated() {
    let info = manifest(None, None);
    let listing = names(&["crumb.toml", "linux-fs@1.0.crumb", "install.sh"]);
    let plan = Crumb::bake_package(&info, None, false, listing.clone()).unwrap();
    assert!(!plan.source);
    assert_eq!(plan.files, names(&["crumb.toml", "install.sh"]));
}

#[test]
fn file_named_like_payload_is_packed_without_payload() {
    let info = manifest(None, None);
    let listing = names(&["source", "a"]);
    assert_eq!(Crumb::bake_package(&info, None, false, listing.clone()).unwrap().files, names(&["a", "source"]));
    assert_eq!(Crumb::bake_package(&info, None, true, listing.clone()).unwrap().files, names(&["a"]));
}

#[test]
fn archive_never_holds_itself() {
    let info = manifest(None, Some(vec![]));
    let listing = names(&["linux-fs@1.0.crumb", "linux-fs@0.9.crumb", "linux-fs@1.0.crumb"]);
    let plan = Crumb::bake_package(&info, None, false, listing.clone()).unwrap();
    assert_eq!(plan.files, names(&["linux-fs@0.9.crumb"]));
}

#[test]
fn failed_build_stops_baking() {
    let info = manifest(Some("./build.sh"), None);
    let listing = names(&["crumb.toml"]);
    assert_eq!(Crumb::bake_package(&info, Some(1), true, listing.clone()), Err(Error::BuildScriptFailure));
    assert_eq!(Crumb::bake_package(&info, Some(-1), true, listing.clone()), Err(Error::BuildScriptFailure));
    assert_eq!(Crumb::bake_package(&info, None, true, listing.clone()), Err(Error::BuildScriptFailure));
    assert!(Crumb::bake_package(&info, Some(0), true, listing.clone()).is_ok());
    let plain = manifest(None, None);
    assert!(Crumb::bake_package(&plain, Some(3), true, listing.clone()).is_ok());
}

#[test]
fn files_are_packed_in_the_order_of_their_names() {
    let info = manifest(None, Some(vec!["b"]));
    let listing = names(&["c", "ab", "b", "a", "", "Z", "é", "abc", "a"]);
    let plan = Crumb::bake_package(&info, None, false, listing).unwrap();
    assert_eq!(plan.files, names(&["", "Z", "a", "a", "ab", "abc", "c", "é"]));
}
