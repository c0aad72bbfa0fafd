use arx::loader::{LoadStep, ManifestLoader};
use arx::manifest::{
    DefaultBuildOptions, Manifest, ManifestError, ManifestOptions, Package, PackageSource,
    ResolvedManifest,
};
use arx::plan::{source_label, InstallPlan};

fn pkg(name: &str, source: PackageSource) -> Package {
    Package {
        name: name.to_string(),
        source,
        url: None,
        depends: None,
        build_inputs: None,
        build_options: None,
    }
}

fn manifest(includes: &[&str], pkgs: Vec<Package>, remove: Option<bool>) -> Manifest {
    Manifest {
        includes: if includes.is_empty() {
            None
        } else {
            Some(includes.iter().map(|s| s.to_string()).collect())
        },
        packages: pkgs,
        options: Some(ManifestOptions { remove_undeclared: remove, default_build_options: None }),
    }
}

fn expect_read(step: Result<LoadStep, ManifestError>) -> String {
    match step {
        Ok(LoadStep::Read(p)) => p,
        Ok(LoadStep::Done(_)) => panic!("unexpected done"),
        Err(e) => panic!("unexpected error {:?}", e),
    }
}

fn expect_done(step: Result<LoadStep, ManifestError>) -> ResolvedManifest {
    match step {
        Ok(LoadStep::Done(r)) => r,
        Ok(LoadStep::Read(p)) => panic!("unexpected read {}", p),
        Err(e) => panic!("unexpected error {:?}", e),
    }
}

#[test]
fn loader_without_includes_dedupes_own_packages() {
    let mut l = ManifestLoader::new();
    let m = manifest(
        &[],
        vec![pkg("a", PackageSource::Core), pkg("a", PackageSource::Extra)],
        Some(true),
    );
    let r = expect_done(l.on_loaded("/m/root.jsonc".to_string(), m));
    assert_eq!(r.packages.len(), 1);
    assert!(matches!(r.packages[0].source, PackageSource::Core));
    assert_eq!(r.options.remove_undeclared, Some(true));
}

#[test]
fn loader_resolves_includes_depth_first() {
    let mut l = ManifestLoader::new();
    let root = manifest(
        &["base.jsonc", "/abs/extra.jsonc"],
        vec![pkg("own", PackageSource::Extra), pkg("b", PackageSource::Aur)],
        None,
    );
    let p = expect_read(l.on_loaded("/m/root.jsonc".to_string(), root));
    assert_eq!(p, "/m/base.jsonc");
    let base = manifest(
        &["sub/deep.jsonc"],
        vec![pkg("b", PackageSource::Core)],
        Some(true),
    );
    let p = expect_read(l.on_loaded("/m/base.jsonc".to_string(), base));
    assert_eq!(p, "/m/sub/deep.jsonc");
    let deep = manifest(&[], vec![pkg("d", PackageSource::Core)], None);
    let p = expect_read(l.on_loaded("/m/sub/deep.jsonc".to_string(), deep));
    assert_eq!(p, "/abs/extra.jsonc");
    let extra = manifest(&[], vec![pkg("e", PackageSource::Extra)], Some(false));
    let r = expect_done(l.on_loaded("/abs/extra.jsonc".to_string(), extra));
    let names: Vec<&str> = r.packages.iter().map(|p| p.name.as_str()).collect();
    assert_eq!(names, vec!["d", "b", "e", "own"]);
    assert!(matches!(r.packages[1].source, PackageSource::Core));
    assert_eq!(r.options.remove_undeclared, Some(false));
}

#[test]
fn loader_refuses_circular_include() {
    let mut l = ManifestLoader::new();
    let root = manifest(&["a.jsonc"], vec![], None);
    let p = expect_read(l.on_loaded("/m/root.jsonc".to_string(), root));
    assert_eq!(p, "/m/a.jsonc");
    let a = manifest(&["root.jsonc"], vec![], None);
    let p = expect_read(l.on_loaded("/m/a.jsonc".to_string(), a));
    assert_eq!(p, "/m/root.jsonc");
    let again = manifest(&["a.jsonc"], vec![], None);
    match l.on_loaded("/m/root.jsonc".to_string(), again) {
        Err(ManifestError::CircularInclude(p)) => assert_eq!(p, "/m/root.jsonc"),
        _ => panic!("expected a circular include"),
    }
}

fn resolved(remove: Option<bool>) -> ResolvedManifest {
    let mut git = pkg("anyrun", PackageSource::Git);
    git.url = Some("https://github.com/anyrun/anyrun.git".to_string());
    git.build_options = Some(arx::manifest::BuildOptions {
        ignore_default: false,
        language: Some("rust".to_string()),
        toolchain: None,
        build_flags: None,
    });
    ResolvedManifest {
        packages: vec![pkg("firefox", PackageSource::Extra), git, pkg("git", PackageSource::Core)],
        options: ManifestOptions {
            remove_undeclared: remove,
            default_build_options: Some(DefaultBuildOptions {
                toolchain_c: None,
                toolchain_rust: Some("cargo".to_string()),
                build_flags_c: None,
                build_flags_rust: Some(vec!["--release".to_string()]),
            }),
        },
    }
}

#[test]
fn plan_marks_installed_and_missing() {
    let installed = vec!["git".to_string(), "nano".to_string(), "grep".to_string()];
    let plan = InstallPlan::from_manifest(&resolved(Some(true)), &installed);
    assert_eq!(plan.packages.len(), 3);
    assert!(!plan.packages[0].installed);
    assert!(plan.packages[2].installed);
    assert_eq!(plan.packages[1].build_options.toolchain, Some("cargo".to_string()));
    let missing: Vec<&str> = plan.missing_packages.iter().map(|p| p.name.as_str()).collect();
    assert_eq!(missing, vec!["firefox", "anyrun"]);
    assert_eq!(plan.undeclared_installed, vec!["nano".to_string(), "grep".to_string()]);
    assert!(plan.prune_undeclared);
}

#[test]
fn plan_without_pruning_lists_no_undeclared() {
    let installed = vec!["nano".to_string()];
    let plan = InstallPlan::from_manifest(&resolved(None), &installed);
    assert!(!plan.prune_undeclared);
    assert!(plan.undeclared_installed.is_empty());
    let plan = InstallPlan::from_manifest(&resolved(Some(false)), &installed);
    assert!(!plan.prune_undeclared);
    assert!(plan.undeclared_installed.is_empty());
}

#[test]
fn summary_lists_candidates_and_prune_set() {
    let installed: Vec<String> = (0..23).map(|i| format!("pkg{}", i)).chain(["git".to_string()]).collect();
    let plan = InstallPlan::from_manifest(&resolved(Some(true)), &installed);
    let lines = plan.summary_lines();
    assert_eq!(lines[0], "Arx dry-run package plan summary:");
    assert_eq!(lines[1], "  manifest packages: 3");
    assert_eq!(lines[2], "  already installed: 1");
    assert_eq!(lines[3], "  packages that would be installed: 2");
    assert_eq!(lines[4], "  install candidates:");
    assert_eq!(lines[5], "    - firefox (extra)");
    assert_eq!(lines[6], "    - anyrun (git)");
    assert_eq!(lines[7], "  prune undeclared packages: enabled");
    assert_eq!(lines[8], "  undeclared installed packages: 23");
    assert_eq!(lines[9], "    - pkg0");
    assert_eq!(lines[28], "    - pkg19");
    assert_eq!(lines[29], "    ...and 3 more");
    assert_eq!(lines[30], "  dry run: no changes will be applied");
    assert_eq!(lines.len(), 31);
}

#[test]
fn summary_without_pruning() {
    let installed = vec!["firefox".to_string(), "anyrun".to_string(), "git".to_string()];
    let plan = InstallPlan::from_manifest(&resolved(None), &installed);
    let lines = plan.summary_lines();
    assert_eq!(
        lines,
        vec![
            "Arx dry-run package plan summary:".to_string(),
            "  manifest packages: 3".to_string(),
            "  already installed: 3".to_string(),
            "  packages that would be installed: 0".to_string(),
            "  prune undeclared packages: disabled".to_string(),
            "  dry run: no changes will be applied".to_string(),
        ]
    );
}

#[test]
fn source_label_names_each_source() {
    assert_eq!(source_label(&PackageSource::Core), "core");
    assert_eq!(source_label(&PackageSource::Extra), "extra");
    assert_eq!(source_label(&PackageSource::Aur), "aur");
    assert_eq!(source_label(&PackageSource::Git), "git");
    assert_eq!(source_label(&PackageSource::Repo("chaotic".to_string())), "chaotic");
}

#[test]
fn loaded_manifest_never_has_duplicate_names() {
    let mut l = ManifestLoader::new();
    let root = manifest(&["a.jsonc"], vec![pkg("x", PackageSource::Extra), pkg("y", PackageSource::Core)], None);
    let p = expect_read(l.on_loaded("/m/root.jsonc".to_string(), root));
    let a = manifest(&[], vec![pkg("y", PackageSource::Aur), pkg("x", PackageSource::Aur)], None);
    assert_eq!(p, "/m/a.jsonc");
    let r = expect_done(l.on_loaded("/m/a.jsonc".to_string(), a));
    let names: Vec<&str> = r.packages.iter().map(|p| p.name.as_str()).collect();
    assert_eq!(names, vec!["y", "x"]);
    assert!(r.packages.iter().all(|p| matches!(p.source, PackageSource::Aur)));
    assert!(r.validate().is_ok());
}

#[test]
fn check_path_refuses_loaded_manifest_before_reading() {
    let mut l = ManifestLoader::new();
    assert!(l.check_path(&"/m/root.jsonc".to_string()).is_ok());
    let root = manifest(&["a.jsonc"], vec![], None);
    let p = expect_read(l.on_loaded("/m/root.jsonc".to_string(), root));
    assert!(l.check_path(&p).is_ok());
    match l.check_path(&"/m/root.jsonc".to_string()) {
        Err(ManifestError::CircularInclude(p)) => assert_eq!(p, "/m/root.jsonc"),
        _ => panic!("expected a circular include"),
    }
}

#[test]
fn prune_list_has_no_repeats() {
    let installed = vec!["nano".to_string(), "git".to_string(), "vim".to_string()];
    let plan = InstallPlan::from_manifest(&resolved(Some(true)), &installed);
    assert_eq!(plan.undeclared_installed, vec!["nano".to_string(), "vim".to_string()]);
}

#[test]
fn relative_includes_follow_the_manifest_directory() {
    let mut l = ManifestLoader::new();
    let root = manifest(&["../up/x.jsonc", "y.jsonc"], vec![], None);
    let p = expect_read(l.on_loaded("/a/b/root.jsonc".to_string(), root));
    assert_eq!(p, "/a/b/../up/x.jsonc");
    let x = manifest(&[], vec![], None);
    let p = expect_read(l.on_loaded("/a/up/x.jsonc".to_string(), x));
    assert_eq!(p, "/a/b/y.jsonc");
}
