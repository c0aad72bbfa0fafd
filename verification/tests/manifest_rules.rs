use arx::manifest::{
    dedupe_packages, merge_options, BuildOptions, DefaultBuildOptions, ManifestError,
    ManifestOptions, Package, PackageSource, ResolvedManifest,
};

fn pkg(name: &str, source: PackageSource, url: Option<&str>) -> Package {
    Package {
        name: name.to_string(),
        source,
        url: url.map(|u| u.to_string()),
        depends: None,
        build_inputs: None,
        build_options: None,
    }
}

#[test]
fn test_manifest_validation_empty_name() {
    let resolved = ResolvedManifest {
        packages: vec![Package {
            name: "".to_string(),
            source: PackageSource::Extra,
            url: None,
            depends: None,
            build_inputs: None,
            build_options: None,
        }],
        options: Default::default(),
    };

    assert!(resolved.validate().is_err());
}

#[test]
fn test_manifest_validation_git_without_url() {
    let resolved = ResolvedManifest {
        packages: vec![Package {
            name: "mypackage".to_string(),
            source: PackageSource::Git,
            url: None,
            depends: None,
            build_inputs: None,
            build_options: None,
        }],
        options: Default::default(),
    };

    assert!(resolved.validate().is_err());
}

#[test]
fn test_manifest_validation_git_with_url() {
    let resolved = ResolvedManifest {
        packages: vec![Package {
            name: "mypackage".to_string(),
            source: PackageSource::Git,
            url: Some("https://github.com/user/repo.git".to_string()),
            depends: None,
            build_inputs: None,
            build_options: None,
        }],
        options: Default::default(),
    };

    assert!(resolved.validate().is_ok());
}

#[test]
fn test_build_option_merging() {
    let package = Package {
        name: "test".to_string(),
        source: PackageSource::Extra,
        url: None,
        depends: None,
        build_inputs: None,
        build_options: Some(BuildOptions {
            ignore_default: false,
            language: Some("rust".to_string()),
            toolchain: None,
            build_flags: Some(vec!["--release".to_string()]),
        }),
    };

    let defaults = DefaultBuildOptions {
        toolchain_c: Some("gcc".to_string()),
        toolchain_rust: Some("cargo".to_string()),
        build_flags_c: None,
        build_flags_rust: Some(vec!["--locked".to_string()]),
    };

    let merged = package.resolve_build_options(Some(&defaults));
    assert_eq!(merged.language, Some("rust".to_string()));
    assert_eq!(merged.toolchain, Some("cargo".to_string()));
}

#[test]
fn validate_reports_whitespace_only_name() {
    let resolved = ResolvedManifest {
        packages: vec![pkg(" \t\u{3000}", PackageSource::Core, None)],
        options: ManifestOptions::default(),
    };
    assert!(matches!(resolved.validate(), Err(ManifestError::EmptyName)));
}

#[test]
fn validate_reports_duplicate_name() {
    let resolved = ResolvedManifest {
        packages: vec![
            pkg("git", PackageSource::Extra, None),
            pkg("kitty", PackageSource::Extra, None),
            pkg("git", PackageSource::Core, None),
        ],
        options: ManifestOptions::default(),
    };
    match resolved.validate() {
        Err(ManifestError::DuplicateName(n)) => assert_eq!(n, "git"),
        other => panic!("unexpected {:?}", other),
    }
}

#[test]
fn validate_reports_first_problem_in_order() {
    let resolved = ResolvedManifest {
        packages: vec![
            pkg("anyrun", PackageSource::Git, None),
            pkg("", PackageSource::Core, None),
        ],
        options: ManifestOptions::default(),
    };
    assert!(matches!(resolved.validate(), Err(ManifestError::GitWithoutUrl)));
}

#[test]
fn validate_accepts_padded_names_that_differ() {
    let resolved = ResolvedManifest {
        packages: vec![
            pkg("git", PackageSource::Extra, None),
            pkg(" git", PackageSource::Extra, None),
        ],
        options: ManifestOptions::default(),
    };
    assert!(resolved.validate().is_ok());
}

#[test]
fn source_labels_round_trip() {
    for text in ["core", "extra", "aur", "git", "chaotic-aur"] {
        let s = PackageSource::from_label(text);
        assert_eq!(s.label(), text);
    }
    assert!(matches!(PackageSource::from_label("aur"), PackageSource::Aur));
    match PackageSource::from_label("Core") {
        PackageSource::Repo(n) => assert_eq!(n, "Core"),
        other => panic!("unexpected {:?}", other),
    }
}

#[test]
fn dedupe_keeps_first_declaration() {
    let out = dedupe_packages(vec![
        pkg("a", PackageSource::Core, None),
        pkg("b", PackageSource::Extra, None),
        pkg("a", PackageSource::Aur, None),
        pkg("c", PackageSource::Git, Some("u")),
        pkg("b", PackageSource::Core, None),
    ]);
    let names: Vec<&str> = out.iter().map(|p| p.name.as_str()).collect();
    assert_eq!(names, vec!["a", "b", "c"]);
    assert!(matches!(out[0].source, PackageSource::Core));
    assert!(matches!(out[1].source, PackageSource::Extra));
}

#[test]
fn merge_options_prefers_override() {
    let base = ManifestOptions {
        remove_undeclared: Some(true),
        default_build_options: Some(DefaultBuildOptions {
            toolchain_c: Some("gcc".to_string()),
            toolchain_rust: None,
            build_flags_c: None,
            build_flags_rust: None,
        }),
    };
    let over = ManifestOptions { remove_undeclared: Some(false), default_build_options: None };
    let m = merge_options(base, over);
    assert_eq!(m.remove_undeclared, Some(false));
    assert_eq!(
        m.default_build_options.unwrap().toolchain_c,
        Some("gcc".to_string())
    );
    let m = merge_options(ManifestOptions::default(), ManifestOptions::default());
    assert_eq!(m.remove_undeclared, None);
    assert!(m.default_build_options.is_none());
}

fn defaults() -> DefaultBuildOptions {
    DefaultBuildOptions {
        toolchain_c: Some("clang".to_string()),
        toolchain_rust: Some("cargo".to_string()),
        build_flags_c: Some(vec!["-march=native".to_string()]),
        build_flags_rust: Some(vec!["--release".to_string()]),
    }
}

fn with_options(b: Option<BuildOptions>) -> Package {
    Package {
        name: "p".to_string(),
        source: PackageSource::Git,
        url: Some("u".to_string()),
        depends: None,
        build_inputs: None,
        build_options: b,
    }
}

#[test]
fn build_options_c_family_ignores_case() {
    let p = with_options(Some(BuildOptions {
        ignore_default: false,
        language: Some("C++".to_string()),
        toolchain: None,
        build_flags: None,
    }));
    let d = defaults();
    let r = p.resolve_build_options(Some(&d));
    assert_eq!(r.toolchain, Some("clang".to_string()));
    assert_eq!(r.build_flags, Some(vec!["-march=native".to_string()]));
    assert!(!r.ignore_default);
}

#[test]
fn build_options_ignore_default_kept_as_given() {
    let p = with_options(Some(BuildOptions {
        ignore_default: true,
        language: Some("rust".to_string()),
        toolchain: None,
        build_flags: None,
    }));
    let d = defaults();
    let r = p.resolve_build_options(Some(&d));
    assert!(r.ignore_default);
    assert_eq!(r.toolchain, None);
    assert_eq!(r.build_flags, None);
}

#[test]
fn build_options_explicit_settings_win() {
    let p = with_options(Some(BuildOptions {
        ignore_default: false,
        language: Some("Rust".to_string()),
        toolchain: Some("rustc".to_string()),
        build_flags: Some(vec![]),
    }));
    let d = defaults();
    let r = p.resolve_build_options(Some(&d));
    assert_eq!(r.toolchain, Some("rustc".to_string()));
    assert_eq!(r.build_flags, Some(vec![]));
}

#[test]
fn build_options_without_language_or_defaults() {
    let d = defaults();
    let r = with_options(None).resolve_build_options(Some(&d));
    assert_eq!(r.language, None);
    assert_eq!(r.toolchain, None);
    assert_eq!(r.build_flags, None);
    let p = with_options(Some(BuildOptions {
        ignore_default: false,
        language: Some("go".to_string()),
        toolchain: None,
        build_flags: None,
    }));
    assert_eq!(p.resolve_build_options(Some(&d)).toolchain, None);
    let p = with_options(Some(BuildOptions {
        ignore_default: false,
        language: Some("rust".to_string()),
        toolchain: None,
        build_flags: None,
    }));
    assert_eq!(p.resolve_build_options(None).toolchain, None);
}

#[test]
fn validity_ignores_package_order() {
    let make = |order: [usize; 3]| {
        let all = [
            pkg("a", PackageSource::Core, None),
            pkg("b", PackageSource::Git, Some("u")),
            pkg("a", PackageSource::Extra, None),
        ];
        let mut v = Vec::new();
        for i in order {
            let p = &all[i];
            v.push(Package {
                name: p.name.clone(),
                source: p.source.clone(),
                url: p.url.clone(),
                depends: None,
                build_inputs: None,
                build_options: None,
            });
        }
        ResolvedManifest { packages: v, options: ManifestOptions::default() }
    };
    for order in [[0, 1, 2], [2, 0, 1], [1, 2, 0]] {
        assert!(make(order).validate().is_err());
    }
    let ok1 = ResolvedManifest {
        packages: vec![pkg("x", PackageSource::Core, None), pkg("y", PackageSource::Git, Some("u"))],
        options: ManifestOptions::default(),
    };
    let ok2 = ResolvedManifest {
        packages: vec![pkg("y", PackageSource::Git, Some("u")), pkg("x", PackageSource::Core, None)],
        options: ManifestOptions::default(),
    };
    assert!(ok1.validate().is_ok() && ok2.validate().is_ok());
}

#[test]
fn dedupe_twice_is_dedupe_once() {
    let once = dedupe_packages(vec![
        pkg("a", PackageSource::Core, None),
        pkg("b", PackageSource::Extra, None),
        pkg("a", PackageSource::Aur, None),
    ]);
    let again = dedupe_packages(once.clone());
    let n1: Vec<&str> = once.iter().map(|p| p.name.as_str()).collect();
    let n2: Vec<&str> = again.iter().map(|p| p.name.as_str()).collect();
    assert_eq!(n1, n2);
    assert_eq!(n2, vec!["a", "b"]);
}
