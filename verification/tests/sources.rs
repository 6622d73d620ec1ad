use tracey::globs::matches_any;
use tracey::languages::is_supported_extension;
use tracey::refs::{RefVerb, Reqs};
use tracey::sources::{
    BlobRead, GitRefSources, MemorySources, PathSources, WalkListing, WalkSources,
};

#[test]
fn test_memory_sources() {
    let result = Reqs::extract(
        MemorySources::new()
            .add("foo.rs", "// r[impl test.req]")
            .add("bar.rs", "// r[verify other.req]"),
    )
    .unwrap();

    assert_eq!(result.reqs.len(), 2);
    assert!(result.warnings.is_empty());
}

#[test]
fn test_memory_sources_swift() {
    let result = Reqs::extract(
        MemorySources::new()
            .add("Foo.swift", "// r[impl swift.req.one]")
            .add("Bar.swift", "/* r[verify swift.req.two] */"),
    )
    .unwrap();

    assert_eq!(result.reqs.len(), 2);
    assert_eq!(result.reqs.references[0].req_id.text(), "swift.req.one");
    assert_eq!(result.reqs.references[1].req_id.text(), "swift.req.two");
    assert!(result.warnings.is_empty());
}

#[test]
fn test_memory_sources_typescript() {
    let result = Reqs::extract(
        MemorySources::new()
            .add("app.ts", "// r[impl ts.req.one]")
            .add("component.tsx", "// r[verify ts.req.two]")
            .add("utils.js", "/* r[impl js.req] */"),
    )
    .unwrap();

    assert_eq!(result.reqs.len(), 3);
    assert_eq!(result.reqs.references[0].req_id.text(), "ts.req.one");
    assert_eq!(result.reqs.references[1].req_id.text(), "ts.req.two");
    assert_eq!(result.reqs.references[2].req_id.text(), "js.req");
}

#[test]
fn test_memory_sources_jsdoc_comments() {
    // JSDoc-style comments (/** */) work too.
    let result = Reqs::extract(MemorySources::new().add(
        "api.ts",
        r#"
                /**
                 * Handles user authentication.
                 * r[impl auth.login]
                 */
                function login() {}
            "#,
    ))
    .unwrap();
    let reqs = result.reqs;

    assert_eq!(reqs.len(), 1);
    assert_eq!(reqs.references[0].req_id.text(), "auth.login");
}

#[test]
fn test_memory_sources_php() {
    let result = Reqs::extract(
        MemorySources::new()
            .add("Foo.php", "<?php\n// r[impl php.req.one]")
            .add("Bar.php", "<?php\n/* r[verify php.req.two] */")
            .add("Baz.php", "<?php\n/** r[verify php.req.three] */"),
    )
    .unwrap();

    assert_eq!(result.reqs.len(), 3);
    assert_eq!(result.reqs.references[0].req_id.text(), "php.req.one");
    assert_eq!(result.reqs.references[1].req_id.text(), "php.req.two");
    assert_eq!(result.reqs.references[2].req_id.text(), "php.req.three");
    assert!(result.warnings.is_empty());
}

#[test]
fn test_memory_sources_python() {
    let result = Reqs::extract(
        MemorySources::new()
            .add("test_auth.py", "# r[verify auth.login]")
            .add(
                "test_session.py",
                "# r[verify session.create]\n# r[verify session.expire]",
            ),
    )
    .unwrap();

    assert_eq!(result.reqs.len(), 3);
    assert_eq!(result.reqs.references[0].req_id.text(), "auth.login");
    assert_eq!(result.reqs.references[0].verb, RefVerb::Verify);
    assert_eq!(result.reqs.references[1].req_id.text(), "session.create");
    assert_eq!(result.reqs.references[2].req_id.text(), "session.expire");
    assert!(result.warnings.is_empty());
}

#[test]
fn test_memory_sources_yaml() {
    let result = Reqs::extract(
        MemorySources::new()
            .add("config.yml", "# r[impl yaml.req.one]")
            .add(
                "pipeline.yaml",
                "# r[impl yaml.req.two]\nsteps:\n  - name: build # r[verify yaml.req.three]",
            ),
    )
    .unwrap();

    assert_eq!(result.reqs.len(), 3);
    assert_eq!(result.reqs.references[0].req_id.text(), "yaml.req.one");
    assert_eq!(result.reqs.references[1].req_id.text(), "yaml.req.two");
    assert_eq!(result.reqs.references[2].req_id.text(), "yaml.req.three");
    assert!(result.warnings.is_empty());
}

#[test]
fn test_memory_sources_yaml_all_verbs() {
    let content = "# r[impl feat.one]\n# r[verify feat.two]\n# r[depends feat.three]\n# r[related feat.four]\n# r[define feat.five]\n";
    let result = Reqs::extract(MemorySources::new().add("spec.yml", content)).unwrap();

    assert_eq!(result.reqs.len(), 5);
    assert_eq!(result.reqs.references[0].verb, RefVerb::Impl);
    assert_eq!(result.reqs.references[1].verb, RefVerb::Verify);
    assert_eq!(result.reqs.references[2].verb, RefVerb::Depends);
    assert_eq!(result.reqs.references[3].verb, RefVerb::Related);
    assert_eq!(result.reqs.references[4].verb, RefVerb::Define);
}

#[test]
fn test_memory_sources_json5() {
    let result = Reqs::extract(
        MemorySources::new()
            .add("config.json5", "// r[impl json5.req.one]")
            .add("settings.json5", "// r[verify json5.req.two]")
            .add("other.json5", "/* r[impl json5.req.three] */"),
    )
    .unwrap();

    assert_eq!(result.reqs.len(), 3);
    assert_eq!(result.reqs.references[0].req_id.text(), "json5.req.one");
    assert_eq!(result.reqs.references[1].req_id.text(), "json5.req.two");
    assert_eq!(result.reqs.references[2].req_id.text(), "json5.req.three");
    assert!(result.warnings.is_empty());
}

#[test]
fn test_memory_sources_json5_reverse() {
    let result = Reqs::extract(
        MemorySources::new()
            .add("config.json5", "// r[impl json5.one]")
            .add(
                "settings.json5",
                "{ key: 'value' /* r[verify json5.two] */ }",
            ),
    )
    .unwrap();

    assert_eq!(result.reqs.len(), 2);
    assert_eq!(result.reqs.references[0].req_id.text(), "json5.one");
    assert_eq!(result.reqs.references[0].verb, RefVerb::Impl);
    assert_eq!(result.reqs.references[1].req_id.text(), "json5.two");
    assert_eq!(result.reqs.references[1].verb, RefVerb::Verify);
    assert!(result.warnings.is_empty());
}

#[test]
fn test_memory_sources_mixed_languages() {
    let result = Reqs::extract(
        MemorySources::new()
            .add("lib.rs", "// r[impl core.rust]")
            .add("App.swift", "// r[impl core.swift]")
            .add("index.ts", "// r[impl core.typescript]"),
    )
    .unwrap();

    assert_eq!(result.reqs.len(), 3);
}

#[test]
fn test_memory_sources_nix() {
    let result = Reqs::extract(
        MemorySources::new()
            .add("default.nix", "# r[impl nix.req.one]")
            .add("flake.nix", "/* r[verify nix.req.two] */\n{ }"),
    )
    .unwrap();

    assert_eq!(result.reqs.len(), 2);
    assert_eq!(result.reqs.references[0].req_id.text(), "nix.req.one");
    assert_eq!(result.reqs.references[1].req_id.text(), "nix.req.two");
    assert!(result.warnings.is_empty());
}

#[test]
fn test_memory_sources_yaml_reverse() {
    let result = Reqs::extract(
        MemorySources::new()
            .add("config.yml", "# r[impl yaml.one]")
            .add(
                "pipeline.yaml",
                "steps:\n  - name: build # r[verify yaml.two]\n",
            ),
    )
    .unwrap();

    assert_eq!(result.reqs.len(), 2);
    assert_eq!(result.reqs.references[0].req_id.text(), "yaml.one");
    assert_eq!(result.reqs.references[0].verb, RefVerb::Impl);
    assert_eq!(result.reqs.references[1].req_id.text(), "yaml.two");
    assert_eq!(result.reqs.references[1].verb, RefVerb::Verify);
    assert!(result.warnings.is_empty());
}

#[test]
fn test_memory_sources_lean() {
    let result = Reqs::extract(
        MemorySources::new()
            .add("Basic.lean", "-- r[impl lean.req.one]")
            .add("Proof.lean", "/- r[verify lean.req.two] -/\ntheorem t : True := trivial"),
    )
    .unwrap();

    assert_eq!(result.reqs.len(), 2);
    assert_eq!(result.reqs.references[0].req_id.text(), "lean.req.one");
    assert_eq!(result.reqs.references[1].req_id.text(), "lean.req.two");
    assert!(result.warnings.is_empty());
}

#[test]
fn test_supported_extensions() {
    assert!(is_supported_extension("rs"));
    assert!(is_supported_extension("swift"));
    assert!(is_supported_extension("ts"));
    assert!(is_supported_extension("tsx"));
    assert!(is_supported_extension("js"));
    assert!(is_supported_extension("go"));
    assert!(is_supported_extension("php"));
    assert!(is_supported_extension("nix"));
    assert!(is_supported_extension("lean"));
    assert!(is_supported_extension("svelte"));

    assert!(is_supported_extension("yml"));
    assert!(is_supported_extension("yaml"));
    assert!(is_supported_extension("json5"));

    assert!(!is_supported_extension("md"));
    assert!(!is_supported_extension("txt"));
    assert!(!is_supported_extension("json"));
}

/// Whether a path matches a single pattern.
fn matches(path: &str, pattern: &str) -> bool {
    matches_any(&vec![pattern.to_string()], path)
}

#[test]
fn test_matches_glob_star_star_ext() {
    assert!(matches("foo.rs", "**/*.rs"));
    assert!(matches("src/foo.rs", "**/*.rs"));
    assert!(matches("src/bar/baz.rs", "**/*.rs"));
    assert!(!matches("foo.swift", "**/*.rs"));

    assert!(matches("App.swift", "**/*.swift"));
    assert!(matches("Sources/App.swift", "**/*.swift"));
    assert!(!matches("App.rs", "**/*.swift"));

    assert!(matches("index.ts", "**/*.ts"));
    assert!(matches("src/components/Button.tsx", "**/*.tsx"));
}

#[test]
fn test_matches_glob_prefix_star_star() {
    assert!(matches("target/debug/foo", "target/**"));
    assert!(matches("target/release/bar", "target/**"));
    assert!(!matches("src/main.rs", "target/**"));
}

#[test]
fn test_matches_glob_prefix_star_star_ext() {
    assert!(matches("src/main.rs", "src/**/*.rs"));
    assert!(matches("src/foo/bar.rs", "src/**/*.rs"));
    assert!(!matches("tests/main.rs", "src/**/*.rs"));
    assert!(!matches("src/main.swift", "src/**/*.rs"));

    assert!(matches("Sources/App.swift", "Sources/**/*.swift"));
    assert!(!matches("Tests/AppTests.swift", "Sources/**/*.swift"));
}

#[test]
fn test_matches_glob_exact() {
    assert!(matches("foo.rs", "foo.rs"));
    assert!(!matches("bar.rs", "foo.rs"));
}

#[test]
fn test_matches_glob_dashboard_tsx() {
    assert!(matches(
        "crates/tracey/dashboard/src/main.tsx",
        "crates/tracey/dashboard/src/**/*.tsx"
    ));
    assert!(matches(
        "crates/tracey/dashboard/src/router.ts",
        "crates/tracey/dashboard/src/**/*.ts"
    ));
    assert!(matches(
        "crates/tracey/dashboard/src/views/spec.tsx",
        "crates/tracey/dashboard/src/**/*.tsx"
    ));
}

#[test]
fn test_walk_typescript_files() {
    let walker = WalkSources::new("/project")
        .include_all(vec![
            "crates/**/*.rs".to_string(),
            "crates/tracey/dashboard/src/**/*.ts".to_string(),
            "crates/tracey/dashboard/src/**/*.tsx".to_string(),
        ])
        .exclude(vec!["target/**".to_string()]);
    assert_eq!(walker.steps().len(), 1);

    let listing = WalkListing {
        exists: true,
        files: vec![
            (
                "/project/crates/tracey/dashboard/src/main.tsx".to_string(),
                Some("// r[impl dashboard.main]".to_string()),
            ),
            (
                "/project/crates/tracey/dashboard/src/router.ts".to_string(),
                Some("// r[impl dashboard.router]".to_string()),
            ),
            (
                "/project/target/debug/build.rs".to_string(),
                Some("// r[impl target.ignored]".to_string()),
            ),
        ],
    };
    let result = walker.extract_listed(&vec![listing]);
    let ts_refs: Vec<_> = result
        .reqs
        .references
        .iter()
        .filter(|r| r.file.contains("dashboard/src"))
        .collect();
    assert!(!ts_refs.is_empty());
    assert_eq!(ts_refs.len(), 2);
    assert_eq!(result.reqs.len(), 2);
}

/// The files of a repository at its first tag.
fn blob(path: &str) -> BlobRead {
    match path {
        "lib.rs" => BlobRead::Content("// r[impl git.req.one]".to_string()),
        "sub/mod.rs" => BlobRead::Content("// r[impl git.req.two]".to_string()),
        _ => BlobRead::NotUtf8,
    }
}

#[test]
fn files_at_a_ref_are_selected_and_read() {
    let sources = GitRefSources::new("/repo", "v1").include_all(vec!["**/*.rs".to_string()]);
    let paths = sources.select("lib.rs\nnotes.txt\nsub/mod.rs\n");
    assert_eq!(paths, vec!["lib.rs".to_string(), "sub/mod.rs".to_string()]);
    let blobs: Vec<BlobRead> = paths.iter().map(|p| blob(p)).collect();
    let result = sources.extract_read("abc123", &paths, &blobs);
    let ids: Vec<String> = result.reqs.references.iter().map(|r| r.req_id.text()).collect();
    assert_eq!(ids, vec!["git.req.one".to_string(), "git.req.two".to_string()]);
    assert!(result.warnings.is_empty());
}

#[test]
fn unreadable_blobs_give_warnings() {
    let sources = GitRefSources::new("/repo", "v1");
    let paths = vec!["a.rs".to_string(), "b.rs".to_string()];
    let blobs = vec![BlobRead::Failed("fatal: bad object\n".to_string()), BlobRead::NotUtf8];
    let result = sources.extract_read("abc", &paths, &blobs);
    assert_eq!(
        result.warnings,
        vec![
            "Warning: failed to read a.rs at abc: fatal: bad object".to_string(),
            "Warning: b.rs at abc is not valid UTF-8".to_string(),
        ]
    );
}

#[test]
fn read_paths_are_extracted_in_order() {
    let sources = PathSources::new(vec!["a.rs".to_string(), "b.py".to_string()]);
    assert_eq!(sources.paths().len(), 2);
    let read = sources.with_contents(vec![
        Ok("// r[impl one]".to_string()),
        Ok("# r[verify two]".to_string()),
    ]);
    let result = Reqs::extract(read).unwrap();
    assert_eq!(result.reqs.references[0].req_id.text(), "one");
    assert_eq!(result.reqs.references[1].req_id.text(), "two");
}

#[test]
fn first_unreadable_path_is_an_error() {
    let read = PathSources::new(vec!["a.rs".to_string(), "b.rs".to_string()])
        .with_contents(vec![Err("no such file".to_string()), Err("other".to_string())]);
    let err = Reqs::extract(read).unwrap_err();
    assert_eq!(err.message, "no such file");
}

#[test]
fn missing_cross_workspace_directory_gives_a_warning() {
    let walker = WalkSources::new("/project").include_all(vec!["../lib/src/**/*.rs".to_string()]);
    let steps = walker.steps();
    assert_eq!(steps.len(), 1);
    assert_eq!(steps[0].include_patterns, vec!["**/*.rs".to_string()]);
    let result = walker.extract_listed(&vec![WalkListing { exists: false, files: vec![] }]);
    assert_eq!(result.reqs.len(), 0);
    assert_eq!(result.warnings.len(), 1);
}
