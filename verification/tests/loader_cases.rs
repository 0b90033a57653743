use unit_parser::{
    candidate_dirs, load_dir_from, load_named_from, value_of, DropinDir, Error, SearchRoot,
    SpecifierContext, SubdirParser, UnitFile,
};

fn stub_context() -> SpecifierContext {
    SpecifierContext {
        root: true,
        arch: "x86_64".to_string(),
        hostname: "host".to_string(),
        kernel_release: "6.1.0".to_string(),
        boot_id: "b".to_string(),
        machine_id: "m".to_string(),
        os_id: "testos".to_string(),
        os_version_id: "42".to_string(),
        os_image_version: "".to_string(),
        os_build_id: "".to_string(),
        os_image_id: "".to_string(),
        os_variant_id: "".to_string(),
        uid: 0,
        gid: 0,
        user_name: "root".to_string(),
        group_name: "root".to_string(),
        cache_home: None,
        config_home: None,
        state_home: None,
        runtime_dir: None,
        credentials_dir: None,
        home: None,
        shell: None,
        tmpdir: None,
        temp: None,
        tmp: None,
    }
}

fn file(name: &str, content: &str) -> UnitFile {
    UnitFile {
        name: name.to_string(),
        content: content.to_string(),
    }
}

#[test]
fn dropin_precedence_is_lexicographic() {
    let root = SearchRoot {
        path: "/etc/units".to_string(),
        files: vec![file("foo.service", "[Sec]\nField1=1\nField2=2\n")],
        dirs: vec![DropinDir {
            name: "foo.service.d".to_string(),
            // listed out of order on purpose: the loader sorts by filename
            files: vec![
                file("20-b.conf", "[Sec]\nField2=30\n"),
                file("10-a.conf", "[Sec]\nField2=20\n"),
            ],
        }],
    };
    let ctx = stub_context();
    let unit = load_named_from(&vec![root], "foo", "service", &ctx, false).unwrap();
    assert_eq!(
        value_of(&unit.sections, "Sec", "Field2").unwrap(),
        "30".to_string()
    );
    assert_eq!(
        value_of(&unit.sections, "Sec", "Field1").unwrap(),
        "1".to_string()
    );
    assert!(unit.skipped.is_empty());
}

#[test]
fn multi_root_search_finds_later_roots() {
    let empty_root = SearchRoot {
        path: "/first".to_string(),
        files: vec![],
        dirs: vec![],
    };
    let second = SearchRoot {
        path: "/second".to_string(),
        files: vec![file("foo.service", "[S]\nWhere=second\n")],
        dirs: vec![],
    };
    let ctx = stub_context();
    let unit = load_named_from(&vec![empty_root, second], "foo", "service", &ctx, false).unwrap();
    assert_eq!(
        value_of(&unit.sections, "S", "Where").unwrap(),
        "second".to_string()
    );
}

#[test]
fn first_root_wins_over_later_ones() {
    let first = SearchRoot {
        path: "/first".to_string(),
        files: vec![file("foo.service", "[S]\nWhere=first\n")],
        dirs: vec![],
    };
    let second = SearchRoot {
        path: "/second".to_string(),
        files: vec![file("foo.service", "[S]\nWhere=second\n")],
        dirs: vec![],
    };
    let ctx = stub_context();
    let unit = load_named_from(&vec![first, second], "foo", "service", &ctx, false).unwrap();
    assert_eq!(
        value_of(&unit.sections, "S", "Where").unwrap(),
        "first".to_string()
    );
}

#[test]
fn missing_unit_and_template_rejection() {
    let root = SearchRoot {
        path: "/units".to_string(),
        files: vec![file("tmpl@.service", "[S]\nA=%i\n")],
        dirs: vec![],
    };
    let ctx = stub_context();
    assert_eq!(
        load_named_from(&vec![], "absent", "service", &ctx, false).unwrap_err(),
        Error::MissingUnitError {
            name: "absent".to_string()
        }
    );
    assert_eq!(
        load_named_from(&vec![root], "tmpl@", "service", &ctx, false).unwrap_err(),
        Error::LoadTemplateError {
            name: "tmpl@.service".to_string()
        }
    );
}

#[test]
fn instance_loads_through_its_template_file() {
    let root = SearchRoot {
        path: "/units".to_string(),
        files: vec![file("tmpl@.service", "[S]\nInstance=%i\n")],
        dirs: vec![],
    };
    let ctx = stub_context();
    let unit = load_named_from(&vec![root], "tmpl@blue", "service", &ctx, false).unwrap();
    // %i is resolved from the requested instance name
    assert_eq!(
        value_of(&unit.sections, "S", "Instance").unwrap(),
        "blue".to_string()
    );
}

#[test]
fn unparsable_dropin_is_skipped_with_its_path() {
    let root = SearchRoot {
        path: "/units".to_string(),
        files: vec![file("foo.service", "[S]\nA=1\n")],
        dirs: vec![DropinDir {
            name: "service.d".to_string(),
            files: vec![file("bad.conf", "not a unit file"), file("ok.conf", "[S]\nA=2\n")],
        }],
    };
    let ctx = stub_context();
    let unit = load_named_from(&vec![root], "foo", "service", &ctx, false).unwrap();
    assert_eq!(value_of(&unit.sections, "S", "A").unwrap(), "2".to_string());
    assert_eq!(unit.skipped, vec!["/units/service.d/bad.conf".to_string()]);
}

#[test]
fn candidate_order_and_root_order_shape_the_patch_sequence() {
    // candidates apply in their listed order (most specific name first),
    // and within one candidate the roots apply in caller order; under
    // last-wins lookup the later patch shadows the earlier one
    let first = SearchRoot {
        path: "/one".to_string(),
        files: vec![file("foo.service", "[S]\nX=base\n")],
        dirs: vec![DropinDir {
            name: "foo.service.d".to_string(),
            files: vec![file("a.conf", "[S]\nX=specific\n")],
        }],
    };
    let second = SearchRoot {
        path: "/two".to_string(),
        files: vec![],
        dirs: vec![DropinDir {
            name: "service.d".to_string(),
            files: vec![file("a.conf", "[S]\nX=generic\n")],
        }],
    };
    let ctx = stub_context();
    let unit = load_named_from(&vec![first, second], "foo", "service", &ctx, false).unwrap();
    // the `<suffix>.d` candidate comes last in the documented order, so
    // its patch is the one a last-wins scalar lookup sees
    assert_eq!(
        value_of(&unit.sections, "S", "X").unwrap(),
        "generic".to_string()
    );
}

#[test]
fn candidate_directories_most_specific_first() {
    let cands = candidate_dirs("a-b-c.service", "service");
    assert_eq!(
        cands,
        vec![
            "a-b-c.service.d".to_string(),
            "a-b-.service.d".to_string(),
            "a-.service.d".to_string(),
            "service.d".to_string(),
        ]
    );
}

#[test]
fn bulk_load_walks_classifies_and_materializes() {
    let first = SearchRoot {
        path: "/one".to_string(),
        files: vec![
            file("plain.service", "[S]\nKind=regular\n"),
            file("tmpl@.service", "[S]\nName=%i\n"),
            file("tmpl@red.service", ""),
        ],
        dirs: vec![],
    };
    let second = SearchRoot {
        path: "/two".to_string(),
        // the same unit key again: the first root's copy must win
        files: vec![
            file("plain.service", "[S]\nKind=shadowed\n"),
            file("tmpl@green.service", ""),
        ],
        dirs: vec![],
    };
    let ctx = stub_context();
    let (units, skipped) = load_dir_from(&vec![first, second], "service", &ctx, false);
    assert!(skipped.is_empty());
    let ids: Vec<&str> = units.iter().map(|u| u.id.as_str()).collect();
    assert_eq!(ids, vec!["plain.service", "tmpl@red.service", "tmpl@green.service"]);
    assert_eq!(
        value_of(&units[0].unit.sections, "S", "Kind").unwrap(),
        "regular".to_string()
    );
    assert_eq!(
        value_of(&units[1].unit.sections, "S", "Name").unwrap(),
        "red".to_string()
    );
    assert_eq!(
        value_of(&units[2].unit.sections, "S", "Name").unwrap(),
        "green".to_string()
    );
}

#[test]
fn bulk_load_applies_dropins_per_unit() {
    let root = SearchRoot {
        path: "/one".to_string(),
        files: vec![file("web.service", "[S]\nPort=80\n")],
        dirs: vec![DropinDir {
            name: "web.service.d".to_string(),
            files: vec![file("override.conf", "[S]\nPort=8080\n")],
        }],
    };
    let ctx = stub_context();
    let (units, _) = load_dir_from(&vec![root], "service", &ctx, false);
    assert_eq!(units.len(), 1);
    assert_eq!(
        value_of(&units[0].unit.sections, "S", "Port").unwrap(),
        "8080".to_string()
    );
}

#[test]
fn subdir_parser_enumerates_per_path_names() {
    let sp = SubdirParser {
        paths: vec!["/etc/units".to_string(), "/run/units".to_string()],
        filename: "foo.service".to_string(),
    };
    assert_eq!(
        sp.dir_names("wants"),
        vec![
            "/etc/units/foo.service.wants".to_string(),
            "/run/units/foo.service.wants".to_string(),
        ]
    );
}
