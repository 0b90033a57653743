use unit_parser::{resolve, resolve_value, SpecifierContext};

fn stub_context(root: bool) -> SpecifierContext {
    SpecifierContext {
        root,
        arch: "x86_64".to_string(),
        hostname: "node.example.com".to_string(),
        kernel_release: "6.1.0".to_string(),
        boot_id: "boot-1234".to_string(),
        machine_id: "machine-5678".to_string(),
        os_id: "testos".to_string(),
        os_version_id: "42".to_string(),
        os_image_version: "img-7".to_string(),
        os_build_id: "build-9".to_string(),
        os_image_id: "imgid".to_string(),
        os_variant_id: "server".to_string(),
        uid: 1000,
        gid: 1001,
        user_name: "alice".to_string(),
        group_name: "staff".to_string(),
        cache_home: Some("/home/alice/.cache".to_string()),
        config_home: None,
        state_home: Some("/home/alice/.local/state".to_string()),
        runtime_dir: None,
        credentials_dir: None,
        home: Some("/home/alice".to_string()),
        shell: Some("/bin/sh".to_string()),
        tmpdir: None,
        temp: None,
        tmp: Some("/scratch".to_string()),
    }
}

#[test]
fn identity_specifiers() {
    let c = stub_context(false);
    let f = "foo@bar.service";
    let p = "/etc/units/foo@.service";
    assert_eq!(resolve('a', &c, f, p).unwrap(), "x86_64");
    assert_eq!(resolve('H', &c, f, p).unwrap(), "node.example.com");
    assert_eq!(resolve('l', &c, f, p).unwrap(), "node");
    assert_eq!(resolve('v', &c, f, p).unwrap(), "6.1.0");
    assert_eq!(resolve('b', &c, f, p).unwrap(), "boot-1234");
    assert_eq!(resolve('m', &c, f, p).unwrap(), "machine-5678");
    assert_eq!(resolve('o', &c, f, p).unwrap(), "testos");
    assert_eq!(resolve('w', &c, f, p).unwrap(), "42");
    assert_eq!(resolve('f', &c, f, p).unwrap(), "foo@bar.service");
    assert_eq!(resolve('y', &c, f, p).unwrap(), "/etc/units/foo@.service");
    assert_eq!(resolve('Y', &c, f, p).unwrap(), "/etc/units");
    assert_eq!(resolve('%', &c, f, p).unwrap(), "%");
    assert_eq!(resolve('z', &c, f, p).unwrap(), "");
}

#[test]
fn name_specifiers() {
    let c = stub_context(false);
    let p = "/etc/units/foo@.service";
    assert_eq!(resolve('n', &c, "foo@bar.service", p).unwrap(), "foo@bar.service");
    assert_eq!(resolve('N', &c, "foo@bar.service", p).unwrap(), "foo@bar");
    assert_eq!(resolve('i', &c, "foo@bar.service", p).unwrap(), "bar");
    assert_eq!(resolve('I', &c, "foo@bar.service", p).unwrap(), "bar");
    assert_eq!(resolve('p', &c, "foo@bar.service", p).unwrap(), "foo");
    assert_eq!(resolve('P', &c, "foo@bar.service", p).unwrap(), "foo");
    assert_eq!(resolve('j', &c, "a-b-c.service", p).unwrap(), "c");
    assert_eq!(resolve('J', &c, "a-b-c.service", p).unwrap(), "c");
    assert_eq!(resolve('i', &c, "plain.service", p).unwrap(), "");
    assert!(resolve('i', &c, "a@b@c.service", p).is_err());
}

#[test]
fn directory_specifiers_follow_root_mode() {
    let root = stub_context(true);
    let user = stub_context(false);
    let f = "foo.service";
    let p = "/etc/units/foo.service";
    assert_eq!(resolve('C', &root, f, p).unwrap(), "/var/cache");
    assert_eq!(resolve('C', &user, f, p).unwrap(), "/home/alice/.cache");
    assert_eq!(resolve('E', &root, f, p).unwrap(), "/etc");
    assert_eq!(resolve('E', &user, f, p).unwrap(), "~/.config");
    assert_eq!(resolve('L', &root, f, p).unwrap(), "/var/log");
    assert_eq!(resolve('L', &user, f, p).unwrap(), "/home/alice/.local/state/log");
    assert_eq!(resolve('t', &root, f, p).unwrap(), "/run");
    assert_eq!(resolve('t', &user, f, p).unwrap(), "/run/user/1000");
    assert_eq!(resolve('T', &user, f, p).unwrap(), "/scratch");
    assert_eq!(resolve('V', &user, f, p).unwrap(), "/scratch");
    assert_eq!(resolve('U', &user, f, p).unwrap(), "1000");
    assert_eq!(resolve('G', &user, f, p).unwrap(), "1001");
    assert_eq!(resolve('G', &root, f, p).unwrap(), "0");
    assert_eq!(resolve('u', &user, f, p).unwrap(), "alice");
    assert_eq!(resolve('g', &user, f, p).unwrap(), "staff");
    assert_eq!(resolve('g', &root, f, p).unwrap(), "root");
    assert_eq!(resolve('h', &root, f, p).unwrap(), "/root");
    assert_eq!(resolve('h', &user, f, p).unwrap(), "/home/alice");
    assert_eq!(resolve('s', &user, f, p).unwrap(), "/bin/sh");
}

#[test]
fn value_substitution_is_single_pass() {
    let c = stub_context(false);
    let f = "foo@bar.service";
    let p = "/etc/units/foo@.service";
    assert_eq!(
        resolve_value("instance %i on %H", &c, f, p),
        "instance bar on node.example.com"
    );
    // a doubled percent collapses to one literal percent
    assert_eq!(resolve_value("100%% done", &c, f, p), "100% done");
    // an unrecognized specifier resolves to the empty string
    assert_eq!(resolve_value("a%zb", &c, f, p), "ab");
    // a lone trailing percent stays
    assert_eq!(resolve_value("50%", &c, f, p), "50%");
}

#[test]
fn resolution_of_a_resolved_value_is_a_no_op() {
    let c = stub_context(false);
    let f = "foo@bar.service";
    let p = "/etc/units/foo@.service";
    let once = resolve_value("instance %i on %H", &c, f, p);
    assert!(!once.contains('%'));
    let twice = resolve_value(once.as_str(), &c, f, p);
    assert_eq!(once, twice);
}
