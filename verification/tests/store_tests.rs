use blender_launcher::codec::load_configuration;
use blender_launcher::codec::save_config;
use blender_launcher::init::default_document;
use blender_launcher::state::ConfigData;
use blender_launcher::state::Instance;
use blender_launcher::state::Settings;

fn instance(name: &str, path: &str) -> Instance {
    Instance { name: name.as_bytes().to_vec(), path: path.as_bytes().to_vec() }
}

#[test]
fn save_empty_list_exact_document() {
    let settings = Settings { launch_on_system_startup: false };
    let instances: Vec<Instance> = Vec::new();
    let doc = save_config(&settings, &instances);
    let expected = "settings:\n  launch_on_system_startup: false\ninstances:\n";
    assert_eq!(doc, expected.as_bytes().to_vec());
}

#[test]
fn save_one_instance_exact_document() {
    let settings = Settings { launch_on_system_startup: false };
    let instances = vec![instance("bin", "/apps/foo/bin")];
    let doc = save_config(&settings, &instances);
    let expected = "settings:\n  launch_on_system_startup: false\ninstances:\n  - name: \"bin\"\n    path: \"/apps/foo/bin\"\n";
    assert_eq!(doc, expected.as_bytes().to_vec());
}

#[test]
fn save_true_flag_exact_document() {
    let settings = Settings { launch_on_system_startup: true };
    let instances: Vec<Instance> = Vec::new();
    let doc = save_config(&settings, &instances);
    let expected = "settings:\n  launch_on_system_startup: true\ninstances:\n";
    assert_eq!(doc, expected.as_bytes().to_vec());
}

#[test]
fn round_trip_empty_list() {
    let settings = Settings { launch_on_system_startup: false };
    let instances: Vec<Instance> = Vec::new();
    let doc = save_config(&settings, &instances);
    let loaded = load_configuration(&doc).unwrap();
    assert_eq!(loaded.settings, settings);
    assert!(loaded.instances.is_empty());
}

#[test]
fn round_trip_two_instances() {
    let settings = Settings { launch_on_system_startup: true };
    let instances = vec![instance("alpha", "/opt/alpha/run"), instance("beta", "/opt/beta/run")];
    let doc = save_config(&settings, &instances);
    let loaded = load_configuration(&doc).unwrap();
    assert_eq!(loaded, ConfigData { settings, instances });
}

#[test]
fn round_trip_special_bytes() {
    let settings = Settings { launch_on_system_startup: false };
    let instances = vec![
        instance("we\"ird\\name", "/tmp/line\nbreak"),
        instance("", "/with space/and:colon"),
    ];
    let doc = save_config(&settings, &instances);
    let loaded = load_configuration(&doc).unwrap();
    assert_eq!(loaded, ConfigData { settings, instances });
}

#[test]
fn save_load_save_is_stable() {
    let settings = Settings { launch_on_system_startup: false };
    let instances = vec![instance("a", "/a"), instance("a", "/a"), instance("b\\", "/b\"q")];
    let doc = save_config(&settings, &instances);
    let loaded = load_configuration(&doc).unwrap();
    let doc2 = save_config(&loaded.settings, &loaded.instances);
    assert_eq!(doc, doc2);
}

#[test]
fn default_document_exact_bytes() {
    let expected = "settings:\n  launch_on_system_startup: false\ninstances:\n";
    assert_eq!(default_document(), expected.as_bytes().to_vec());
}

#[test]
fn load_rejects_garbage() {
    let doc = "not a config at all".as_bytes().to_vec();
    assert_eq!(
        load_configuration(&doc).unwrap_err(),
        blender_launcher::error::LauncherError::ParseError
    );
}

#[test]
fn load_rejects_empty_input() {
    let doc: Vec<u8> = Vec::new();
    assert!(load_configuration(&doc).is_err());
}

#[test]
fn load_rejects_bad_flag_value() {
    let doc = "settings:\n  launch_on_system_startup: maybe\ninstances:\n".as_bytes().to_vec();
    assert!(load_configuration(&doc).is_err());
}

#[test]
fn load_rejects_missing_instances_header() {
    let doc = "settings:\n  launch_on_system_startup: false\n".as_bytes().to_vec();
    assert!(load_configuration(&doc).is_err());
}

#[test]
fn load_rejects_unterminated_quote() {
    let doc = "settings:\n  launch_on_system_startup: false\ninstances:\n  - name: \"bin\n"
        .as_bytes()
        .to_vec();
    assert!(load_configuration(&doc).is_err());
}

#[test]
fn load_rejects_truncated_record() {
    let doc = "settings:\n  launch_on_system_startup: false\ninstances:\n  - name: \"bin\"\n"
        .as_bytes()
        .to_vec();
    assert!(load_configuration(&doc).is_err());
}

#[test]
fn load_rejects_unknown_escape() {
    let doc =
        "settings:\n  launch_on_system_startup: false\ninstances:\n  - name: \"b\\tn\"\n    path: \"/x\"\n"
            .as_bytes()
            .to_vec();
    assert!(load_configuration(&doc).is_err());
}

#[test]
fn load_rejects_trailing_bytes() {
    let doc = "settings:\n  launch_on_system_startup: false\ninstances:\nleftover".as_bytes().to_vec();
    assert!(load_configuration(&doc).is_err());
}

#[test]
fn load_decodes_escapes() {
    let doc =
        "settings:\n  launch_on_system_startup: false\ninstances:\n  - name: \"a\\\"b\\\\c\\nd\"\n    path: \"/p\"\n"
            .as_bytes()
            .to_vec();
    let loaded = load_configuration(&doc).unwrap();
    assert_eq!(loaded.instances.len(), 1);
    assert_eq!(loaded.instances[0].name, "a\"b\\c\nd".as_bytes().to_vec());
    assert_eq!(loaded.instances[0].path, "/p".as_bytes().to_vec());
}
