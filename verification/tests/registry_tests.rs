use blender_launcher::codec::load_configuration;
use blender_launcher::error::LauncherError;
use blender_launcher::init::resolve_config_path;
use blender_launcher::launcher::forwarded_args;
use blender_launcher::launcher::launch_instance;
use blender_launcher::registry::derive_instance_name;
use blender_launcher::registry::filter_existing;
use blender_launcher::state::AppView;
use blender_launcher::state::Application;
use blender_launcher::state::Instance;

fn instance(name: &str, path: &str) -> Instance {
    Instance { name: name.as_bytes().to_vec(), path: path.as_bytes().to_vec() }
}

fn app_with(instances: Vec<Instance>) -> Application {
    let mut app = Application::default();
    app.instances = instances;
    app
}

#[test]
fn default_application_is_empty() {
    let app = Application::default();
    assert!(app.instances.is_empty());
    assert!(!app.settings.launch_on_system_startup);
    assert_eq!(app.current_view, AppView::Instances);
}

#[test]
fn drop_of_executable_registers_and_persists() {
    let mut app = Application::default();
    app.add_instance_from_filepath("/apps/foo/bin".as_bytes().to_vec());
    assert_eq!(app.instances.len(), 1);
    assert_eq!(app.instances[0].name, "bin".as_bytes().to_vec());
    assert_eq!(app.instances[0].path, "/apps/foo/bin".as_bytes().to_vec());
    let doc = app.save_configuration();
    let expected = "settings:\n  launch_on_system_startup: false\ninstances:\n  - name: \"bin\"\n    path: \"/apps/foo/bin\"\n";
    assert_eq!(doc, expected.as_bytes().to_vec());
}

#[test]
fn derived_name_strips_extension() {
    assert_eq!(
        derive_instance_name(&"/apps/blender-4.1/blender.exe".as_bytes().to_vec()),
        "blender".as_bytes().to_vec()
    );
}

#[test]
fn derived_name_keeps_earlier_dots() {
    assert_eq!(
        derive_instance_name(&"/x/archive.tar.gz".as_bytes().to_vec()),
        "archive.tar".as_bytes().to_vec()
    );
}

#[test]
fn derived_name_keeps_leading_dot() {
    assert_eq!(
        derive_instance_name(&"/home/u/.hidden".as_bytes().to_vec()),
        ".hidden".as_bytes().to_vec()
    );
}

#[test]
fn derived_name_without_separator() {
    assert_eq!(derive_instance_name(&"blender".as_bytes().to_vec()), "blender".as_bytes().to_vec());
}

#[test]
fn derived_name_ignores_dot_in_directory() {
    assert_eq!(derive_instance_name(&"/a.b/c".as_bytes().to_vec()), "c".as_bytes().to_vec());
}

#[test]
fn derived_name_of_trailing_separator_is_empty() {
    assert_eq!(derive_instance_name(&"/apps/foo/".as_bytes().to_vec()), Vec::<u8>::new());
}

#[test]
fn remove_drops_exactly_one_record() {
    let mut app = app_with(vec![instance("a", "/a"), instance("b", "/b"), instance("c", "/c")]);
    assert_eq!(app.remove(1), Ok(()));
    let doc = app.save_configuration();
    let loaded = load_configuration(&doc).unwrap();
    assert_eq!(loaded.instances.len(), 2);
    assert_eq!(loaded.instances[0], instance("a", "/a"));
    assert_eq!(loaded.instances[1], instance("c", "/c"));
}

#[test]
fn remove_out_of_range_changes_nothing() {
    let mut app = app_with(vec![instance("a", "/a")]);
    let before = app.save_configuration();
    assert_eq!(app.remove(1), Err(LauncherError::IndexError));
    assert_eq!(app.save_configuration(), before);
}

#[test]
fn rename_keeps_path_and_position() {
    let mut app = app_with(vec![instance("a", "/a"), instance("b", "/b")]);
    assert_eq!(app.rename(1, "X".as_bytes().to_vec()), Ok(()));
    let doc = app.save_configuration();
    let loaded = load_configuration(&doc).unwrap();
    assert_eq!(loaded.instances.len(), 2);
    assert_eq!(loaded.instances[0], instance("a", "/a"));
    assert_eq!(loaded.instances[1], instance("X", "/b"));
}

#[test]
fn rename_out_of_range_changes_nothing() {
    let mut app = app_with(vec![instance("a", "/a")]);
    let before = app.save_configuration();
    assert_eq!(app.rename(3, "X".as_bytes().to_vec()), Err(LauncherError::IndexError));
    assert_eq!(app.save_configuration(), before);
}

#[test]
fn reset_to_defaults_persists_default_document() {
    let mut app = app_with(vec![instance("a", "/a"), instance("b", "/b")]);
    app.settings.launch_on_system_startup = true;
    app.reset_to_defaults();
    let expected = "settings:\n  launch_on_system_startup: false\ninstances:\n";
    assert_eq!(app.save_configuration(), expected.as_bytes().to_vec());
    assert_eq!(app.save_configuration(), blender_launcher::init::default_document());
}

#[test]
fn filter_existing_keeps_masked_records_in_order() {
    let all = vec![instance("a", "/a"), instance("b", "/b"), instance("c", "/c")];
    let kept = filter_existing(all, &vec![true, false, true]);
    assert_eq!(kept.len(), 2);
    assert_eq!(kept[0], instance("a", "/a"));
    assert_eq!(kept[1], instance("c", "/c"));
}

#[test]
fn filter_existing_can_drop_everything() {
    let all = vec![instance("a", "/a")];
    let kept = filter_existing(all, &vec![false]);
    assert!(kept.is_empty());
}

#[test]
fn forwarded_args_skip_program_name() {
    let argv = vec![
        "launcher".as_bytes().to_vec(),
        "--factory-startup".as_bytes().to_vec(),
        "scene.blend".as_bytes().to_vec(),
    ];
    let args = forwarded_args(argv);
    assert_eq!(args, vec!["--factory-startup".as_bytes().to_vec(), "scene.blend".as_bytes().to_vec()]);
}

#[test]
fn forwarded_args_of_empty_invocation() {
    assert!(forwarded_args(Vec::new()).is_empty());
}

#[test]
fn launch_command_uses_instance_path() {
    let argv = vec!["launcher".as_bytes().to_vec(), "-b".as_bytes().to_vec()];
    let cmd = launch_instance(instance("bin", "/apps/foo/bin"), argv);
    assert_eq!(cmd.program, "/apps/foo/bin".as_bytes().to_vec());
    assert_eq!(cmd.args, vec!["-b".as_bytes().to_vec()]);
}

#[test]
fn resolve_config_path_keeps_known_location() {
    let loc = resolve_config_path(
        Some("/etc/launcher.yaml".as_bytes().to_vec()),
        &"/home/u".as_bytes().to_vec(),
    );
    assert_eq!(loc.config_path, "/etc/launcher.yaml".as_bytes().to_vec());
    assert!(!loc.must_store);
}

#[test]
fn resolve_config_path_defaults_under_home() {
    let loc = resolve_config_path(None, &"/home/u".as_bytes().to_vec());
    assert_eq!(loc.config_path, "/home/u/blender_launcher_config.yaml".as_bytes().to_vec());
    assert!(loc.must_store);
}
