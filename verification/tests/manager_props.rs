use plugin_host::handles::StyleHandle;
use plugin_host::handles::TeardownStep;
use plugin_host::handles::VisualHandle;
use plugin_host::handles::style_from_raw;
use plugin_host::handles::teardown_order;
use plugin_host::handles::visual_from_raw;
use plugin_host::manager::LoadError;
use plugin_host::manager::LoadOutcome;
use plugin_host::manager::PluginManager;
use plugin_host::resolver::ResolveEnv;

fn env(search: Option<&str>, existing: &[&str], cache: &str) -> ResolveEnv {
    ResolveEnv {
        search_path: search.map(|s| s.to_string()),
        existing: existing.iter().map(|s| s.to_string()).collect(),
        ld_cache: cache.to_string(),
    }
}

fn io_ok() -> LoadOutcome {
    LoadOutcome {
        open_ok: true,
        construct_found: true,
        instance: 7,
        visual_raw: 11,
        style_raw: 12,
        watch_ok: true,
    }
}

#[test]
fn load_then_unload_scenario() {
    let e = env(Some("/opt/plugins"), &["/opt/plugins/libfoo.so"], "");
    let mut mgr = PluginManager::new(true);
    let r = mgr.load_plugin(&"foo".to_string(), &e, &io_ok());
    assert!(r.is_ok());
    assert_eq!(mgr.paths(), vec!["/opt/plugins/libfoo.so".to_string()]);
    let unwatched = mgr.unload_plugin(&"/opt/plugins/libfoo.so".to_string());
    assert_eq!(unwatched, Some("/opt/plugins".to_string()));
    assert_eq!(mgr.paths(), Vec::<String>::new());
}

#[test]
fn loading_same_path_twice_is_already_loaded() {
    let e = env(Some("/opt/plugins"), &["/opt/plugins/libfoo.so"], "");
    let mut mgr = PluginManager::new(true);
    assert!(mgr.load_plugin(&"foo".to_string(), &e, &io_ok()).is_ok());
    let second = mgr.load_plugin(&"foo".to_string(), &e, &io_ok());
    assert_eq!(second, Err(LoadError::AlreadyLoaded));
    assert_eq!(mgr.paths().len(), 1);
}

#[test]
fn loaded_path_maps_back_to_name() {
    let e = env(Some("/opt/plugins"), &["/opt/plugins/libfoo.so"], "");
    let mut mgr = PluginManager::new(true);
    assert!(mgr.load_plugin(&"foo".to_string(), &e, &io_ok()).is_ok());
    let path = "/opt/plugins/libfoo.so".to_string();
    assert_eq!(mgr.paths().iter().filter(|p| **p == path).count(), 1);
    assert_eq!(mgr.library_path_to_name(&path), Some("foo".to_string()));
    assert_eq!(mgr.library_path_to_name(&"/elsewhere/libfoo.so".to_string()), None);
}

#[test]
fn reload_after_unload_succeeds() {
    let e = env(Some("/opt/plugins"), &["/opt/plugins/libfoo.so"], "");
    let mut mgr = PluginManager::new(true);
    assert!(mgr.load_plugin(&"foo".to_string(), &e, &io_ok()).is_ok());
    mgr.unload_plugin(&"/opt/plugins/libfoo.so".to_string());
    assert_eq!(mgr.paths(), Vec::<String>::new());
    assert!(mgr.load_plugin(&"foo".to_string(), &e, &io_ok()).is_ok());
    assert_eq!(mgr.paths(), vec!["/opt/plugins/libfoo.so".to_string()]);
}

#[test]
fn unload_all_empties_records_and_watches() {
    let e = env(
        Some("/opt/plugins"),
        &["/opt/plugins/libfoo.so", "/opt/plugins/libbar.so"],
        "",
    );
    let mut mgr = PluginManager::new(true);
    assert!(mgr.load_plugin(&"foo".to_string(), &e, &io_ok()).is_ok());
    assert!(mgr.load_plugin(&"bar".to_string(), &e, &io_ok()).is_ok());
    assert_eq!(mgr.paths().len(), 2);
    let dirs = mgr.unload_all();
    assert_eq!(dirs, vec!["/opt/plugins".to_string(), "/opt/plugins".to_string()]);
    assert_eq!(mgr.paths(), Vec::<String>::new());
    let dirs_again = mgr.unload_all();
    assert_eq!(dirs_again, Vec::<String>::new());
    // the manager is still usable afterwards
    assert!(mgr.load_plugin(&"foo".to_string(), &e, &io_ok()).is_ok());
}

#[test]
fn null_handles_are_substituted_by_defaults() {
    let e = env(Some("/opt/plugins"), &["/opt/plugins/libfoo.so"], "");
    let mut mgr = PluginManager::new(true);
    let io = LoadOutcome { visual_raw: 0, style_raw: 0, ..io_ok() };
    let r = mgr.load_plugin(&"foo".to_string(), &e, &io).unwrap();
    assert_eq!(r.0, VisualHandle::DefaultEmpty);
    assert_eq!(r.1, StyleHandle::DefaultNeutral);
    let stored = mgr.library_path_to_applet(&"/opt/plugins/libfoo.so".to_string());
    assert_eq!(stored, Some(VisualHandle::DefaultEmpty));
}

#[test]
fn produced_handles_are_kept_when_not_null() {
    let e = env(Some("/opt/plugins"), &["/opt/plugins/libfoo.so"], "");
    let mut mgr = PluginManager::new(true);
    let r = mgr.load_plugin(&"foo".to_string(), &e, &io_ok()).unwrap();
    assert_eq!(r.0, VisualHandle::Plugin(11));
    assert_eq!(r.1, StyleHandle::Plugin(12));
    let stored = mgr.library_path_to_applet(&"/opt/plugins/libfoo.so".to_string());
    assert_eq!(stored, Some(VisualHandle::Plugin(11)));
}

#[test]
fn unresolvable_name_fails_and_changes_nothing() {
    let e = env(None, &[], "");
    let mut mgr = PluginManager::new(true);
    let r = mgr.load_plugin(&"ghost".to_string(), &e, &io_ok());
    assert_eq!(r, Err(LoadError::NotFound));
    assert_eq!(mgr.paths(), Vec::<String>::new());
}

#[test]
fn failed_open_and_construct_leave_manager_unchanged() {
    let e = env(Some("/opt/plugins"), &["/opt/plugins/libfoo.so"], "");
    let mut mgr = PluginManager::new(true);
    let no_open = LoadOutcome { open_ok: false, ..io_ok() };
    assert_eq!(mgr.load_plugin(&"foo".to_string(), &e, &no_open), Err(LoadError::OpenFailed));
    assert_eq!(mgr.paths(), Vec::<String>::new());
    let no_ctor = LoadOutcome { construct_found: false, ..io_ok() };
    assert_eq!(
        mgr.load_plugin(&"foo".to_string(), &e, &no_ctor),
        Err(LoadError::ConstructFailed)
    );
    assert_eq!(mgr.paths(), Vec::<String>::new());
}

#[test]
fn inactive_watcher_means_no_watch_bookkeeping() {
    let e = env(Some("/opt/plugins"), &["/opt/plugins/libfoo.so"], "");
    let mut mgr = PluginManager::new(false);
    assert!(mgr.load_plugin(&"foo".to_string(), &e, &io_ok()).is_ok());
    let unwatched = mgr.unload_plugin(&"/opt/plugins/libfoo.so".to_string());
    assert_eq!(unwatched, None);
}

#[test]
fn failed_watch_registration_is_not_fatal() {
    let e = env(Some("/opt/plugins"), &["/opt/plugins/libfoo.so"], "");
    let mut mgr = PluginManager::new(true);
    let io = LoadOutcome { watch_ok: false, ..io_ok() };
    assert!(mgr.load_plugin(&"foo".to_string(), &e, &io).is_ok());
    assert_eq!(mgr.paths().len(), 1);
    let unwatched = mgr.unload_plugin(&"/opt/plugins/libfoo.so".to_string());
    assert_eq!(unwatched, None);
}

#[test]
fn unloading_unknown_path_is_a_silent_no_op() {
    let e = env(Some("/opt/plugins"), &["/opt/plugins/libfoo.so"], "");
    let mut mgr = PluginManager::new(true);
    assert!(mgr.load_plugin(&"foo".to_string(), &e, &io_ok()).is_ok());
    assert_eq!(mgr.unload_plugin(&"/nowhere/libz.so".to_string()), None);
    assert_eq!(mgr.paths().len(), 1);
}

#[test]
fn substitution_helpers_never_yield_null() {
    assert_eq!(visual_from_raw(0), VisualHandle::DefaultEmpty);
    assert_eq!(visual_from_raw(5), VisualHandle::Plugin(5));
    assert_eq!(style_from_raw(0), StyleHandle::DefaultNeutral);
    assert_eq!(style_from_raw(5), StyleHandle::Plugin(5));
}

#[test]
fn teardown_order_unmaps_library_last() {
    let steps = teardown_order();
    assert_eq!(
        steps,
        vec![
            TeardownStep::UnloadHook,
            TeardownStep::DropVisual,
            TeardownStep::DropStyle,
            TeardownStep::DropProxy,
            TeardownStep::CloseLibrary,
        ]
    );
}
