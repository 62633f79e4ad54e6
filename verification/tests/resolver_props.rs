use plugin_host::resolver::ResolveEnv;
use plugin_host::resolver::cache_lookup;
use plugin_host::resolver::get_ld_path;
use plugin_host::resolver::get_path_to_xdg_data;
use plugin_host::resolver::join_path;
use plugin_host::resolver::lib_filename;
use plugin_host::resolver::line_path;
use plugin_host::resolver::parent_dir;
use plugin_host::resolver::split_on;

fn env(search: Option<&str>, existing: &[&str], cache: &str) -> ResolveEnv {
    ResolveEnv {
        search_path: search.map(|s| s.to_string()),
        existing: existing.iter().map(|s| s.to_string()).collect(),
        ld_cache: cache.to_string(),
    }
}

#[test]
fn lib_filename_adds_platform_prefix_and_suffix() {
    assert_eq!(lib_filename("foo"), "libfoo.so");
    assert_eq!(lib_filename(""), "lib.so");
}

#[test]
fn split_on_keeps_empty_segments() {
    let parts = split_on("a:b::c", ':');
    assert_eq!(parts, vec!["a", "b", "", "c"]);
    assert_eq!(split_on("", ':'), vec![""]);
    assert_eq!(split_on("abc", ':'), vec!["abc"]);
}

#[test]
fn join_and_parent_are_inverse_on_plain_names() {
    let p = join_path("/opt/plugins", "libfoo.so");
    assert_eq!(p, "/opt/plugins/libfoo.so");
    assert_eq!(parent_dir(&p), "/opt/plugins");
    assert_eq!(parent_dir("libfoo.so"), "");
    assert_eq!(parent_dir("/libfoo.so"), "");
}

#[test]
fn resolve_finds_library_in_search_path() {
    let e = env(Some("/opt/plugins"), &["/opt/plugins/libfoo.so"], "");
    assert_eq!(get_ld_path("foo", &e), Some("/opt/plugins/libfoo.so".to_string()));
}

#[test]
fn resolve_takes_first_existing_search_dir() {
    let e = env(
        Some("/a:/b:/c"),
        &["/b/libfoo.so", "/c/libfoo.so"],
        "",
    );
    assert_eq!(get_ld_path("foo", &e), Some("/b/libfoo.so".to_string()));
}

#[test]
fn resolve_falls_back_to_linker_cache() {
    let e = env(
        None,
        &[],
        "\tlibbar.so (libc6,x86-64) => /usr/lib/libbar.so",
    );
    assert_eq!(get_ld_path("bar", &e), Some("/usr/lib/libbar.so".to_string()));
}

#[test]
fn search_path_wins_over_linker_cache() {
    let e = env(
        Some("/opt/plugins"),
        &["/opt/plugins/libbar.so"],
        "\tlibbar.so (libc6,x86-64) => /usr/lib/libbar.so",
    );
    assert_eq!(get_ld_path("bar", &e), Some("/opt/plugins/libbar.so".to_string()));
}

#[test]
fn resolve_unresolvable_name_is_none() {
    let e = env(Some("/opt/plugins"), &[], "");
    assert_eq!(get_ld_path("nope", &e), None);
    let e2 = env(None, &[], "");
    assert_eq!(get_ld_path("nope", &e2), None);
}

#[test]
fn cache_lookup_takes_first_matching_line() {
    let cache = "\tlibother.so (libc6,x86-64) => /usr/lib/libother.so\n\
                 \tlibbar.so (libc6,x86-64) => /usr/lib/one/libbar.so\n\
                 \tlibbar.so (libc6) => /usr/lib/two/libbar.so";
    assert_eq!(
        cache_lookup(cache, "libbar.so"),
        Some("/usr/lib/one/libbar.so".to_string())
    );
}

#[test]
fn cache_line_requires_exact_filename_then_whitespace() {
    // the filename must be followed by whitespace, so a longer name is no match
    assert_eq!(line_path("\tlibbarx.so (libc6) => /usr/lib/libbarx.so", "libbar.so"), None);
    assert_eq!(
        line_path("   libbar.so (libc6) => /usr/lib/libbar.so", "libbar.so"),
        Some("/usr/lib/libbar.so".to_string())
    );
    // no arrow token, no match
    assert_eq!(line_path("\tlibbar.so (libc6) /usr/lib/libbar.so", "libbar.so"), None);
}

#[test]
fn xdg_data_prefers_earlier_directories() {
    let dirs: Vec<String> = vec![
        "/home/u/.local/share".to_string(),
        "/usr/share".to_string(),
    ];
    let both: Vec<String> = vec![
        "/home/u/.local/share/dock/libx.so".to_string(),
        "/usr/share/dock/libx.so".to_string(),
    ];
    assert_eq!(
        get_path_to_xdg_data("dock/libx.so", &dirs, &both),
        Some("/home/u/.local/share/dock/libx.so".to_string())
    );
    let only_system: Vec<String> = vec!["/usr/share/dock/libx.so".to_string()];
    assert_eq!(
        get_path_to_xdg_data("dock/libx.so", &dirs, &only_system),
        Some("/usr/share/dock/libx.so".to_string())
    );
    let none: Vec<String> = vec![];
    assert_eq!(get_path_to_xdg_data("dock/libx.so", &dirs, &none), None);
}
