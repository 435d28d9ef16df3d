use arewefastyet::repo::GitCommand;
use arewefastyet::repo::normalize_working_dir;
use arewefastyet::repo::patch_contents;
use arewefastyet::repo::path_join;
use arewefastyet::repo::Repo;
use arewefastyet::repo::Workspace;
use arewefastyet::rustup::Version;

fn sample_repo() -> Repo {
    Repo {
        name: "helloworld".to_string(),
        sub_directory: String::new(),
        url: "https://github.com/nindalf/helloworld".to_string(),
        touch_file: "src/main.rs".to_string(),
        output: "helloworld".to_string(),
        commit_hash: "0ee163a".to_string(),
        min_version: Version::V1_45,
    }
}

fn workspace() -> Workspace {
    Workspace { root: "/tmp/prof/arewefastyet-dir".to_string() }
}

#[test]
fn paths_follow_the_workspace_layout() {
    let repo = sample_repo();
    let ws = workspace();
    assert_eq!(
        repo.get_base_directory(&ws),
        "/tmp/prof/arewefastyet-dir/helloworld/"
    );
    assert_eq!(
        repo.get_target_directory(&ws),
        "/tmp/prof/arewefastyet-dir/helloworld/target"
    );
    assert_eq!(
        repo.get_debug_output_path(&ws),
        "/tmp/prof/arewefastyet-dir/helloworld/target/debug/helloworld"
    );
    assert_eq!(
        repo.get_release_output_path(&ws),
        "/tmp/prof/arewefastyet-dir/helloworld/target/release/helloworld"
    );
    assert_eq!(
        repo.get_touch_file(&ws),
        "/tmp/prof/arewefastyet-dir/helloworld/src/main.rs"
    );
}

#[test]
fn path_join_respects_separators_and_absolutes() {
    assert_eq!(path_join("/a", "b"), "/a/b");
    assert_eq!(path_join("/a/", "b"), "/a/b");
    assert_eq!(path_join("/a", "/etc"), "/etc");
    assert_eq!(path_join("", "b"), "b");
}

#[test]
fn normalize_appends_the_workspace_directory_once() {
    assert_eq!(normalize_working_dir("/tmp/prof"), "/tmp/prof/arewefastyet-dir");
    assert_eq!(
        normalize_working_dir("/tmp/prof/arewefastyet-dir"),
        "/tmp/prof/arewefastyet-dir"
    );
    assert_eq!(normalize_working_dir("arewefastyet-dir"), "arewefastyet-dir");
}

#[test]
fn git_invocations_carry_the_right_arguments() {
    let repo = sample_repo();
    let ws = workspace();
    let (dir, args) = repo.git_invocation(&ws, GitCommand::CloneRepo);
    assert_eq!(dir, ws.root);
    assert_eq!(args, vec!["clone".to_string(), repo.url.clone()]);
    let (dir, args) = repo.git_invocation(&ws, GitCommand::Checkout);
    assert_eq!(dir, repo.get_base_directory(&ws));
    assert_eq!(args, vec!["checkout".to_string(), "0ee163a".to_string()]);
    let (dir, args) = repo.git_invocation(&ws, GitCommand::Reset);
    assert_eq!(dir, repo.get_base_directory(&ws));
    assert_eq!(args, vec!["reset".to_string(), "--hard".to_string()]);
}

#[test]
fn clone_plan_clones_only_when_absent() {
    let repo = sample_repo();
    assert_eq!(repo.clone_repo_plan(true), vec![GitCommand::Checkout]);
    assert_eq!(
        repo.clone_repo_plan(false),
        vec![GitCommand::CloneRepo, GitCommand::Checkout]
    );
}

#[test]
fn patch_adds_a_logging_call_after_the_first_function_head() {
    let source = "use std::io;\n\nfn main() {\n    println!(\"hi\");\n}\n";
    let patched = patch_contents(source);
    assert_eq!(
        patched,
        "use std::io;\n\nfn main() { log::info!(\"hello\");\n    println!(\"hi\");\n}\n"
    );
    // The mutation grows the text by the inserted call alone.
    assert_eq!(patched.len(), source.len() + 21);

    let lib_source = "mod inner;\npub fn compute() -> u32 {\n    7\n}\n";
    let patched = patch_contents(lib_source);
    assert_eq!(
        patched,
        "mod inner;\npub fn compute() -> u32 { log::info!(\"hello\");\n    7\n}\n"
    );

    // Text without a function head is left unchanged.
    let plain = "just some text\nwith two lines";
    assert_eq!(patch_contents(plain), plain);
}
