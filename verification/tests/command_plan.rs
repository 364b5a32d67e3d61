use wslgit::plan::{direct_mode_requested, make_plan};

fn strings(parts: &[&str]) -> Vec<String> {
    parts.iter().map(|s| String::from(*s)).collect()
}

#[test]
fn bash_env_alone_stays_interactive() {
    assert!(!direct_mode_requested(true, &None));
}

#[test]
fn wslenv_without_bash_env_segment_stays_interactive() {
    assert!(!direct_mode_requested(true, &Some(String::from("OTHER"))));
}

#[test]
fn lowercase_bash_env_segment_selects_direct() {
    assert!(direct_mode_requested(true, &Some(String::from("bash_env"))));
}

#[test]
fn bash_env_segment_among_others_selects_direct() {
    assert!(direct_mode_requested(
        true,
        &Some(String::from("FOO:BASH_ENV:BAR"))
    ));
}

#[test]
fn unset_bash_env_stays_interactive() {
    assert!(!direct_mode_requested(false, &Some(String::from("BASH_ENV"))));
}

#[test]
fn segment_with_longer_name_stays_interactive() {
    assert!(!direct_mode_requested(true, &Some(String::from("BASH_ENVX"))));
}

#[test]
fn interactive_plan_wraps_line_in_bash() {
    let plan = make_plan(&strings(&["log", "--oneline"]), true);
    assert_eq!(plan.cmd_args, strings(&["bash", "-ic", "git log --oneline"]));
    assert_eq!(plan.git_cmd, "git log --oneline");
    assert!(!plan.stdin_null);
    assert!(plan.translate_output);
}

#[test]
fn version_probe_nulls_stdin_and_translates() {
    let plan = make_plan(&strings(&["--version"]), true);
    assert_eq!(plan.git_cmd, "git --version");
    assert!(plan.stdin_null);
    assert!(plan.translate_output);
}

#[test]
fn show_subcommand_passes_output_through() {
    let plan = make_plan(&strings(&["show", "HEAD:binary.bin"]), true);
    assert_eq!(plan.git_cmd, "git show HEAD:binary.bin");
    assert!(!plan.translate_output);
    assert!(!plan.stdin_null);
}

#[test]
fn interactive_add_translates_path_unquoted() {
    let plan = make_plan(&strings(&["add", "C:\\work\\file.txt"]), true);
    assert_eq!(plan.git_cmd, "git add /mnt/c/work/file.txt");
    assert_eq!(
        plan.cmd_args,
        strings(&["bash", "-ic", "git add /mnt/c/work/file.txt"])
    );
}

#[test]
fn direct_plan_hands_git_args_to_launcher() {
    let plan = make_plan(&strings(&["status"]), false);
    assert_eq!(plan.cmd_args, strings(&["git", "status"]));
    assert!(plan.translate_output);
    assert!(!plan.stdin_null);
}

#[test]
fn translated_argument_with_space_is_quoted_interactively() {
    let plan = make_plan(&strings(&["add", "C:\\my dir\\f.txt"]), true);
    assert_eq!(plan.git_cmd, "git add \"/mnt/c/my dir/f.txt\"");
}

#[test]
fn direct_mode_never_quotes() {
    let plan = make_plan(&strings(&["add", "C:\\my dir\\f.txt"]), false);
    assert_eq!(plan.cmd_args, strings(&["git", "add", "/mnt/c/my dir/f.txt"]));
}

#[test]
fn no_arguments_gives_bare_git_and_passthrough() {
    let plan = make_plan(&Vec::new(), true);
    assert_eq!(plan.git_cmd, "git");
    assert_eq!(plan.cmd_args, strings(&["bash", "-ic", "git"]));
    assert!(!plan.translate_output);
    assert!(!plan.stdin_null);
}
