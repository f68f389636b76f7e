use scanmem::appstate::ProcessEntry;
use scanmem::proclist::{pid_of_entry, process_name, sort_by_pid};

#[test]
fn proc_entries_named_by_a_number_are_processes() {
    assert_eq!(pid_of_entry("1234"), Some(1234));
    assert_eq!(pid_of_entry("self"), None);
    assert_eq!(pid_of_entry(""), None);
    assert_eq!(pid_of_entry("4294967296"), None);
    assert_eq!(pid_of_entry("4294967295"), Some(u32::MAX));
}

#[test]
fn a_process_is_named_after_its_first_argument() {
    assert_eq!(process_name(Some("/usr/bin/game\0--fullscreen\0"), Some("game-main\n")), "game");
    assert_eq!(process_name(Some("relative/tool"), None), "tool");
    assert_eq!(process_name(Some("plain"), None), "plain");
}

#[test]
fn without_a_first_argument_the_comm_name_is_used() {
    assert_eq!(process_name(Some(""), Some("kworker/0:1\n")), "kworker/0:1");
    assert_eq!(process_name(Some("\0"), Some(" init ")), "init");
    assert_eq!(process_name(None, Some("bash\n")), "bash");
    assert_eq!(process_name(None, None), "?");
}

#[test]
fn a_first_argument_ending_in_dot_dot_is_kept_whole() {
    assert_eq!(process_name(Some("/opt/.."), None), "/opt/..");
}

#[test]
fn processes_are_sorted_by_pid() {
    let list = vec![
        ProcessEntry { pid: 30, name: "c".to_owned() },
        ProcessEntry { pid: 1, name: "a".to_owned() },
        ProcessEntry { pid: 20, name: "b".to_owned() },
    ];
    let sorted = sort_by_pid(list);
    let pids: Vec<u32> = sorted.iter().map(|p| p.pid).collect();
    assert_eq!(pids, vec![1, 20, 30]);
    assert_eq!(sorted[1].name, "b");
    assert!(sort_by_pid(Vec::new()).is_empty());
}

#[test]
fn the_name_is_the_last_path_component_that_names_something() {
    assert_eq!(process_name(Some("/usr/bin/game/"), None), "game");
    assert_eq!(process_name(Some("/usr/bin/game/."), None), "game");
    assert_eq!(process_name(Some("//opt//tool"), None), "tool");
    assert_eq!(process_name(Some("/"), None), "/");
    assert_eq!(process_name(Some("./.."), None), "./..");
}
