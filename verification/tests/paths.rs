use voidframe::paths::{lock_pid, DataRoot};

#[test]
fn data_root_children_are_fixed_names_under_the_root() {
    let root = DataRoot(r"C:\ProgramData\VOIDFRAME".into());
    assert_eq!(root.path(), r"C:\ProgramData\VOIDFRAME");
    assert_eq!(root.projects_dir(), r"C:\ProgramData\VOIDFRAME\projects");
    assert_eq!(root.runs_dir(), r"C:\ProgramData\VOIDFRAME\runs");
    assert_eq!(root.run_dir("r1"), r"C:\ProgramData\VOIDFRAME\runs\r1");
    assert_eq!(root.state_dir(), r"C:\ProgramData\VOIDFRAME\state");
    assert_eq!(root.logs_dir(), r"C:\ProgramData\VOIDFRAME\logs");
    assert_eq!(root.config_path(), r"C:\ProgramData\VOIDFRAME\config.json");
    assert_eq!(DataRoot(r"D:\v\".into()).runs_dir(), r"D:\v\runs");
}

#[test]
fn acquire_instance_lock_recovers_from_an_unreadable_or_corrupt_lock_file() {
    assert_eq!(lock_pid("1234"), Some(1234));
    assert_eq!(lock_pid("  42\r\n"), Some(42));
    assert_eq!(lock_pid("+7"), Some(7));
    assert_eq!(lock_pid(""), None);
    assert_eq!(lock_pid("not a pid"), None);
    assert_eq!(lock_pid("-1"), None);
    assert_eq!(lock_pid("4294967296"), None);
    assert_eq!(lock_pid("4294967295"), Some(4_294_967_295));
}
