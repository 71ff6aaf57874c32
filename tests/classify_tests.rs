use dusage::classify::is_system_dir;

#[test]
fn reserved_roots_are_excluded() {
    assert!(is_system_dir("/proc"));
    assert!(is_system_dir("/sys"));
    assert!(is_system_dir("/dev"));
    assert!(is_system_dir("/run"));
}

#[test]
fn equivalent_spellings_are_excluded() {
    assert!(is_system_dir("/proc/"));
    assert!(is_system_dir("//sys"));
    assert!(is_system_dir("/./dev"));
    assert!(is_system_dir("/run/."));
}

#[test]
fn same_names_elsewhere_are_kept() {
    assert!(!is_system_dir("/home/proc"));
    assert!(!is_system_dir("/proc/self"));
    assert!(!is_system_dir("proc"));
    assert!(!is_system_dir("./sys"));
    assert!(!is_system_dir("/srv/run"));
}

#[test]
fn other_paths_are_kept() {
    assert!(!is_system_dir(""));
    assert!(!is_system_dir("/"));
    assert!(!is_system_dir("/tmp"));
    assert!(!is_system_dir("/procs"));
    assert!(!is_system_dir("/pro"));
    assert!(!is_system_dir("/.."));
}
