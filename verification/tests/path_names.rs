use sulphur::paths::{file_name_of, parent_dir_of};

#[test]
fn file_names_follow_std_reading() {
    assert_eq!(file_name_of("/usr/bin/"), Some("bin".to_string()));
    assert_eq!(file_name_of("tmp/foo.txt"), Some("foo.txt".to_string()));
    assert_eq!(file_name_of("foo.txt/."), Some("foo.txt".to_string()));
    assert_eq!(file_name_of("foo.txt/.//"), Some("foo.txt".to_string()));
    assert_eq!(file_name_of("foo.txt/.."), None);
    assert_eq!(file_name_of(".."), None);
    assert_eq!(file_name_of("."), None);
    assert_eq!(file_name_of("/"), None);
    assert_eq!(file_name_of(""), None);
    assert_eq!(file_name_of("..hidden"), Some("..hidden".to_string()));
}

#[test]
fn parents_split_before_the_last_separator() {
    assert_eq!(parent_dir_of("mods/foo.pk3"), "mods");
    assert_eq!(parent_dir_of("saves/My Doom/slot1.zds"), "saves/My Doom");
    assert_eq!(parent_dir_of("loose"), "");
}
