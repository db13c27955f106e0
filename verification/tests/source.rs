use fedora_export::source::{valid_fedora_directory, valid_source_directory, Directories, Layout};

#[test]
fn staged_tree_is_valid() {
    let mut directories = Directories::new();
    let found = Layout { root: true, first: true, second: true };
    assert_eq!(valid_source_directory("/staged", found, &mut directories), Ok(()));
    assert_eq!(directories.objects_directory(), &Some("/staged/objects".to_string()));
    assert_eq!(directories.datastreams_directory(), &Some("/staged/datastreams".to_string()));
}

#[test]
fn missing_directories_are_named() {
    let mut directories = Directories::new();
    let found = Layout { root: false, first: true, second: true };
    assert_eq!(
        valid_source_directory("/staged", found, &mut directories),
        Err("The directory '/staged' does not exist".to_string())
    );
    let found = Layout { root: true, first: false, second: true };
    assert_eq!(
        valid_source_directory("/staged", found, &mut directories),
        Err("The directory '/staged/objects' does not exist".to_string())
    );
    assert_eq!(directories.objects_directory(), &None);
    let found = Layout { root: true, first: true, second: false };
    assert_eq!(
        valid_source_directory("/staged", found, &mut directories),
        Err("The directory '/staged/datastreams' does not exist".to_string())
    );
    assert_eq!(directories.objects_directory(), &Some("/staged/objects".to_string()));
    assert_eq!(directories.datastreams_directory(), &None);
}

#[test]
fn roots_are_set_once() {
    let mut directories = Directories::new();
    directories.set_objects_directory("/a/objects");
    directories.set_objects_directory("/b/objects");
    directories.set_datastreams_directory("/a/datastreams");
    directories.set_datastreams_directory("/b/datastreams");
    assert_eq!(directories.objects_directory(), &Some("/a/objects".to_string()));
    assert_eq!(directories.datastreams_directory(), &Some("/a/datastreams".to_string()));
}

#[test]
fn fedora_directory() {
    assert_eq!(valid_fedora_directory("/fedora", Layout { root: true, first: true, second: true }), Ok(()));
    assert_eq!(
        valid_fedora_directory("/fedora", Layout { root: true, first: false, second: false }),
        Err("The directory '/fedora/data/objectStore' does not exist".to_string())
    );
    assert_eq!(
        valid_fedora_directory("/fedora", Layout { root: true, first: true, second: false }),
        Err("The directory '/fedora/data/datastreamStore' does not exist".to_string())
    );
    assert_eq!(
        valid_fedora_directory("/fedora", Layout { root: false, first: false, second: false }),
        Err("The directory '/fedora' does not exist".to_string())
    );
}
