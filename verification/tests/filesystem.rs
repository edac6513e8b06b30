use std::path::{Path, PathBuf};
use zippity::builder::{
    AddEntryError, Builder, BuilderFileType, BuilderPermissions, Metadata, Permissions,
};
use zippity::filesystem_entry::{
    clean_root_name, make_entry_name, sanitize_entry_name_slashes, DirectoryWalk, EntryType,
    FilesystemEntry, ReaderSource,
};
use zippity::tokio_file::TokioFileEntry;

#[test]
fn test_sanitize_entry_name_slashes() {
    for (entry_name, is_directory, expected) in [
        ("file.txt", false, "file.txt"),
        ("file.txt/", false, "file.txt"),
        ("directory", true, "directory/"),
        ("directory/", true, "directory/"),
        ("directory///", true, "directory/"),
        ("a/b.txt", false, "a/b.txt"),
        ("/a///b.txt", false, "/a///b.txt"),
        ("", true, "/"),
        ("///", false, ""),
    ] {
        assert_eq!(
            sanitize_entry_name_slashes(entry_name.to_string(), is_directory),
            expected
        );
    }
}

#[test]
fn test_make_entry_name() {
    for (path, root, root_name, is_directory, expected) in [
        ("/root/subdir/file.txt", "/root", None, false, "subdir/file.txt"),
        ("/root/subdir", "/root", None, true, "subdir/"),
        ("/root/subdir/file.txt", "/root", Some("archive/"), false, "archive/subdir/file.txt"),
        ("/root/subdir", "/root", Some("archive/"), true, "archive/subdir/"),
        ("/root/subdir", "/root/", Some("archive/"), true, "archive/subdir/"),
    ] {
        let relative = Path::new(path).strip_prefix(Path::new(root)).unwrap();
        let relative = relative.to_string_lossy();
        assert_eq!(make_entry_name(&relative, root_name, is_directory), expected);
    }
}

#[test]
fn root_names_are_cleaned() {
    assert_eq!(clean_root_name("archive"), "archive/");
    assert_eq!(clean_root_name("/archive//"), "archive/");
    assert_eq!(clean_root_name("a/b"), "a/b/");
    assert_eq!(clean_root_name("//"), "/");
}

fn metadata(is_dir: bool, is_symlink: bool) -> Metadata {
    Metadata {
        is_dir,
        is_symlink,
        len: 5,
        permissions: Permissions { readonly: false, mode: Some(0o100600) },
        modified: None,
    }
}

#[test]
fn file_entry_with_metadata() {
    let file_path = PathBuf::from("file.txt");
    let metadata = metadata(false, false);
    assert!(!FilesystemEntry::needs_link_target(&metadata));
    let fs_entry = FilesystemEntry::with_metadata(file_path.clone(), &metadata, Vec::new());

    match fs_entry.entry_type {
        EntryType::File { size } => {
            assert!(size == 5);
        }
        _ => panic!("Expected file entry type"),
    }
    assert_eq!(fs_entry.path, file_path);
    assert_eq!(fs_entry.size(), 5);
    assert!(!fs_entry.is_directory());
    assert!(matches!(fs_entry.reader_source(), ReaderSource::File(path) if *path == file_path));
}

#[test]
fn directory_entry_with_metadata() {
    let directory_path = PathBuf::from("directory");
    let metadata = metadata(true, false);
    assert!(!FilesystemEntry::needs_link_target(&metadata));
    let fs_entry = FilesystemEntry::with_metadata(directory_path.clone(), &metadata, Vec::new());

    match fs_entry.entry_type {
        EntryType::Directory => (),
        _ => panic!("Expected directory entry type"),
    }
    assert_eq!(fs_entry.path, directory_path);
    assert_eq!(fs_entry.size(), 0);
    assert!(fs_entry.is_directory());
}

#[test]
fn symlink_entry_with_metadata() {
    let symlink_path = PathBuf::from("link.txt");
    let metadata = metadata(false, true);
    assert!(FilesystemEntry::needs_link_target(&metadata));
    let fs_entry = FilesystemEntry::with_metadata(
        symlink_path.clone(),
        &metadata,
        b"dir/target.txt".to_vec(),
    );

    match fs_entry.entry_type {
        EntryType::Symlink { ref target_bytes } => {
            assert!(target_bytes.ends_with(b"target.txt"));
        }
        _ => panic!("Expected symlink entry type"),
    }
    assert_eq!(fs_entry.path, symlink_path);
    assert_eq!(fs_entry.size(), 14);
    assert!(
        matches!(fs_entry.reader_source(), ReaderSource::Symlink(bytes) if bytes == b"dir/target.txt")
    );
}

#[test]
fn add_filesystem_entry_sets_name_and_metadata() {
    let mut builder: Builder<Vec<u8>> = Builder::new();
    assert!(builder
        .add_filesystem_entry("dir".to_owned(), Vec::new(), true, &metadata(true, false))
        .is_ok());
    assert!(builder
        .add_filesystem_entry("file/".to_owned(), vec![1; 5], false, &metadata(false, false))
        .is_ok());
    match builder.add_filesystem_entry("dir//".to_owned(), Vec::new(), true, &metadata(true, false))
    {
        Err(AddEntryError::DuplicateEntryName { entry_name }) => assert_eq!(entry_name, "dir/"),
        _ => panic!("The name is taken"),
    }
    let entries = builder.get_entries();
    assert_eq!(entries.len(), 2);
    assert_eq!(entries[0].0, "dir/");
    assert_eq!(entries[0].1.get_metadata().file_type, BuilderFileType::Directory);
    assert_eq!(entries[1].0, "file");
    assert_eq!(entries[1].1.get_metadata().file_type, BuilderFileType::File);
    assert_eq!(
        entries[1].1.get_metadata().permissions,
        BuilderPermissions::UnixPermissions(0o600)
    );
}

#[test]
fn directory_walk() {
    let mut walk: DirectoryWalk<&str> = DirectoryWalk::new("/root", Some("/archive/"));
    assert_eq!(walk.next_directory(), Some("/root"));
    assert_eq!(walk.found("/root/a", "a", true), "archive/a/");
    assert_eq!(walk.found("/root/f", "f", false), "archive/f");
    assert_eq!(walk.found("/root/b", "b", true), "archive/b/");
    assert_eq!(walk.next_directory(), Some("/root/b"));
    assert_eq!(walk.found("/root/b/c", "b/c", true), "archive/b/c/");
    assert_eq!(walk.next_directory(), Some("/root/b/c"));
    assert_eq!(walk.next_directory(), Some("/root/a"));
    assert_eq!(walk.next_directory(), None);
    assert_eq!(walk.root_entry_name(), Some("archive/".to_owned()));

    let mut walk: DirectoryWalk<u8> = DirectoryWalk::new(0, None);
    assert_eq!(walk.next_directory(), Some(0));
    assert_eq!(walk.found(1, "f", false), "f");
    assert_eq!(walk.next_directory(), None);
    assert_eq!(walk.root_entry_name(), None);
}

#[test]
fn file_entry_knows_its_path() {
    let entry = TokioFileEntry::new(PathBuf::from("/tmp/x"));
    assert_eq!(entry.path(), Path::new("/tmp/x"));
    let entry: TokioFileEntry = PathBuf::from("y").into();
    assert_eq!(entry.path(), Path::new("y"));
}
