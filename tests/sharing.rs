use encrypted_files::service::FileSharing;
use encrypted_files::types::{AccessRights, Blob, FilesError, Identity};
use encrypted_files::store::FileMetadata;

fn id(n: u8) -> Identity {
    Identity::from_bytes(vec![n, 0xAB, n])
}

fn docs() -> Vec<u8> {
    b"docs".to_vec()
}

fn upload(fs: &mut FileSharing, caller: u8, owner: u8, key: &[u8], data: &[u8], filename: &str, now: u64)
    -> Result<Option<(Vec<u8>, FileMetadata)>, FilesError> {
    fs.upload_file_to_collection(
        &id(caller),
        &id(owner),
        &docs(),
        &key.to_vec(),
        data.to_vec(),
        filename.to_string(),
        "text/plain".to_string(),
        10,
        vec!["t1".to_string()],
        Some("first".to_string()),
        now,
    )
}

#[test]
fn end_to_end_share_and_reupload() {
    let mut fs = FileSharing::new();
    let alice = fs.register_user(id(1), "alice".to_string(), None, 5).unwrap();
    assert_eq!(alice.username, "alice");
    assert_eq!(alice.created_at, 5);
    assert!(upload(&mut fs, 1, 1, b"f1", b"cipher-1", "a.txt", 100).unwrap().is_none());
    fs.register_user(id(2), "bob".to_string(), Some("Bob B".to_string()), 6).unwrap();
    assert_eq!(fs.share_collection_with_user(&id(1), &docs(), &"bob".to_string(), AccessRights::ReadWrite), Ok(None));
    let shared = fs.get_accessible_shared_collections(&id(2));
    assert_eq!(shared.len(), 1);
    assert_eq!(shared[0].0.bytes, id(1).bytes);
    assert_eq!(shared[0].1, docs());
    let prev = fs.upload_file_to_collection(
        &id(2), &id(1), &docs(), &b"f1".to_vec(), b"cipher-2".to_vec(), "b.txt".to_string(),
        "image/png".to_string(), 99, vec![], None, 200,
    ).unwrap().unwrap();
    assert_eq!(prev.0, b"cipher-1".to_vec());
    assert_eq!(prev.1.filename, "a.txt");
    let files = fs.get_files_in_collection_with_metadata(&id(2), &id(1), &docs()).unwrap();
    assert_eq!(files.len(), 1);
    let (key, value, meta) = &files[0];
    assert_eq!(key, &b"f1".to_vec());
    assert_eq!(value, &b"cipher-2".to_vec());
    assert_eq!(meta.filename, "b.txt");
    assert_eq!(meta.content_type, "text/plain");
    assert_eq!(meta.file_size, 10);
    assert_eq!(meta.creation_date, 100);
    assert_eq!(meta.last_modification_date, 200);
    assert_eq!(meta.uploaded_by.bytes, id(1).bytes);
    assert!(meta.tags.is_empty());
    assert_eq!(meta.description, None);
}

#[test]
fn revoked_user_is_denied_and_data_stays() {
    let mut fs = FileSharing::new();
    fs.register_user(id(1), "alice".to_string(), None, 1).unwrap();
    fs.register_user(id(2), "bob".to_string(), None, 2).unwrap();
    upload(&mut fs, 1, 1, b"f1", b"c1", "a.txt", 10).unwrap();
    fs.share_collection_with_user(&id(1), &docs(), &"bob".to_string(), AccessRights::ReadWrite).unwrap();
    assert_eq!(fs.remove_user_from_collection(&id(1), &docs(), &"bob".to_string()), Ok(Some(AccessRights::ReadWrite)));
    assert_eq!(upload(&mut fs, 2, 1, b"f1", b"evil", "x", 20).err(), Some(FilesError::Denied));
    assert_eq!(fs.remove_file_from_collection(&id(2), &id(1), &docs(), &b"f1".to_vec()).err(), Some(FilesError::Denied));
    let files = fs.get_files_in_collection_with_metadata(&id(1), &id(1), &docs()).unwrap();
    assert_eq!(files.len(), 1);
    assert_eq!(files[0].1, b"c1".to_vec());
    assert_eq!(files[0].2.filename, "a.txt");
    assert!(fs.get_accessible_shared_collections(&id(2)).is_empty());
}

#[test]
fn registration_rejects_duplicates() {
    let mut fs = FileSharing::new();
    fs.register_user(id(1), "alice".to_string(), None, 1).unwrap();
    assert_eq!(fs.register_user(id(2), "alice".to_string(), None, 2).err(), Some(FilesError::DuplicateUsername));
    assert_eq!(fs.register_user(id(1), "carol".to_string(), None, 3).err(), Some(FilesError::IdentityAlreadyRegistered));
    assert!(fs.get_user_by_username(&"carol".to_string()).is_none());
    assert!(fs.get_my_user_profile(&id(2)).is_none());
}

#[test]
fn lookups_find_registered_users() {
    let mut fs = FileSharing::new();
    fs.register_user(id(1), "alice".to_string(), Some("Alice A".to_string()), 7).unwrap();
    fs.register_user(id(2), "bob".to_string(), None, 8).unwrap();
    let a = fs.get_user_by_username(&"alice".to_string()).unwrap();
    assert_eq!(a.principal.bytes, id(1).bytes);
    assert_eq!(a.display_name, Some("Alice A".to_string()));
    assert_eq!(a.created_at, 7);
    let b = fs.get_my_user_profile(&id(2)).unwrap();
    assert_eq!(b.username, "bob");
    assert!(fs.get_user_by_username(&"Alice".to_string()).is_none());
}

#[test]
fn search_matches_username_or_display_name() {
    let mut fs = FileSharing::new();
    fs.register_user(id(1), "alice".to_string(), Some("Wonder".to_string()), 1).unwrap();
    fs.register_user(id(2), "bob".to_string(), Some("Builder".to_string()), 2).unwrap();
    fs.register_user(id(3), "malice".to_string(), None, 3).unwrap();
    let found: Vec<String> = fs.search_users(&"lic".to_string()).into_iter().map(|u| u.username).collect();
    assert_eq!(found, vec!["alice".to_string(), "malice".to_string()]);
    let found: Vec<String> = fs.search_users(&"uild".to_string()).into_iter().map(|u| u.username).collect();
    assert_eq!(found, vec!["bob".to_string()]);
    assert!(fs.search_users(&"LIC".to_string()).is_empty());
    assert!(fs.search_users(&"zzz".to_string()).is_empty());
}

#[test]
fn search_returns_at_most_ten() {
    let mut fs = FileSharing::new();
    for n in 0..15u8 {
        fs.register_user(id(n), format!("user{}", n), None, n as u64).unwrap();
    }
    let found = fs.search_users(&"user".to_string());
    assert_eq!(found.len(), 10);
    let names: Vec<String> = found.into_iter().map(|u| u.username).collect();
    let expected: Vec<String> = ["user0", "user1", "user10", "user11", "user12", "user13", "user14", "user2", "user3", "user4"]
        .iter().map(|s| s.to_string()).collect();
    assert_eq!(names, expected);
    assert_eq!(fs.search_users(&String::new()).len(), 10);
}

#[test]
fn upload_then_remove_restores_collection() {
    let mut fs = FileSharing::new();
    upload(&mut fs, 1, 1, b"keep", b"k", "keep.txt", 1).unwrap();
    assert!(upload(&mut fs, 1, 1, b"f2", b"data", "n.txt", 2).unwrap().is_none());
    let (value, meta) = fs.remove_file_from_collection(&id(1), &id(1), &docs(), &b"f2".to_vec()).unwrap().unwrap();
    assert_eq!(value, b"data".to_vec());
    assert_eq!(meta.filename, "n.txt");
    assert_eq!(meta.creation_date, 2);
    assert_eq!(meta.tags, vec!["t1".to_string()]);
    assert_eq!(meta.description, Some("first".to_string()));
    let files = fs.get_files_in_collection_with_metadata(&id(1), &id(1), &docs()).unwrap();
    assert_eq!(files.len(), 1);
    assert_eq!(files[0].0, b"keep".to_vec());
    assert!(fs.remove_file_from_collection(&id(1), &id(1), &docs(), &b"f2".to_vec()).unwrap().is_none());
}

#[test]
fn collections_vanish_when_emptied() {
    let mut fs = FileSharing::new();
    upload(&mut fs, 1, 1, b"a", b"1", "a", 1).unwrap();
    upload(&mut fs, 1, 1, b"b", b"2", "b", 2).unwrap();
    fs.upload_file_to_collection(&id(1), &id(1), &b"pics".to_vec(), &b"p".to_vec(), b"3".to_vec(),
        "p".to_string(), "image/png".to_string(), 3, vec![], None, 3).unwrap();
    assert_eq!(fs.get_my_collections(&id(1)), vec![docs(), b"pics".to_vec()]);
    assert!(fs.get_my_collections(&id(2)).is_empty());
    fs.remove_file_from_collection(&id(1), &id(1), &b"pics".to_vec(), &b"p".to_vec()).unwrap();
    assert_eq!(fs.get_my_collections(&id(1)), vec![docs()]);
}

#[test]
fn reader_cannot_write_or_manage() {
    let mut fs = FileSharing::new();
    fs.register_user(id(1), "alice".to_string(), None, 1).unwrap();
    fs.register_user(id(2), "bob".to_string(), None, 2).unwrap();
    fs.register_user(id(3), "carol".to_string(), None, 3).unwrap();
    upload(&mut fs, 1, 1, b"f1", b"c1", "a.txt", 10).unwrap();
    fs.share_collection_with_user(&id(1), &docs(), &"bob".to_string(), AccessRights::Read).unwrap();
    assert!(fs.get_files_in_collection_with_metadata(&id(2), &id(1), &docs()).is_ok());
    assert_eq!(upload(&mut fs, 2, 1, b"f9", b"x", "x", 11).err(), Some(FilesError::Denied));
    assert_eq!(fs.remove_file_from_collection(&id(2), &id(1), &docs(), &b"f1".to_vec()).err(), Some(FilesError::Denied));
    let name = Blob::try_from_bytes(&docs()).unwrap();
    assert_eq!(fs.access.set_user_rights(&id(2), &id(1), &name, id(3), AccessRights::Read).err(), Some(FilesError::Denied));
    assert_eq!(fs.access.remove_user(&id(2), &id(1), &name, &id(2)).err(), Some(FilesError::Denied));
    assert_eq!(fs.get_shared_user_access_for_collection(&id(2), &id(1), &docs()).err(), Some(FilesError::Denied));
    assert_eq!(fs.get_files_in_collection_with_metadata(&id(3), &id(1), &docs()).err(), Some(FilesError::Denied));
}

#[test]
fn manager_can_grant_and_list_grants() {
    let mut fs = FileSharing::new();
    fs.register_user(id(1), "alice".to_string(), None, 1).unwrap();
    fs.register_user(id(2), "bob".to_string(), None, 2).unwrap();
    fs.share_collection_with_user(&id(1), &docs(), &"bob".to_string(), AccessRights::ReadWriteManage).unwrap();
    let name = Blob::try_from_bytes(&docs()).unwrap();
    assert_eq!(fs.access.set_user_rights(&id(2), &id(1), &name, id(3), AccessRights::Read), Ok(None));
    assert_eq!(fs.access.set_user_rights(&id(2), &id(1), &name, id(3), AccessRights::ReadWrite), Ok(Some(AccessRights::Read)));
    let grants = fs.get_shared_user_access_for_collection(&id(2), &id(1), &docs()).unwrap();
    assert_eq!(grants.len(), 2);
    assert_eq!(grants[0].0.bytes, id(2).bytes);
    assert_eq!(grants[0].1, AccessRights::ReadWriteManage);
    assert_eq!(grants[1].0.bytes, id(3).bytes);
    assert_eq!(grants[1].1, AccessRights::ReadWrite);
    assert!(fs.access.authorize(&id(1), &name, &id(3), AccessRights::ReadWrite).is_ok());
    assert_eq!(fs.access.authorize(&id(1), &name, &id(3), AccessRights::ReadWriteManage), Err(FilesError::Denied));
    assert!(fs.access.authorize(&id(1), &name, &id(1), AccessRights::ReadWriteManage).is_ok());
}

#[test]
fn sharing_errors() {
    let mut fs = FileSharing::new();
    fs.register_user(id(2), "bob".to_string(), None, 2).unwrap();
    assert_eq!(fs.share_collection_with_user(&id(1), &docs(), &"nobody".to_string(), AccessRights::Read), Err(FilesError::UserNotFound));
    assert_eq!(fs.remove_user_from_collection(&id(1), &docs(), &"nobody".to_string()), Err(FilesError::UserNotFound));
    let long = vec![b'x'; 33];
    assert_eq!(fs.share_collection_with_user(&id(1), &long, &"bob".to_string(), AccessRights::Read), Err(FilesError::KeyTooLong));
    assert_eq!(fs.remove_user_from_collection(&id(1), &docs(), &"bob".to_string()), Ok(None));
}

#[test]
fn keys_longer_than_32_bytes_are_refused() {
    let mut fs = FileSharing::new();
    let long = vec![7u8; 33];
    let exact = vec![7u8; 32];
    assert_eq!(fs.upload_file_to_collection(&id(1), &id(1), &long, &b"k".to_vec(), vec![1], String::new(), String::new(), 0, vec![], None, 0).err(), Some(FilesError::KeyTooLong));
    assert_eq!(fs.upload_file_to_collection(&id(1), &id(1), &docs(), &long, vec![1], String::new(), String::new(), 0, vec![], None, 0).err(), Some(FilesError::KeyTooLong));
    assert!(fs.upload_file_to_collection(&id(1), &id(1), &exact, &exact, vec![1], String::new(), String::new(), 0, vec![], None, 0).is_ok());
    assert_eq!(fs.remove_file_from_collection(&id(1), &id(1), &docs(), &long).err(), Some(FilesError::KeyTooLong));
    assert_eq!(fs.get_files_in_collection_with_metadata(&id(1), &id(1), &long).err(), Some(FilesError::KeyTooLong));
    assert_eq!(fs.get_shared_user_access_for_collection(&id(1), &id(1), &long).err(), Some(FilesError::KeyTooLong));
    assert!(Blob::try_from_bytes(&exact).is_ok());
    assert_eq!(Blob::try_from_bytes(&long).err(), Some(FilesError::KeyTooLong));
}

#[test]
fn collections_of_different_owners_are_separate() {
    let mut fs = FileSharing::new();
    upload(&mut fs, 1, 1, b"f1", b"a", "a", 1).unwrap();
    upload(&mut fs, 2, 2, b"f1", b"b", "b", 2).unwrap();
    let mine = fs.get_files_in_collection_with_metadata(&id(2), &id(2), &docs()).unwrap();
    assert_eq!(mine.len(), 1);
    assert_eq!(mine[0].1, b"b".to_vec());
    assert_eq!(fs.get_files_in_collection_with_metadata(&id(2), &id(1), &docs()).err(), Some(FilesError::Denied));
}

#[test]
fn metadata_new_and_update() {
    let m = FileMetadata::new("a.txt".to_string(), "text/plain".to_string(), 10, id(4), vec!["x".to_string()], None, 50);
    assert_eq!(m.creation_date, 50);
    assert_eq!(m.last_modification_date, 50);
    let u = m.update("b.txt".to_string(), vec![], Some("d".to_string()), 60);
    assert_eq!(u.filename, "b.txt");
    assert_eq!(u.content_type, "text/plain");
    assert_eq!(u.file_size, 10);
    assert_eq!(u.creation_date, 50);
    assert_eq!(u.last_modification_date, 60);
    assert_eq!(u.uploaded_by.bytes, id(4).bytes);
    assert_eq!(u.description, Some("d".to_string()));
}

#[test]
fn listing_is_in_ascending_key_order() {
    let mut fs = FileSharing::new();
    for (key, now) in [(&b"b"[..], 1u64), (&b"ab"[..], 2), (&b"a"[..], 3), (&b"\x00"[..], 4), (&b"ba"[..], 5)] {
        upload(&mut fs, 1, 1, key, b"v", "f", now).unwrap();
    }
    let keys: Vec<Vec<u8>> = fs.get_files_in_collection_with_metadata(&id(1), &id(1), &docs()).unwrap()
        .into_iter().map(|(k, _, _)| k).collect();
    assert_eq!(keys, vec![b"\x00".to_vec(), b"a".to_vec(), b"ab".to_vec(), b"b".to_vec(), b"ba".to_vec()]);
}

#[test]
fn owner_cannot_change_own_rights() {
    let mut fs = FileSharing::new();
    fs.register_user(id(1), "alice".to_string(), None, 1).unwrap();
    assert_eq!(fs.share_collection_with_user(&id(1), &docs(), &"alice".to_string(), AccessRights::Read), Err(FilesError::Denied));
    assert_eq!(fs.remove_user_from_collection(&id(1), &docs(), &"alice".to_string()), Err(FilesError::Denied));
    assert!(fs.get_shared_user_access_for_collection(&id(1), &id(1), &docs()).unwrap().is_empty());
}

#[test]
fn rights_levels_are_ordered() {
    let mut fs = FileSharing::new();
    fs.register_user(id(2), "bob".to_string(), None, 2).unwrap();
    let name = Blob::try_from_bytes(&docs()).unwrap();
    let levels = [AccessRights::Read, AccessRights::ReadWrite, AccessRights::ReadWriteManage];
    for (held, granted) in levels.iter().enumerate() {
        fs.share_collection_with_user(&id(1), &docs(), &"bob".to_string(), *granted).unwrap();
        for (asked, level) in levels.iter().enumerate() {
            assert_eq!(fs.access.authorize(&id(1), &name, &id(2), *level).is_ok(), asked <= held);
            assert!(fs.access.authorize(&id(1), &name, &id(1), *level).is_ok());
        }
    }
    assert_eq!(fs.access.rights_for(&id(1), &name, &id(2)), Some(AccessRights::ReadWriteManage));
    assert_eq!(fs.access.rights_for(&id(1), &name, &id(3)), None);
}

#[test]
fn reupload_returns_previous_and_keeps_origin() {
    let mut fs = FileSharing::new();
    upload(&mut fs, 1, 1, b"k", b"one", "a.txt", 10).unwrap();
    let prev = fs.upload_file_to_collection(&id(1), &id(1), &docs(), &b"k".to_vec(), b"two".to_vec(),
        "c.txt".to_string(), "application/pdf".to_string(), 500, vec!["n".to_string()], Some("new".to_string()), 30)
        .unwrap().unwrap();
    assert_eq!(prev.0, b"one".to_vec());
    assert_eq!(prev.1.last_modification_date, 10);
    let files = fs.get_files_in_collection_with_metadata(&id(1), &id(1), &docs()).unwrap();
    assert_eq!(files.len(), 1);
    let meta = &files[0].2;
    assert_eq!(files[0].1, b"two".to_vec());
    assert_eq!(meta.content_type, "text/plain");
    assert_eq!(meta.file_size, 10);
    assert_eq!(meta.creation_date, 10);
    assert_eq!(meta.last_modification_date, 30);
    assert_eq!(meta.filename, "c.txt");
    assert_eq!(meta.tags, vec!["n".to_string()]);
    assert_eq!(meta.description, Some("new".to_string()));
}

#[test]
fn search_lists_in_username_order() {
    let mut fs = FileSharing::new();
    fs.register_user(id(1), "b".to_string(), None, 1).unwrap();
    fs.register_user(id(2), "a".to_string(), None, 2).unwrap();
    fs.register_user(id(3), "B".to_string(), None, 3).unwrap();
    fs.register_user(id(4), "\u{e9}".to_string(), None, 4).unwrap();
    let names: Vec<String> = fs.search_users(&String::new()).into_iter().map(|u| u.username).collect();
    assert_eq!(names, vec!["B".to_string(), "a".to_string(), "b".to_string(), "\u{e9}".to_string()]);
    assert_eq!(fs.get_user_by_username(&"b".to_string()).unwrap().created_at, 1);
    assert_eq!(fs.get_my_user_profile(&id(4)).unwrap().username, "\u{e9}");
}

#[test]
fn own_collections_are_not_listed_as_shared() {
    let mut fs = FileSharing::new();
    fs.register_user(id(1), "alice".to_string(), None, 1).unwrap();
    fs.register_user(id(2), "bob".to_string(), None, 2).unwrap();
    fs.share_collection_with_user(&id(1), &docs(), &"bob".to_string(), AccessRights::ReadWriteManage).unwrap();
    let name = Blob::try_from_bytes(&docs()).unwrap();
    assert_eq!(fs.access.set_user_rights(&id(2), &id(1), &name, id(1), AccessRights::Read), Ok(None));
    assert!(fs.get_accessible_shared_collections(&id(1)).is_empty());
    assert_eq!(fs.get_accessible_shared_collections(&id(2)).len(), 1);
}
