use face_auth::enrollment::{
    append_embeddings, default_version, embeddings_path, enrollment_dir, enrollment_version, is_stale, join_path,
    load_embeddings, resolve_home, resolve_uid, resolve_uid_gid, room, save_embeddings, temporary_path, EnrollmentData,
    EnrollmentError, ENROLLMENT_VERSION,
};

fn one(first: f32, last: f32) -> [u32; 512] {
    let mut e = [0u32; 512];
    e[0] = first.to_bits();
    e[511] = last.to_bits();
    e
}

#[test]
fn roundtrip_embeddings() {
    let embeddings = vec![one(1.0, -0.5)];
    let enrollment = EnrollmentData::from_arrays(&embeddings);
    let data = enrollment.encode().unwrap();
    let loaded = EnrollmentData::decode(&data).unwrap();
    let arrays = loaded.to_arrays().unwrap();
    assert_eq!(arrays.len(), 1);
    assert_eq!(f32::from_bits(arrays[0][0]), 1.0);
    assert_eq!(f32::from_bits(arrays[0][511]), -0.5);
}

#[test]
fn new_enrollment_stamps_current_version() {
    let data = EnrollmentData::from_arrays(&vec![one(1.0, 0.0)]);
    assert_eq!(data.version, ENROLLMENT_VERSION);
}

#[test]
fn old_enrollment_defaults_to_version_1() {
    assert_eq!(default_version(), 1);
    assert!(ENROLLMENT_VERSION > 1, "current version must be > 1");
}

#[test]
fn file_starts_with_version_and_count() {
    let bytes = save_embeddings(&vec![one(1.0, 0.0), one(2.0, 0.0)], 20).unwrap();
    assert_eq!(bytes.len(), 4 + 8 + 2 * (8 + 512 * 4));
    assert_eq!(bytes[..4], ENROLLMENT_VERSION.to_le_bytes());
    assert_eq!(bytes[4..12], 2u64.to_le_bytes());
    assert_eq!(bytes[12..20], 512u64.to_le_bytes());
    assert_eq!(bytes[20..24], 1.0f32.to_bits().to_le_bytes());
}

#[test]
fn library_reads_what_bincode_writes() {
    let rows: Vec<Vec<f32>> = vec![(0..512).map(|i| i as f32 / 7.0).collect()];
    let bytes = bincode::serialize(&(3u32, rows)).unwrap();
    let file = Some(Ok(bytes));
    assert_eq!(enrollment_version(&file), Some(3));
    let loaded = load_embeddings("ann", &file).unwrap();
    assert_eq!(loaded[0][14], 2.0f32.to_bits());
}

#[test]
fn saved_embeddings_are_loaded_again() {
    let saved = vec![one(0.25, 4.0), one(-1.0, 8.0)];
    let file = Some(Ok(save_embeddings(&saved, 2).unwrap()));
    assert_eq!(load_embeddings("ann", &file).unwrap(), saved);
    assert_eq!(enrollment_version(&file), Some(ENROLLMENT_VERSION));
}

#[test]
fn too_many_embeddings_are_refused() {
    match save_embeddings(&vec![one(0.0, 0.0); 3], 2) {
        Err(e) => assert_eq!(e.message(), "max embeddings (2) reached"),
        Ok(_) => panic!("saved too many"),
    }
}

#[test]
fn appended_embeddings_follow_the_old() {
    let (old, new) = (vec![one(0.25, 4.0)], vec![one(-1.0, 8.0)]);
    let first = Some(Ok(append_embeddings("ann", &None, &old, 2).unwrap()));
    assert_eq!(load_embeddings("ann", &first).unwrap(), old);
    let second = Some(Ok(append_embeddings("ann", &first, &new, 2).unwrap()));
    assert_eq!(load_embeddings("ann", &second).unwrap(), vec![old[0], new[0]]);
    match append_embeddings("ann", &second, &new, 2) {
        Err(e) => assert_eq!(e.message(), "max embeddings (2) reached"),
        Ok(_) => panic!("appended too many"),
    }
    let denied = Some(Err("denied".to_string()));
    assert_eq!(append_embeddings("ann", &denied, &new, 2).unwrap_err().message(), "io error: denied");
}

#[test]
fn appending_keeps_the_version() {
    let old = Some(Ok(bincode::serialize(&(1u32, vec![vec![7u32; 512]])).unwrap()));
    let file = Some(Ok(append_embeddings("ann", &old, &vec![one(0.5, 0.5)], 20).unwrap()));
    assert_eq!(enrollment_version(&file), Some(1));
    assert_eq!(load_embeddings("ann", &file).unwrap().len(), 2);
}

#[test]
fn loading_can_fail() {
    assert_eq!(
        load_embeddings("ann", &None).unwrap_err().message(),
        "no enrollment found for user: ann"
    );
    let denied = Some(Err("denied".to_string()));
    assert_eq!(load_embeddings("ann", &denied).unwrap_err().message(), "io error: denied");
    assert_eq!(enrollment_version(&denied), None);
    let short = Some(Ok(vec![1u8, 2, 3]));
    assert!(matches!(load_embeddings("ann", &short), Err(EnrollmentError::Deserialize(_))));
    assert_eq!(enrollment_version(&short), None);
    let narrow = Some(Ok(bincode::serialize(&(2u32, vec![vec![1u32; 128]])).unwrap()));
    assert!(matches!(load_embeddings("ann", &narrow), Err(EnrollmentError::Deserialize(_))));
    assert_eq!(enrollment_version(&narrow), Some(2));
    assert_eq!(EnrollmentError::Serialize("x".to_string()).message(), "serialize error: x");
    assert_eq!(EnrollmentError::Deserialize("x".to_string()).message(), "deserialize error: x");
}

#[test]
fn older_versions_are_stale() {
    assert!(is_stale(ENROLLMENT_VERSION - 1));
    assert!(!is_stale(ENROLLMENT_VERSION));
}

const PASSWD: &str = "root:x:0:0:root:/root:/bin/sh\nshort:x:7\nann:x:1000:1001:Ann:/home/ann2:/bin/sh\n";

#[test]
fn user_list_is_searched() {
    assert_eq!(resolve_home(PASSWD, "ann"), Some("/home/ann2".to_string()));
    assert_eq!(resolve_home(PASSWD, "short"), None);
    assert_eq!(resolve_home(PASSWD, "bob"), None);
    assert_eq!(resolve_uid_gid(PASSWD, "ann"), Some((1000, 1001)));
    assert_eq!(resolve_uid(PASSWD, "short"), Some(7));
    assert_eq!(resolve_uid(PASSWD, "bob"), None);
    assert_eq!(resolve_uid_gid("ann:x:one:2:::\n", "ann"), None);
}

#[test]
fn enrollment_directory() {
    let list = Some(PASSWD.to_string());
    let env = Some("/env/home".to_string());
    assert_eq!(enrollment_dir("ann", &list, &env), "/home/ann2/.local/share/face-auth/ann");
    assert_eq!(enrollment_dir("bob", &list, &env), "/env/home/.local/share/face-auth/bob");
    assert_eq!(enrollment_dir("bob", &None, &None), "/home/bob/.local/share/face-auth/bob");
    assert_eq!(embeddings_path("/d"), "/d/embeddings.bin");
    assert_eq!(temporary_path("/d"), "/d/embeddings.bin.tmp");
}

#[test]
fn paths_are_joined() {
    assert_eq!(join_path("/a", "b"), "/a/b");
    assert_eq!(join_path("/a/", "b"), "/a/b");
    assert_eq!(join_path("/a", "/b"), "/b");
    assert_eq!(join_path("", "b"), "b");
}

#[test]
fn files_without_a_version_have_the_first() {
    let bytes = bincode::serialize(&vec![vec![0.0f32; 512], vec![2.5f32; 512]]).unwrap();
    let file = Some(Ok(bytes));
    assert_eq!(enrollment_version(&file), Some(default_version()));
    let loaded = load_embeddings("ann", &file).unwrap();
    assert_eq!(loaded, vec![[0u32; 512], [2.5f32.to_bits(); 512]]);
    let grown = Some(Ok(append_embeddings("ann", &file, &vec![one(1.0, 2.0)], 3).unwrap()));
    assert_eq!(enrollment_version(&grown), Some(1));
    assert_eq!(load_embeddings("ann", &grown).unwrap()[2], one(1.0, 2.0));
    let empty = Some(Ok(bincode::serialize(&Vec::<Vec<f32>>::new()).unwrap()));
    assert_eq!(enrollment_version(&empty), Some(1));
    assert!(load_embeddings("ann", &empty).unwrap().is_empty());
    let narrow = Some(Ok(bincode::serialize(&vec![vec![1.0f32; 3]]).unwrap()));
    assert!(matches!(load_embeddings("ann", &narrow), Err(EnrollmentError::Deserialize(_))));
}

#[test]
fn room_is_what_is_left() {
    assert_eq!(room(20, 0), 20);
    assert_eq!(room(20, 15), 5);
    assert_eq!(room(20, 20), 0);
    assert_eq!(room(20, usize::MAX), 0);
}
