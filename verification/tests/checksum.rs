use lingo::util::errors::LingoError;
use lingo::util::sha1dir;
use lingo::util::sha1dir::{begin, checksum_current_dir, to_hex, Checksum, DirEntry, EntryKind};

fn file_entry(path: &str, content: &str) -> DirEntry {
    DirEntry {
        kind: EntryKind::File,
        path: path.as_bytes().to_vec(),
        content: content.as_bytes().to_vec(),
    }
}

fn link_entry(path: &str, target: &str) -> DirEntry {
    DirEntry {
        kind: EntryKind::Symlink,
        path: path.as_bytes().to_vec(),
        content: target.as_bytes().to_vec(),
    }
}

fn dir_entry(path: &str) -> DirEntry {
    DirEntry { kind: EntryKind::Dir, path: path.as_bytes().to_vec(), content: Vec::new() }
}

fn other_entry(path: &str) -> DirEntry {
    DirEntry { kind: EntryKind::Other, path: path.as_bytes().to_vec(), content: Vec::new() }
}

fn tree() -> Vec<DirEntry> {
    vec![
        file_entry("a.txt", "hello"),
        link_entry("link", "a.txt"),
        dir_entry("sub"),
        file_entry("sub/b.txt", ""),
    ]
}

#[test]
fn empty_tree_has_zero_checksum() {
    let checksum = checksum_current_dir(&Vec::new(), false).unwrap();
    assert_eq!(checksum.bytes(), [0u8; 20]);
    assert_eq!(checksum.to_hex(), "0000000000000000000000000000000000000000");
}

#[test]
fn new_checksum_is_zero() {
    assert_eq!(Checksum::new().bytes(), [0u8; 20]);
}

#[test]
fn begin_writes_tag_length_and_path() {
    assert_eq!(begin(b"a.txt", b'f'), vec![102, 5, 0, 0, 0, 97, 46, 116, 120, 116]);
}

#[test]
fn begin_writes_length_least_significant_byte_first() {
    let path = vec![b'x'; 258];
    let message = begin(&path, b'd');
    assert_eq!(&message[..5], &[100, 2, 1, 0, 0]);
    assert_eq!(message.len(), 5 + 258);
}

#[test]
fn single_file_checksum_is_its_digest() {
    let checksum = checksum_current_dir(&vec![file_entry("a.txt", "hello")], false).unwrap();
    assert_eq!(checksum.to_hex(), "a894b043e4289e24cded1263e31376e43e19cb78");
}

#[test]
fn file_adds_digest_of_tag_path_and_content() {
    let mut checksum = Checksum::new();
    sha1dir::file(&mut checksum, b"a.txt", b"hello");
    assert_eq!(checksum.to_hex(), "a894b043e4289e24cded1263e31376e43e19cb78");
}

#[test]
fn symlink_adds_digest_of_tag_path_and_target() {
    let mut checksum = Checksum::new();
    sha1dir::symlink(&mut checksum, b"link", b"a.txt");
    assert_eq!(checksum.to_hex(), "64ecc7185f34a102cfbf9a2305e0f982c13cc63f");
}

#[test]
fn dir_adds_digest_of_tag_and_path() {
    let mut checksum = Checksum::new();
    sha1dir::dir(&mut checksum, b"sub");
    assert_eq!(checksum.to_hex(), "df65f369e2b00151accb842587a1f7f35b39e206");
}

#[test]
fn empty_file_is_hashed_without_content() {
    let checksum = checksum_current_dir(&vec![file_entry("sub/b.txt", "")], false).unwrap();
    assert_eq!(checksum.to_hex(), "823b9eeeff44f61893dc4f16a0aba44268b44633");
}

#[test]
fn tree_checksum_is_xor_of_entry_digests() {
    let checksum = checksum_current_dir(&tree(), false).unwrap();
    assert_eq!(checksum.to_hex(), "91261adca6e8c86f3d454373c1f9dcd7cca8a972");
}

#[test]
fn checksum_ignores_read_order() {
    let forward = checksum_current_dir(&tree(), false).unwrap();
    let mut reversed = tree();
    reversed.reverse();
    let backward = checksum_current_dir(&reversed, false).unwrap();
    assert_eq!(forward.bytes(), backward.bytes());
    let mut rotated = tree();
    rotated.rotate_left(1);
    let turned = checksum_current_dir(&rotated, false).unwrap();
    assert_eq!(forward.bytes(), turned.bytes());
}

#[test]
fn checksum_changes_with_content() {
    let before = checksum_current_dir(&tree(), false).unwrap();
    let mut changed = tree();
    changed[0] = file_entry("a.txt", "hellp");
    let after = checksum_current_dir(&changed, false).unwrap();
    assert_ne!(before.bytes(), after.bytes());
    let alone = checksum_current_dir(&vec![file_entry("a.txt", "hellp")], false).unwrap();
    assert_eq!(alone.to_hex(), "ad16a2224590ddf8cee642da18696565fbc45d1a");
}

#[test]
fn checksum_changes_with_path() {
    let before = checksum_current_dir(&tree(), false).unwrap();
    let mut changed = tree();
    changed[0] = file_entry("b.txt", "hello");
    let after = checksum_current_dir(&changed, false).unwrap();
    assert_ne!(before.bytes(), after.bytes());
}

#[test]
fn checksum_changes_with_kind() {
    let as_file = checksum_current_dir(&vec![file_entry("x", "")], false).unwrap();
    let as_dir = checksum_current_dir(&vec![dir_entry("x")], false).unwrap();
    assert_ne!(as_file.bytes(), as_dir.bytes());
}

#[test]
fn entry_twice_cancels() {
    let twice = vec![file_entry("a.txt", "hello"), file_entry("a.txt", "hello")];
    let checksum = checksum_current_dir(&twice, false).unwrap();
    assert_eq!(checksum.bytes(), [0u8; 20]);
}

#[test]
fn unknown_entry_is_refused() {
    let mut entries = tree();
    entries.push(other_entry("socket"));
    match checksum_current_dir(&entries, false) {
        Err(LingoError::UnsupportedFileType(path)) => assert_eq!(path, b"socket".to_vec()),
        _ => panic!("an entry of unknown kind must be refused"),
    }
}

#[test]
fn unknown_entry_is_skipped_when_ignored() {
    let mut entries = tree();
    entries.push(other_entry("socket"));
    let checksum = checksum_current_dir(&entries, true).unwrap();
    assert_eq!(checksum.to_hex(), "91261adca6e8c86f3d454373c1f9dcd7cca8a972");
}

#[test]
fn entry_leaves_checksum_alone_on_refusal() {
    let mut checksum = Checksum::new();
    sha1dir::file(&mut checksum, b"a.txt", b"hello");
    let before = checksum.bytes();
    assert!(sha1dir::entry(&mut checksum, &other_entry("socket"), false).is_err());
    assert_eq!(checksum.bytes(), before);
    assert!(sha1dir::entry(&mut checksum, &other_entry("socket"), true).is_ok());
    assert_eq!(checksum.bytes(), before);
}

#[test]
fn put_mixes_bytewise() {
    let mut checksum = Checksum::new();
    let mut digest = [0u8; 20];
    digest[0] = 0xf0;
    digest[19] = 0x0f;
    checksum.put(&digest);
    assert_eq!(checksum.bytes(), digest);
    let mut other = [0u8; 20];
    other[0] = 0xff;
    checksum.put(&other);
    let mut expected = [0u8; 20];
    expected[0] = 0x0f;
    expected[19] = 0x0f;
    assert_eq!(checksum.bytes(), expected);
}

#[test]
fn hex_is_lower_case_with_two_digits_per_byte() {
    assert_eq!(to_hex(&[0x00, 0x0a, 0xbc, 0xff]), "000abcff");
    assert_eq!(to_hex(&[]), "");
}
