//! An order-independent checksum of a directory tree.
//!
//! Every entry of the tree is hashed on its own, from its kind, its relative
//! path and its content, and the digests are combined with XOR. The result is
//! therefore the same in whatever order the entries are read.

use sha1::Digest;
use vstd::prelude::*;
use vstd::seq_lib::*;

use crate::util::errors::LingoError;

verus! {

/// The SHA-1 digest of a message, as the `sha1` crate computes it.
pub uninterp spec fn sha1_of(message: Seq<u8>) -> Seq<u8>;

/// Calls `sha1::Sha1::digest`, which hashes the whole message at once and
/// returns the 20 bytes of the digest.
#[verifier::external_body]
fn sha1_digest(message: &[u8]) -> (digest: [u8; 20])
    ensures
        digest@ == sha1_of(message@),
{
    sha1::Sha1::digest(message).into()
}

/// The tag that starts the message of a regular file.
pub const KIND_FILE: u8 = 102;

/// The tag that starts the message of a symbolic link.
pub const KIND_SYMLINK: u8 = 108;

/// The tag that starts the message of a directory.
pub const KIND_DIR: u8 = 100;

/// What an entry of a directory tree is.
#[derive(Clone, Copy, Debug, PartialEq, Eq, Structural)]
pub enum EntryKind {
    /// A regular file; its content is hashed.
    File,
    /// A symbolic link; its target is hashed.
    Symlink,
    /// A directory; its children are entries of their own.
    Dir,
    /// Anything else, such as a socket or a device.
    Other,
}

/// One entry of a directory tree, as read from the file system.
#[derive(Debug)]
pub struct DirEntry {
    /// What the entry is.
    pub kind: EntryKind,
    /// The bytes of its path relative to the root of the tree.
    pub path: Vec<u8>,
    /// The bytes of a file, the target of a link, empty otherwise.
    pub content: Vec<u8>,
}

/// The mathematical value of a [`DirEntry`].
pub struct EntryView {
    pub kind: EntryKind,
    pub path: Seq<u8>,
    pub content: Seq<u8>,
}

impl View for DirEntry {
    type V = EntryView;

    open spec fn view(&self) -> EntryView {
        EntryView { kind: self.kind, path: self.path@, content: self.content@ }
    }
}

/// The four bytes of `n` modulo 2^32, least significant first.
pub open spec fn length_bytes(n: nat) -> Seq<u8> {
    seq![
        (n % 256) as u8,
        ((n / 256) % 256) as u8,
        ((n / 65536) % 256) as u8,
        ((n / 16777216) % 256) as u8,
    ]
}

/// The start of every entry's message: the tag, the length of the path and
/// the path itself.
pub open spec fn begin_message(path: Seq<u8>, kind: u8) -> Seq<u8> {
    seq![kind] + length_bytes(path.len()) + path
}

/// The first 20 bytes of the SHA-1 digest of a message, which are all of it.
pub open spec fn digest_of(message: Seq<u8>) -> Seq<u8> {
    Seq::new(20, |i: int| sha1_of(message)[i])
}

/// The digest of nothing: twenty zero bytes.
pub open spec fn zero_digest() -> Seq<u8> {
    Seq::new(20, |i: int| 0u8)
}

/// The bytewise XOR of two digests.
pub open spec fn combine(sum: Seq<u8>, digest: Seq<u8>) -> Seq<u8> {
    Seq::new(20, |i: int| sum[i] ^ digest[i])
}

/// What one entry adds to the checksum. An entry that is neither file, link
/// nor directory adds nothing.
pub open spec fn contribution(entry: EntryView) -> Seq<u8> {
    match entry.kind {
        EntryKind::File => digest_of(begin_message(entry.path, KIND_FILE) + entry.content),
        EntryKind::Symlink => digest_of(begin_message(entry.path, KIND_SYMLINK) + entry.content),
        EntryKind::Dir => digest_of(begin_message(entry.path, KIND_DIR)),
        EntryKind::Other => zero_digest(),
    }
}

/// The checksum of a tree: the XOR of what its entries add.
pub open spec fn checksum_of(entries: Seq<EntryView>) -> Seq<u8> {
    entries.fold_left(zero_digest(), mix())
}

/// The views of the entries of a vector.
pub open spec fn entry_views(entries: Seq<DirEntry>) -> Seq<EntryView> {
    entries.map_values(|entry: DirEntry| entry@)
}

/// The digit of a number below 16 in lower-case hexadecimal.
pub open spec fn hex_digit(nibble: int) -> char {
    if nibble == 0 {
        '0'
    } else if nibble == 1 {
        '1'
    } else if nibble == 2 {
        '2'
    } else if nibble == 3 {
        '3'
    } else if nibble == 4 {
        '4'
    } else if nibble == 5 {
        '5'
    } else if nibble == 6 {
        '6'
    } else if nibble == 7 {
        '7'
    } else if nibble == 8 {
        '8'
    } else if nibble == 9 {
        '9'
    } else if nibble == 10 {
        'a'
    } else if nibble == 11 {
        'b'
    } else if nibble == 12 {
        'c'
    } else if nibble == 13 {
        'd'
    } else if nibble == 14 {
        'e'
    } else {
        'f'
    }
}

/// Bytes written as lower-case hexadecimal, two digits each.
pub open spec fn hex_of(bytes: Seq<u8>) -> Seq<char> {
    Seq::new(
        2 * bytes.len(),
        |i: int| if i % 2 == 0 {
            hex_digit(bytes[i / 2] as int / 16)
        } else {
            hex_digit(bytes[i / 2] as int % 16)
        },
    )
}

/// The one-character text of a hexadecimal digit.
fn hex_digit_str(nibble: u8) -> (text: &'static str)
    requires
        nibble < 16,
    ensures
        text@ == seq![hex_digit(nibble as int)],
{
    proof {
        reveal_strlit("0");
        reveal_strlit("1");
        reveal_strlit("2");
        reveal_strlit("3");
        reveal_strlit("4");
        reveal_strlit("5");
        reveal_strlit("6");
        reveal_strlit("7");
        reveal_strlit("8");
        reveal_strlit("9");
        reveal_strlit("a");
        reveal_strlit("b");
        reveal_strlit("c");
        reveal_strlit("d");
        reveal_strlit("e");
        reveal_strlit("f");
    }
    let text = match nibble {
        0 => "0",
        1 => "1",
        2 => "2",
        3 => "3",
        4 => "4",
        5 => "5",
        6 => "6",
        7 => "7",
        8 => "8",
        9 => "9",
        10 => "a",
        11 => "b",
        12 => "c",
        13 => "d",
        14 => "e",
        _ => "f",
    };
    assert(text@ =~= seq![hex_digit(nibble as int)]);
    text
}

/// Writes bytes as lower-case hexadecimal.
pub fn to_hex(bytes: &[u8]) -> (text: String)
    ensures
        text@ == hex_of(bytes@),
{
    let mut text = String::new();
    let mut i: usize = 0;
    while i < bytes.len()
        invariant
            i <= bytes@.len(),
            text@ == hex_of(bytes@.take(i as int)),
        decreases bytes@.len() - i,
    {
        let byte: u8 = bytes[i];
        text.append(hex_digit_str(byte / 16));
        text.append(hex_digit_str(byte % 16));
        i += 1;
        assert(text@ =~= hex_of(bytes@.take(i as int)));
    }
    assert(bytes@.take(i as int) =~= bytes@);
    text
}

/// The running checksum of a directory tree.
#[derive(Debug)]
pub struct Checksum {
    bytes: [u8; 20],
}

impl View for Checksum {
    type V = Seq<u8>;

    /// The twenty bytes of the checksum.
    closed spec fn view(&self) -> Seq<u8> {
        self.bytes@
    }
}

impl Checksum {
    /// The checksum of an empty tree.
    pub fn new() -> (checksum: Self)
        ensures
            checksum@ == zero_digest(),
    {
        let checksum = Checksum { bytes: [0u8;20] };
        assert(checksum.bytes@ =~= zero_digest());
        checksum
    }

    /// Mixes the digest of one entry into the checksum.
    pub fn put(&mut self, digest: &[u8; 20])
        ensures
            final(self)@ == combine(old(self)@, digest@),
    {
        let mut i: usize = 0;
        while i < 20
            invariant
                i <= 20,
                forall|k: int| 0 <= k < i ==> #[trigger] self.bytes@[k] == old(self).bytes@[k] ^ digest@[k],
                forall|k: int| i <= k < 20 ==> #[trigger] self.bytes@[k] == old(self).bytes@[k],
            decreases 20 - i,
        {
            let mixed: u8 = self.bytes[i] ^ digest[i];
            self.bytes[i] = mixed;
            i += 1;
        }
        assert(self.bytes@ =~= combine(old(self).bytes@, digest@));
    }

    /// The twenty bytes of the checksum.
    pub fn bytes(&self) -> (bytes: [u8; 20])
        ensures
            bytes@ == self@,
    {
        self.bytes
    }

    /// The checksum as the 40 hexadecimal digits under which a package is
    /// stored and locked.
    pub fn to_hex(&self) -> (text: String)
        ensures
            text@ == hex_of(self@),
            text@.len() == 40,
    {
        to_hex(self.bytes.as_slice())
    }
}

/// Starts the message of an entry: its tag, then the length of its path as
/// four bytes, then the path.
pub fn begin(path: &[u8], kind: u8) -> (message: Vec<u8>)
    ensures
        message@ == begin_message(path@, kind),
{
    let length: usize = path.len();
    let mut message: Vec<u8> = Vec::new();
    message.push(kind);
    message.push((length % 256) as u8);
    message.push(((length / 256) % 256) as u8);
    message.push(((length / 65536) % 256) as u8);
    message.push(((length / 16777216) % 256) as u8);
    message.extend_from_slice(path);
    assert(message@ =~= begin_message(path@, kind));
    message
}

/// Hashes a finished message and mixes the digest into the checksum.
fn put_message(checksum: &mut Checksum, message: &Vec<u8>)
    ensures
        final(checksum)@ == combine(old(checksum)@, digest_of(message@)),
{
    let digest = sha1_digest(message.as_slice());
    assert(digest@ =~= digest_of(message@));
    checksum.put(&digest);
}

/// Adds a regular file with the given content.
pub fn file(checksum: &mut Checksum, path: &[u8], content: &[u8])
    ensures
        final(checksum)@ == combine(
            old(checksum)@,
            digest_of(begin_message(path@, KIND_FILE) + content@),
        ),
{
    let mut message = begin(path, KIND_FILE);
    message.extend_from_slice(content);
    assert(message@ =~= begin_message(path@, KIND_FILE) + content@);
    put_message(checksum, &message);
}

/// Adds a symbolic link that points to `target`.
pub fn symlink(checksum: &mut Checksum, path: &[u8], target: &[u8])
    ensures
        final(checksum)@ == combine(
            old(checksum)@,
            digest_of(begin_message(path@, KIND_SYMLINK) + target@),
        ),
{
    let mut message = begin(path, KIND_SYMLINK);
    message.extend_from_slice(target);
    assert(message@ =~= begin_message(path@, KIND_SYMLINK) + target@);
    put_message(checksum, &message);
}

/// Adds a directory. Its children are added as entries of their own.
pub fn dir(checksum: &mut Checksum, path: &[u8])
    ensures
        final(checksum)@ == combine(old(checksum)@, digest_of(begin_message(path@, KIND_DIR))),
{
    let message = begin(path, KIND_DIR);
    put_message(checksum, &message);
}

/// Whether `error` is the refusal of `entry` for its unknown kind.
pub open spec fn refuses(error: LingoError, entry: EntryView) -> bool {
    error matches LingoError::UnsupportedFileType(path) && path@ == entry.path
}

/// Adds one entry. An entry of unknown kind is skipped where
/// `ignore_unknown_filetypes` is set and refused otherwise; the checksum is
/// then left as it was.
pub fn entry(checksum: &mut Checksum, item: &DirEntry, ignore_unknown_filetypes: bool) -> (result:
    Result<(), LingoError>)
    ensures
        result is Err <==> item.kind == EntryKind::Other && !ignore_unknown_filetypes,
        result is Ok ==> final(checksum)@ == combine(old(checksum)@, contribution(item@)),
        result matches Err(e) ==> final(checksum)@ == old(checksum)@ && refuses(e, item@),
{
    match item.kind {
        EntryKind::File => {
            file(checksum, item.path.as_slice(), item.content.as_slice());
            Ok(())
        },
        EntryKind::Symlink => {
            symlink(checksum, item.path.as_slice(), item.content.as_slice());
            Ok(())
        },
        EntryKind::Dir => {
            dir(checksum, item.path.as_slice());
            Ok(())
        },
        EntryKind::Other => {
            if ignore_unknown_filetypes {
                proof {
                    lemma_combine_zero(checksum@);
                }
                Ok(())
            } else {
                Err(LingoError::UnsupportedFileType(item.path.clone()))
            }
        },
    }
}

/// Whether every entry is a file, a link or a directory.
pub open spec fn all_supported(entries: Seq<EntryView>) -> bool {
    forall|i: int| 0 <= i < entries.len() ==> (#[trigger] entries[i]).kind != EntryKind::Other
}

/// The checksum of a directory tree whose entries were read in any order.
///
/// Fails exactly when an entry of unknown kind is met and such entries are
/// not to be ignored; the error names the first such entry, and no partial
/// checksum is returned.
pub fn checksum_current_dir(entries: &Vec<DirEntry>, ignore_unknown_filetypes: bool) -> (result:
    Result<Checksum, LingoError>)
    ensures
        result is Ok <==> ignore_unknown_filetypes || all_supported(entry_views(entries@)),
        result matches Ok(checksum) ==> checksum@ == checksum_of(entry_views(entries@)),
        result matches Err(e) ==> exists|i: int|
            0 <= i < entries@.len() && (#[trigger] entries@[i]).kind == EntryKind::Other && refuses(
                e,
                entries@[i]@,
            ) && all_supported(entry_views(entries@).take(i)),
{
    let mut checksum = Checksum::new();
    let ghost views = entry_views(entries@);
    let mut i: usize = 0;
    while i < entries.len()
        invariant
            i <= entries@.len(),
            views == entry_views(entries@),
            checksum@ == checksum_of(views.take(i as int)),
            ignore_unknown_filetypes || all_supported(views.take(i as int)),
        decreases entries@.len() - i,
    {
        match entry(&mut checksum, &entries[i], ignore_unknown_filetypes) {
            Ok(()) => {},
            Err(e) => {
                assert(views[i as int].kind == EntryKind::Other);
                assert(!ignore_unknown_filetypes);
                return Err(e);
            },
        }
        proof {
            let next = views.take(i + 1);
            assert(next.drop_last() =~= views.take(i as int));
            assert(next.last() == entries@[i as int]@);
        }
        i += 1;
    }
    assert(views.take(i as int) =~= views);
    Ok(checksum)
}

/// XOR with the zero digest changes nothing.
pub proof fn lemma_combine_zero(sum: Seq<u8>)
    requires
        sum.len() == 20,
    ensures
        combine(sum, zero_digest()) == sum,
{
    assert forall|i: int| 0 <= i < 20 implies #[trigger] combine(sum, zero_digest())[i] == sum[i] by {
        let x = sum[i];
        assert(x ^ 0u8 == x) by (bit_vector);
    }
    assert(combine(sum, zero_digest()) =~= sum);
}

/// The function that folds the entries of a tree into its checksum.
pub open spec fn mix() -> spec_fn(Seq<u8>, EntryView) -> Seq<u8> {
    |sum: Seq<u8>, entry: EntryView| combine(sum, contribution(entry))
}

/// Mixing two digests into a sum gives the same in either order.
proof fn lemma_combine_commutes(sum: Seq<u8>, first: Seq<u8>, second: Seq<u8>)
    ensures
        combine(combine(sum, first), second) == combine(combine(sum, second), first),
{
    assert forall|i: int| 0 <= i < 20 implies #[trigger] combine(combine(sum, first), second)[i]
        == combine(combine(sum, second), first)[i] by {
        let s = sum[i];
        let a = first[i];
        let b = second[i];
        assert((s ^ a) ^ b == (s ^ b) ^ a) by (bit_vector);
    }
    assert(combine(combine(sum, first), second) =~= combine(combine(sum, second), first));
}

/// Two digests that give the same sum when mixed into one are the same.
proof fn lemma_combine_cancels(sum: Seq<u8>, first: Seq<u8>, second: Seq<u8>)
    requires
        first.len() == 20,
        second.len() == 20,
        combine(sum, first) == combine(sum, second),
    ensures
        first == second,
{
    assert forall|i: int| 0 <= i < 20 implies first[i] == second[i] by {
        let s = sum[i];
        let a = first[i];
        let b = second[i];
        assert(combine(sum, first)[i] == s ^ a);
        assert(combine(sum, second)[i] == s ^ b);
        assert(s ^ a == s ^ b ==> a == b) by (bit_vector);
    }
    assert(first =~= second);
}

/// The checksum of a tree with one more entry.
proof fn lemma_checksum_push(entries: Seq<EntryView>, entry: EntryView)
    ensures
        checksum_of(entries.push(entry)) == combine(checksum_of(entries), contribution(entry)),
{
    assert(entries.push(entry).drop_last() =~= entries);
}

/// Reading order does not matter: two listings that hold the same entries,
/// each as often as the other, have the same checksum.
pub proof fn lemma_checksum_ignores_order(first: Seq<EntryView>, second: Seq<EntryView>)
    requires
        first.to_multiset() == second.to_multiset(),
    ensures
        checksum_of(first) == checksum_of(second),
{
    assert(commutative_foldl(mix())) by {
        assert forall|x: EntryView, y: EntryView, sum: Seq<u8>| #[trigger]
            mix()(mix()(sum, x), y) == mix()(mix()(sum, y), x) by {
            lemma_combine_commutes(sum, contribution(x), contribution(y));
        }
    }
    lemma_fold_left_permutation(first, second, mix(), zero_digest());
}

/// Replacing one entry changes the checksum exactly when the replacement adds
/// something else than the entry did: another digest for a file, a link or a
/// directory, of which each covers the kind, the path and the content.
pub proof fn lemma_checksum_detects_change(entries: Seq<EntryView>, i: int, replacement: EntryView)
    requires
        0 <= i < entries.len(),
    ensures
        checksum_of(entries.update(i, replacement)) == checksum_of(entries) <==> contribution(
            replacement,
        ) == contribution(entries[i]),
{
    let rest = entries.remove(i);
    assert(rest.push(entries[i]).to_multiset() == entries.to_multiset()) by {
        to_multiset_build(rest, entries[i]);
        to_multiset_remove(entries, i);
        entries.to_multiset_ensures();
        assert(rest.push(entries[i]).to_multiset() =~= entries.to_multiset());
    }
    let changed = entries.update(i, replacement);
    assert(changed.remove(i) =~= rest);
    assert(rest.push(replacement).to_multiset() == changed.to_multiset()) by {
        to_multiset_build(rest, replacement);
        to_multiset_remove(changed, i);
        changed.to_multiset_ensures();
        assert(rest.push(replacement).to_multiset() =~= changed.to_multiset());
    }
    lemma_checksum_ignores_order(rest.push(entries[i]), entries);
    lemma_checksum_ignores_order(rest.push(replacement), changed);
    lemma_checksum_push(rest, entries[i]);
    lemma_checksum_push(rest, replacement);
    if checksum_of(changed) == checksum_of(entries) {
        lemma_combine_cancels(checksum_of(rest), contribution(replacement), contribution(entries[i]));
    }
}

} // verus!
