use vstd::prelude::*;

verus! {

/// The lower-case hexadecimal digit for a value below sixteen.
pub open spec fn hex_digit(n: nat) -> char {
    seq!['0', '1', '2', '3', '4', '5', '6', '7', '8', '9', 'a', 'b', 'c', 'd', 'e', 'f'][n as int]
}

/// Bytes written as hexadecimal text: two lower-case digits per byte, the
/// high half first.
pub open spec fn hex_text(b: Seq<u8>) -> Seq<char>
    decreases b.len(),
{
    if b.len() == 0 {
        seq![]
    } else {
        hex_text(b.drop_last()) + seq![
            hex_digit((b.last() / 16) as nat),
            hex_digit((b.last() % 16) as nat),
        ]
    }
}

/// The SHA-1 digest of some bytes.
pub uninterp spec fn sha1_of(data: Seq<u8>) -> Seq<u8>;

/// The ASCII decimal digits of a number, without leading zeros.
pub open spec fn decimal(n: nat) -> Seq<u8>
    decreases n,
{
    if n < 10 {
        seq![(48 + n) as u8]
    } else {
        decimal(n / 10).push((48 + n % 10) as u8)
    }
}

/// What git hashes for a blob: `blob `, the size in decimal, a zero byte,
/// then the contents.
pub open spec fn blob_bytes(contents: Seq<u8>) -> Seq<u8> {
    seq![98u8, 108u8, 111u8, 98u8, 32u8] + decimal(contents.len()) + seq![0u8] + contents
}

/// The hash that git gives a file with these contents.
pub open spec fn git_hash_of(contents: Seq<u8>) -> Seq<char> {
    hex_text(sha1_of(blob_bytes(contents)))
}

/// Relies on `hex::encode`: each byte becomes two lower-case hexadecimal
/// digits, the high half first.
#[verifier::external_body]
fn to_hex(b: &[u8]) -> (r: String)
    ensures
        r@ == hex_text(b@),
{
    hex::encode(b)
}

/// Relies on `sha1::Sha1` through `digest::Digest::digest`: the SHA-1 digest
/// of the data, twenty bytes long.
#[verifier::external_body]
fn sha1_digest(data: &[u8]) -> (r: Vec<u8>)
    ensures
        r@ == sha1_of(data@),
        r@.len() == 20,
{
    <sha1::Sha1 as sha1::Digest>::digest(data).to_vec()
}

/// The ASCII decimal digits of `n`.
pub fn decimal_bytes(n: usize) -> (r: Vec<u8>)
    ensures
        r@ == decimal(n as nat),
    decreases n,
{
    if n < 10 {
        let mut v: Vec<u8> = Vec::new();
        v.push((48 + n) as u8);
        assert(v@ =~= decimal(n as nat));
        v
    } else {
        let mut v = decimal_bytes(n / 10);
        v.push((48 + n % 10) as u8);
        v
    }
}

/// The bytes that git hashes for a blob with these contents.
pub fn blob_header_and_contents(contents: &[u8]) -> (r: Vec<u8>)
    ensures
        r@ == blob_bytes(contents@),
{
    let mut out: Vec<u8> = Vec::new();
    out.push(98u8);
    out.push(108u8);
    out.push(111u8);
    out.push(98u8);
    out.push(32u8);
    let digits = decimal_bytes(contents.len());
    let mut i: usize = 0;
    while i < digits.len()
        invariant
            i <= digits@.len(),
            out@ == seq![98u8, 108u8, 111u8, 98u8, 32u8] + digits@.subrange(0, i as int),
        decreases digits@.len() - i,
    {
        out.push(digits[i]);
        assert(out@ =~= seq![98u8, 108u8, 111u8, 98u8, 32u8] + digits@.subrange(0, i + 1));
        i = i + 1;
    }
    assert(digits@.subrange(0, i as int) =~= digits@);
    out.push(0u8);
    let ghost head = out@;
    let mut j: usize = 0;
    while j < contents.len()
        invariant
            j <= contents@.len(),
            out@ == head + contents@.subrange(0, j as int),
        decreases contents@.len() - j,
    {
        out.push(contents[j]);
        assert(out@ =~= head + contents@.subrange(0, j + 1));
        j = j + 1;
    }
    assert(contents@.subrange(0, j as int) =~= contents@);
    assert(out@ =~= blob_bytes(contents@));
    out
}

/// The git blob hash of some contents, as forty hexadecimal digits: the
/// SHA-1 of `blob <size>\0<contents>`.
pub fn git_like_hash(contents: &[u8]) -> (r: String)
    ensures
        r@ == git_hash_of(contents@),
{
    let bytes = blob_header_and_contents(contents);
    let digest = sha1_digest(bytes.as_slice());
    to_hex(digest.as_slice())
}

/// Why a file could not be read.
#[derive(PartialEq, Eq, Structural, Clone, Copy, Debug)]
pub enum ReadErrorKind {
    NotFound,
    IsADirectory,
    Other,
}

/// The outcome of reading one file: its contents or why it failed.
#[derive(Debug)]
pub enum FileRead {
    Contents(Vec<u8>),
    Failed(ReadErrorKind),
}

/// A file to hash, named by its path relative to the root, with what
/// reading it gave.
#[derive(Debug)]
pub struct FileToHash {
    pub path: String,
    pub read: FileRead,
}

/// A failure to hash: the file's path and why it could not be read.
#[derive(Debug)]
pub struct HashError {
    pub path: String,
    pub kind: ReadErrorKind,
}

/// File hashes by relative path; a later entry for a path replaces an
/// earlier one.
#[derive(Debug)]
pub struct GitHashes {
    pub entries: Vec<(String, String)>,
}

/// The map that a list of (path, hash) entries stands for.
pub open spec fn entries_map(s: Seq<(String, String)>) -> Map<Seq<char>, Seq<char>>
    decreases s.len(),
{
    if s.len() == 0 {
        Map::empty()
    } else {
        entries_map(s.drop_last()).insert(s.last().0@, s.last().1@)
    }
}

impl View for GitHashes {
    type V = Map<Seq<char>, Seq<char>>;

    open spec fn view(&self) -> Map<Seq<char>, Seq<char>> {
        entries_map(self.entries@)
    }
}

/// What hashing the files gives: each file's hash by path, or the first file
/// that could not be read, where a missing file is skipped when
/// `allow_missing` is set.
pub open spec fn hash_all(files: Seq<FileToHash>, allow_missing: bool) -> Result<
    Map<Seq<char>, Seq<char>>,
    (Seq<char>, ReadErrorKind),
>
    decreases files.len(),
{
    if files.len() == 0 {
        Ok(Map::empty())
    } else {
        match hash_all(files.drop_last(), allow_missing) {
            Err(e) => Err(e),
            Ok(m) => {
                let f = files.last();
                match f.read {
                    FileRead::Contents(c) => Ok(m.insert(f.path@, git_hash_of(c@))),
                    FileRead::Failed(kind) => if kind == ReadErrorKind::NotFound && allow_missing {
                        Ok(m)
                    } else {
                        Err((f.path@, kind))
                    },
                }
            },
        }
    }
}

impl GitHashes {
    pub fn new() -> (r: Self)
        ensures
            r@ == Map::<Seq<char>, Seq<char>>::empty(),
    {
        GitHashes { entries: Vec::new() }
    }

    /// The hash recorded for `path`, if any.
    pub fn get(&self, path: &String) -> (r: Option<String>)
        ensures
            r matches Some(h) ==> self@.contains_key(path@) && self@[path@] == h@,
            r is None ==> !self@.contains_key(path@),
    {
        let mut i: usize = self.entries.len();
        assert(self.entries@.subrange(0, i as int) =~= self.entries@);
        while i > 0
            invariant
                i <= self.entries@.len(),
                entries_map(self.entries@).contains_key(path@) == entries_map(
                    self.entries@.subrange(0, i as int),
                ).contains_key(path@),
                entries_map(self.entries@).contains_key(path@) ==> entries_map(self.entries@)[path@]
                    == entries_map(self.entries@.subrange(0, i as int))[path@],
            decreases i,
        {
            let ghost pre = self.entries@.subrange(0, i as int);
            assert(pre.drop_last() =~= self.entries@.subrange(0, i - 1));
            assert(pre.last() == self.entries@[i - 1]);
            if self.entries[i - 1].0 == *path {
                return Some(self.entries[i - 1].1.clone());
            }
            i = i - 1;
        }
        None
    }
}

/// Hashes files that have been read: each readable file gets its git blob
/// hash under its path; a missing file is skipped when `allow_missing` is
/// set; any other failure, or a missing file otherwise, ends the work with
/// that file's error.
pub fn hash_files(files: Vec<FileToHash>, allow_missing: bool) -> (r: Result<GitHashes, HashError>)
    ensures
        match hash_all(files@, allow_missing) {
            Ok(m) => r matches Ok(h) && h@ == m,
            Err((p, kind)) => r matches Err(e) && e.path@ == p && e.kind == kind,
        },
{
    let mut hashes = GitHashes::new();
    let mut i: usize = 0;
    while i < files.len()
        invariant
            i <= files@.len(),
            hash_all(files@.subrange(0, i as int), allow_missing) == Ok::<
                Map<Seq<char>, Seq<char>>,
                (Seq<char>, ReadErrorKind),
            >(hashes@),
        decreases files@.len() - i,
    {
        let f = &files[i];
        let ghost pre = files@.subrange(0, i + 1);
        assert(pre.drop_last() =~= files@.subrange(0, i as int));
        assert(pre.last() == files@[i as int]);
        match &f.read {
            FileRead::Contents(c) => {
                let h = git_like_hash(c.as_slice());
                let ghost old_entries = hashes.entries@;
                hashes.entries.push((f.path.clone(), h));
                assert(hashes.entries@.drop_last() =~= old_entries);
            },
            FileRead::Failed(kind) => {
                if !(*kind == ReadErrorKind::NotFound && allow_missing) {
                    proof {
                        assert(hash_all(pre, allow_missing) == Err::<
                            Map<Seq<char>, Seq<char>>,
                            (Seq<char>, ReadErrorKind),
                        >((f.path@, *kind)));
                        lemma_hash_all_err_sticks(files@, i + 1, allow_missing);
                    }
                    assert(files@.subrange(0, files@.len() as int) =~= files@);
                    return Err(HashError { path: f.path.clone(), kind: *kind });
                }
            },
        }
        i = i + 1;
    }
    assert(files@.subrange(0, i as int) =~= files@);
    Ok(hashes)
}

/// Once a prefix of the files fails, every longer prefix fails the same way.
proof fn lemma_hash_all_err_sticks(files: Seq<FileToHash>, k: int, allow_missing: bool)
    requires
        0 <= k <= files.len(),
        hash_all(files.subrange(0, k), allow_missing) is Err,
    ensures
        hash_all(files, allow_missing) == hash_all(files.subrange(0, k), allow_missing),
    decreases files.len() - k,
{
    if k < files.len() {
        let pre = files.subrange(0, k + 1);
        assert(pre.drop_last() =~= files.subrange(0, k));
        lemma_hash_all_err_sticks(files, k + 1, allow_missing);
    } else {
        assert(files.subrange(0, k) =~= files);
    }
}

} // verus!
