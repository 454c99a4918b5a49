//! Deciding which files a scan reports: audio files by extension, the
//! scan's errors, and the order of the result (sorted by path, without
//! repeats). Reading the file system is left to the caller, which describes
//! what it found as `ScanInput`s.
use vstd::prelude::*;

use crate::order::{
    bytes_order, chains, compare_bytes, compare_u64, int_order, lemma_bytes_chains,
    lemma_int_chains, lemma_then_chains, reversed, then, then_order, Order,
};
use crate::positions::{permute, sort_positions};
use crate::text::{ascii_lower, chars_of, lower_ascii};

verus! {

/// One component of a path (`std::path::Component`): a Windows prefix,
/// the root, `.`, `..`, or a name (its bytes).
///
/// A prefix is held as `std::path::Prefix` orders it: the number of its
/// kind (`Verbatim`, `VerbatimUNC`, `VerbatimDisk`, `DeviceNS`, `UNC`,
/// `Disk`, in that order), then its first and its second part (a disk is
/// the byte of its letter; a missing part is empty).
#[derive(Debug, Clone, PartialEq, Eq)]
pub enum PathPart {
    Prefix { kind: u8, first: Vec<u8>, second: Vec<u8> },
    RootDir,
    CurDir,
    ParentDir,
    Normal(Vec<u8>),
}

/// A file a scan may report: its path, as components, and the number by
/// which the caller knows it.
#[derive(Debug, Clone)]
pub struct FoundFile {
    pub parts: Vec<PathPart>,
    pub id: usize,
}

/// An entry met while listing a directory: the file, whether it is a
/// regular file, and its extension (when it has one that is valid text).
#[derive(Debug, Clone)]
pub struct ScanEntry {
    pub file: FoundFile,
    pub is_file: bool,
    pub extension: Option<String>,
}

/// What the caller found at one of the paths it was asked to scan (the
/// number is the path's, for error messages): a file, a directory and the
/// entries listed under it, a directory that could not be read, or nothing.
pub enum ScanInput {
    File { id: usize, file: FoundFile, extension: Option<String> },
    Directory { id: usize, entries: Vec<ScanEntry> },
    Unreadable { id: usize },
    Missing { id: usize },
}

/// Why a scan failed, with the number of the path it failed on.
#[derive(Debug, Clone, Copy, PartialEq, Eq, Structural)]
pub enum ScanError {
    UnsupportedFormat(usize),
    Unreadable(usize),
    Missing(usize),
}

/// The extensions of audio files, compared ignoring ASCII case.
pub open spec fn is_audio_ext(ext: Option<Seq<char>>) -> bool {
    match ext {
        Some(e) => {
            let l = ascii_lower(e);
            ||| l == seq!['m', 'p', '3']
            ||| l == seq!['w', 'a', 'v']
            ||| l == seq!['f', 'l', 'a', 'c']
            ||| l == seq!['a', 'i', 'f', 'f']
            ||| l == seq!['a', 'i', 'f']
            ||| l == seq!['o', 'g', 'g']
        },
        None => false,
    }
}

pub open spec fn ext_text(ext: Option<String>) -> Option<Seq<char>> {
    match ext {
        Some(e) => Some(e@),
        None => None,
    }
}

/// Whether a file with this extension is an audio file (`is_audio_ext`).
pub fn is_audio_file(extension: Option<&str>) -> (r: bool)
    ensures
        r == is_audio_ext(
            match extension {
                Some(e) => Some(e@),
                None => None,
            },
        ),
{
    match extension {
        Some(ext) => {
            let chars = chars_of(ext);
            let l = lower_ascii(chars.as_slice());
            let n = l.len();
            if n == 3 {
                assert(l@ == seq![l@[0], l@[1], l@[2]]);
                (l[0] == 'm' && l[1] == 'p' && l[2] == '3') || (l[0] == 'w' && l[1] == 'a' && l[2]
                    == 'v') || (l[0] == 'a' && l[1] == 'i' && l[2] == 'f') || (l[0] == 'o' && l[1]
                    == 'g' && l[2] == 'g')
            } else if n == 4 {
                assert(l@ == seq![l@[0], l@[1], l@[2], l@[3]]);
                (l[0] == 'f' && l[1] == 'l' && l[2] == 'a' && l[3] == 'c') || (l[0] == 'a' && l[1]
                    == 'i' && l[2] == 'f' && l[3] == 'f')
            } else {
                false
            }
        },
        None => false,
    }
}

/// The order of component kinds (`Component`'s derived order).
pub open spec fn part_rank(p: PathPart) -> int {
    match p {
        PathPart::Prefix { .. } => 0,
        PathPart::RootDir => 1,
        PathPart::CurDir => 2,
        PathPart::ParentDir => 3,
        PathPart::Normal(_) => 4,
    }
}

/// The order of two prefixes: by kind, then first part, then second part.
pub open spec fn prefix_order(k1: u8, f1: Seq<u8>, s1: Seq<u8>, k2: u8, f2: Seq<u8>, s2: Seq<u8>) -> Order {
    then_order(int_order(k1 as int, k2 as int), then_order(bytes_order(f1, f2), bytes_order(s1, s2)))
}

/// The order of two components: by kind, then prefixes by their parts
/// and names by their bytes.
pub open spec fn part_order(a: PathPart, b: PathPart) -> Order {
    match (a, b) {
        (PathPart::Normal(x), PathPart::Normal(y)) => bytes_order(x@, y@),
        (
            PathPart::Prefix { kind: k1, first: f1, second: s1 },
            PathPart::Prefix { kind: k2, first: f2, second: s2 },
        ) => prefix_order(k1, f1@, s1@, k2, f2@, s2@),
        _ => int_order(part_rank(a), part_rank(b)),
    }
}

/// The order of two paths: component by component (`Path`'s order).
pub open spec fn path_order(a: Seq<PathPart>, b: Seq<PathPart>) -> Order
    decreases a.len(),
{
    if a.len() == 0 {
        if b.len() == 0 {
            Order::Equal
        } else {
            Order::Less
        }
    } else if b.len() == 0 {
        Order::Greater
    } else {
        then_order(part_order(a[0], b[0]), path_order(a.drop_first(), b.drop_first()))
    }
}

proof fn lemma_prefix_chains(
    k1: u8,
    f1: Seq<u8>,
    s1: Seq<u8>,
    k2: u8,
    f2: Seq<u8>,
    s2: Seq<u8>,
    k3: u8,
    f3: Seq<u8>,
    s3: Seq<u8>,
)
    ensures
        chains(
            prefix_order(k1, f1, s1, k2, f2, s2),
            prefix_order(k2, f2, s2, k3, f3, s3),
            prefix_order(k1, f1, s1, k3, f3, s3),
        ),
        prefix_order(k1, f1, s1, k2, f2, s2) == reversed(prefix_order(k2, f2, s2, k1, f1, s1)),
{
    lemma_int_chains(k1 as int, k2 as int, k3 as int);
    lemma_bytes_chains(f1, f2, f3);
    lemma_bytes_chains(s1, s2, s3);
    lemma_then_chains(
        bytes_order(f1, f2),
        bytes_order(f2, f3),
        bytes_order(f1, f3),
        bytes_order(s1, s2),
        bytes_order(s2, s3),
        bytes_order(s1, s3),
    );
    lemma_then_chains(
        int_order(k1 as int, k2 as int),
        int_order(k2 as int, k3 as int),
        int_order(k1 as int, k3 as int),
        then_order(bytes_order(f1, f2), bytes_order(s1, s2)),
        then_order(bytes_order(f2, f3), bytes_order(s2, s3)),
        then_order(bytes_order(f1, f3), bytes_order(s1, s3)),
    );
}

proof fn lemma_part_chains(a: PathPart, b: PathPart, c: PathPart)
    ensures
        chains(part_order(a, b), part_order(b, c), part_order(a, c)),
        part_order(a, b) == reversed(part_order(b, a)),
{
    lemma_int_chains(part_rank(a), part_rank(b), part_rank(c));
    match (a, b, c) {
        (PathPart::Normal(x), PathPart::Normal(y), PathPart::Normal(z)) => {
            lemma_bytes_chains(x@, y@, z@);
        },
        (PathPart::Normal(x), PathPart::Normal(y), _) => {
            lemma_bytes_chains(x@, y@, y@);
        },
        _ => {},
    }
    match (a, b) {
        (
            PathPart::Prefix { kind: k1, first: f1, second: s1 },
            PathPart::Prefix { kind: k2, first: f2, second: s2 },
        ) => {
            match c {
                PathPart::Prefix { kind: k3, first: f3, second: s3 } => {
                    lemma_prefix_chains(k1, f1@, s1@, k2, f2@, s2@, k3, f3@, s3@);
                },
                _ => {
                    lemma_prefix_chains(k1, f1@, s1@, k2, f2@, s2@, k2, f2@, s2@);
                },
            }
        },
        _ => {},
    }
}

proof fn lemma_path_chains(a: Seq<PathPart>, b: Seq<PathPart>, c: Seq<PathPart>)
    ensures
        chains(path_order(a, b), path_order(b, c), path_order(a, c)),
        path_order(a, b) == reversed(path_order(b, a)),
    decreases a.len(),
{
    if a.len() > 0 && b.len() > 0 {
        if c.len() > 0 {
            lemma_part_chains(a[0], b[0], c[0]);
            lemma_path_chains(a.drop_first(), b.drop_first(), c.drop_first());
            lemma_then_chains(
                part_order(a[0], b[0]),
                part_order(b[0], c[0]),
                part_order(a[0], c[0]),
                path_order(a.drop_first(), b.drop_first()),
                path_order(b.drop_first(), c.drop_first()),
                path_order(a.drop_first(), c.drop_first()),
            );
        } else {
            lemma_part_chains(a[0], b[0], b[0]);
            lemma_path_chains(a.drop_first(), b.drop_first(), b.drop_first());
        }
    }
}


/// The audio files among the entries of a directory, in listing order.
pub open spec fn audio_entries(es: Seq<ScanEntry>) -> Seq<FoundFile>
    decreases es.len(),
{
    if es.len() == 0 {
        Seq::<FoundFile>::empty()
    } else {
        let rest = audio_entries(es.drop_last());
        let e = es.last();
        if e.is_file && is_audio_ext(ext_text(e.extension)) {
            rest.push(e.file)
        } else {
            rest
        }
    }
}

/// What one scanned path contributes: an audio file itself, the audio
/// files listed under a directory, or an error (a file that is not audio,
/// a directory that could not be read, a path where nothing is).
pub open spec fn input_files(i: ScanInput) -> Result<Seq<FoundFile>, ScanError> {
    match i {
        ScanInput::File { id, file, extension } => if is_audio_ext(ext_text(extension)) {
            Ok(seq![file])
        } else {
            Err(ScanError::UnsupportedFormat(id))
        },
        ScanInput::Directory { id: _, entries } => Ok(audio_entries(entries@)),
        ScanInput::Unreadable { id } => Err(ScanError::Unreadable(id)),
        ScanInput::Missing { id } => Err(ScanError::Missing(id)),
    }
}

/// The files of all scanned paths in order, or the first error.
pub open spec fn collected(inputs: Seq<ScanInput>) -> Result<Seq<FoundFile>, ScanError>
    decreases inputs.len(),
{
    if inputs.len() == 0 {
        Ok(Seq::<FoundFile>::empty())
    } else {
        match collected(inputs.drop_last()) {
            Err(e) => Err(e),
            Ok(fs) => match input_files(inputs.last()) {
                Err(e) => Err(e),
                Ok(more) => Ok(fs + more),
            },
        }
    }
}


/// The error that one scanned path stops a scan with, if any (`input_files`).
pub fn input_error(input: &ScanInput) -> (r: Option<ScanError>)
    ensures
        r == (match input_files(*input) {
            Err(e) => Some(e),
            Ok(_) => None::<ScanError>,
        }),
{
    match input {
        ScanInput::File { id, file: _, extension } => {
            let audio = match extension {
                Some(e) => is_audio_file(Some(e.as_str())),
                None => is_audio_file(None),
            };
            if audio {
                None
            } else {
                Some(ScanError::UnsupportedFormat(*id))
            }
        },
        ScanInput::Directory { .. } => None,
        ScanInput::Unreadable { id } => Some(ScanError::Unreadable(*id)),
        ScanInput::Missing { id } => Some(ScanError::Missing(*id)),
    }
}

/// Adds what one scanned path contributes (`input_files`).
fn collect_path(input: ScanInput, files: &mut Vec<FoundFile>) -> (r: Result<(), ScanError>)
    ensures
        match input_files(input) {
            Ok(more) => r is Ok && final(files)@ == old(files)@ + more,
            Err(e) => r == Err::<(), ScanError>(e) && final(files)@ == old(files)@,
        },
{
    match input {
        ScanInput::File { id, file, extension } => {
            let audio = match &extension {
                Some(e) => is_audio_file(Some(e.as_str())),
                None => is_audio_file(None),
            };
            if audio {
                files.push(file);
                assert(files@ == old(files)@ + seq![file]);
                Ok(())
            } else {
                Err(ScanError::UnsupportedFormat(id))
            }
        },
        ScanInput::Directory { id: _, entries } => {
            let ghost es = entries@;
            let ghost base = files@;
            for e in it: entries
                invariant
                    it.seq() == es,
                    files@ == base + audio_entries(es.take(it.index() as int)),
            {
                let ghost k = it.index();
                assert(es.take(k + 1).drop_last() == es.take(k as int));
                assert(es[k as int] == e);
                let audio = match &e.extension {
                    Some(x) => is_audio_file(Some(x.as_str())),
                    None => is_audio_file(None),
                };
                if e.is_file && audio {
                    files.push(e.file);
                }
            }
            assert(es.take(es.len() as int) == es);
            Ok(())
        },
        ScanInput::Unreadable { id } => Err(ScanError::Unreadable(id)),
        ScanInput::Missing { id } => Err(ScanError::Missing(id)),
    }
}


/// File `i` of `fs` comes before file `j` in a scan's result: its path is
/// ordered before, or the paths are the same and it was found first.
pub open spec fn file_before(fs: Seq<FoundFile>, i: int, j: int) -> bool {
    path_order(fs[i].parts@, fs[j].parts@) == Order::Less || (path_order(fs[i].parts@, fs[j].parts@)
        == Order::Equal && i < j)
}

/// `p` lists the positions of `fs` in path order, each once.
pub open spec fn is_path_order(fs: Seq<FoundFile>, p: Seq<usize>) -> bool {
    &&& p.len() == fs.len()
    &&& forall|k: int| 0 <= k < p.len() ==> #[trigger] p[k] < fs.len()
    &&& forall|k: int, l: int|
        0 <= k < l < p.len() ==> file_before(fs, #[trigger] p[k] as int, #[trigger] p[l] as int)
}

/// The files of `fs` at the positions `p`, in that order.
pub open spec fn files_at(fs: Seq<FoundFile>, p: Seq<usize>) -> Seq<FoundFile> {
    p.map_values(|x: usize| fs[x as int])
}

/// `Vec::dedup` by path: each file is dropped when its path is the path of
/// the last file kept.
pub open spec fn dedup_paths(s: Seq<FoundFile>) -> Seq<FoundFile>
    decreases s.len(),
{
    if s.len() == 0 {
        s
    } else {
        let d = dedup_paths(s.drop_last());
        if d.len() > 0 && path_order(d.last().parts@, s.last().parts@) == Order::Equal {
            d
        } else {
            d.push(s.last())
        }
    }
}

proof fn lemma_file_before(fs: Seq<FoundFile>, i: int, j: int, k: int)
    requires
        0 <= i < fs.len(),
        0 <= j < fs.len(),
        0 <= k < fs.len(),
    ensures
        !file_before(fs, i, i),
        i != j ==> file_before(fs, i, j) || file_before(fs, j, i),
        file_before(fs, i, j) && file_before(fs, j, k) ==> file_before(fs, i, k),
{
    lemma_path_chains(fs[i].parts@, fs[j].parts@, fs[k].parts@);
    lemma_path_chains(fs[i].parts@, fs[i].parts@, fs[i].parts@);
}

fn compare_parts(a: &PathPart, b: &PathPart) -> (r: Order)
    ensures
        r == part_order(*a, *b),
{
    match (a, b) {
        (PathPart::Normal(x), PathPart::Normal(y)) => compare_bytes(x.as_slice(), y.as_slice()),
        (
            PathPart::Prefix { kind: k1, first: f1, second: s1 },
            PathPart::Prefix { kind: k2, first: f2, second: s2 },
        ) => then(
            compare_u64(*k1 as u64, *k2 as u64),
            then(
                compare_bytes(f1.as_slice(), f2.as_slice()),
                compare_bytes(s1.as_slice(), s2.as_slice()),
            ),
        ),
        _ => compare_u64(rank_of(a), rank_of(b)),
    }
}

fn rank_of(p: &PathPart) -> (r: u64)
    ensures
        r == part_rank(*p),
{
    match p {
        PathPart::Prefix { .. } => 0,
        PathPart::RootDir => 1,
        PathPart::CurDir => 2,
        PathPart::ParentDir => 3,
        PathPart::Normal(_) => 4,
    }
}

/// Compares two paths component by component (`path_order`).
fn compare_paths(a: &Vec<PathPart>, b: &Vec<PathPart>) -> (r: Order)
    ensures
        r == path_order(a@, b@),
{
    let mut i: usize = 0;
    assert(a@.skip(0) == a@);
    assert(b@.skip(0) == b@);
    while i < a.len() && i < b.len()
        invariant
            i <= a@.len(),
            i <= b@.len(),
            path_order(a@, b@) == path_order(a@.skip(i as int), b@.skip(i as int)),
        decreases a@.len() - i,
    {
        let o = compare_parts(&a[i], &b[i]);
        assert(a@.skip(i as int)[0] == a@[i as int]);
        assert(b@.skip(i as int)[0] == b@[i as int]);
        assert(a@.skip(i as int).drop_first() == a@.skip(i + 1));
        assert(b@.skip(i as int).drop_first() == b@.skip(i + 1));
        match o {
            Order::Equal => {},
            _ => return o,
        }
        i = i + 1;
    }
    if i == a.len() {
        if i == b.len() {
            Order::Equal
        } else {
            Order::Less
        }
    } else {
        Order::Greater
    }
}

/// `r` is what a scan of `inputs` reports: the first error, or the files
/// of all scanned paths sorted by path (files with the same path keep the
/// order in which they were found) and without repeated paths.
pub open spec fn scan_result(inputs: Seq<ScanInput>, r: Result<Vec<FoundFile>, ScanError>) -> bool {
    match collected(inputs) {
        Err(e) => r == Err::<Vec<FoundFile>, ScanError>(e),
        Ok(fs) => r matches Ok(out) && exists|p: Seq<usize>|
            is_path_order(fs, p) && out@ == dedup_paths(#[trigger] files_at(fs, p)),
    }
}

/// The files a scan reports: the files of all scanned paths (or the
/// first error), sorted by path (files with the same path keep the order
/// in which they were found) and without repeated paths.
pub fn discover_audio_files(inputs: Vec<ScanInput>) -> (r: Result<Vec<FoundFile>, ScanError>)
    ensures
        scan_result(inputs@, r),
{
    let ghost ins = inputs@;
    let mut files: Vec<FoundFile> = Vec::new();
    for input in it: inputs
        invariant
            it.seq() == ins,
            collected(ins.take(it.index() as int)) == Ok::<Seq<FoundFile>, ScanError>(files@),
    {
        let ghost k = it.index();
        assert(ins.take(k + 1).drop_last() == ins.take(k as int));
        assert(ins[k as int] == input);
        match collect_path(input, &mut files) {
            Ok(()) => {},
            Err(e) => {
                proof {
                    lemma_collected_error(ins, k + 1);
                }
                let r: Result<Vec<FoundFile>, ScanError> = Err(e);
                assert(scan_result(ins, r));
                return r;
            },
        }
    }
    assert(ins.take(ins.len() as int) == ins);
    let ghost fs = files@;
    assert(collected(ins) == Ok::<Seq<FoundFile>, ScanError>(fs));
    let n = files.len();
    let ghost rel = |i: int, j: int| file_before(fs, i, j);
    proof {
        assert forall|i: int| 0 <= i < n implies !#[trigger] rel(i, i) by {
            lemma_file_before(fs, i, i, i);
        }
        assert forall|i: int, j: int|
            0 <= i < n && 0 <= j < n && i != j implies #[trigger] rel(i, j) || #[trigger] rel(
            j,
            i,
        ) by {
            lemma_file_before(fs, i, j, j);
        }
        assert forall|i: int, j: int, k: int|
            0 <= i < n && 0 <= j < n && 0 <= k < n && #[trigger] rel(i, j) && #[trigger] rel(
                j,
                k,
            ) implies rel(i, k) by {
            lemma_file_before(fs, i, j, k);
        }
    }
    let found: &Vec<FoundFile> = &files;
    let before = |i: usize, j: usize| -> (r: bool)
        requires
            i < found@.len(),
            j < found@.len(),
        ensures
            r == file_before(found@, i as int, j as int),
        {
            match compare_paths(&found[i].parts, &found[j].parts) {
                Order::Less => true,
                Order::Equal => i < j,
                Order::Greater => false,
            }
        };
    let order = sort_positions(&before, n, Ghost(rel));
    let sorted = permute(files, &order);
    let ghost ss = sorted@;
    assert(is_path_order(fs, order@));
    let mut out: Vec<FoundFile> = Vec::new();
    for f in it: sorted
        invariant
            it.seq() == ss,
            out@ == dedup_paths(ss.take(it.index() as int)),
    {
        let ghost k = it.index();
        assert(ss.take(k + 1).drop_last() == ss.take(k as int));
        assert(ss[k as int] == f);
        let keep = if out.len() == 0 {
            true
        } else {
            match compare_paths(&out[out.len() - 1].parts, &f.parts) {
                Order::Equal => false,
                _ => true,
            }
        };
        if keep {
            out.push(f);
        }
    }
    assert(ss.take(ss.len() as int) == ss);
    assert(ss =~= files_at(fs, order@));
    let r: Result<Vec<FoundFile>, ScanError> = Ok(out);
    assert(collected(ins)->Ok_0 == fs);
    assert(r->Ok_0@ == dedup_paths(files_at(fs, order@)));
    r
}

/// Dropping repeats from a sequence in non-decreasing path order leaves
/// paths in strictly increasing order, each taken from the sequence.
proof fn lemma_dedup_strict(s: Seq<FoundFile>)
    requires
        forall|i: int, j: int|
            0 <= i < j < s.len() ==> path_order(#[trigger] s[i].parts@, #[trigger] s[j].parts@)
                != Order::Greater,
    ensures
        forall|k: int, l: int|
            0 <= k < l < dedup_paths(s).len() ==> path_order(
                #[trigger] dedup_paths(s)[k].parts@,
                #[trigger] dedup_paths(s)[l].parts@,
            ) == Order::Less,
        forall|k: int|
            0 <= k < dedup_paths(s).len() ==> exists|i: int|
                0 <= i < s.len() && #[trigger] dedup_paths(s)[k] == s[i],
    decreases s.len(),
{
    if s.len() > 0 {
        let t = s.drop_last();
        assert forall|i: int, j: int| 0 <= i < j < t.len() implies path_order(
            #[trigger] t[i].parts@,
            #[trigger] t[j].parts@,
        ) != Order::Greater by {
            assert(t[i] == s[i] && t[j] == s[j]);
        }
        lemma_dedup_strict(t);
        let d = dedup_paths(t);
        let x = s.last();
        assert forall|k: int| 0 <= k < d.len() implies path_order(
            #[trigger] d[k].parts@,
            x.parts@,
        ) != Order::Greater by {
            let i = choose|i: int| 0 <= i < t.len() && d[k] == t[i];
            assert(s[i] == t[i]);
            assert(path_order(s[i].parts@, s[s.len() - 1].parts@) != Order::Greater);
        }
        if !(d.len() > 0 && path_order(d.last().parts@, x.parts@) == Order::Equal) {
            let e = d.push(x);
            assert(dedup_paths(s) == e);
            assert forall|k: int, l: int| 0 <= k < l < e.len() implies path_order(
                #[trigger] e[k].parts@,
                #[trigger] e[l].parts@,
            ) == Order::Less by {
                if l == e.len() - 1 {
                    assert(e[l] == x);
                    assert(e[k] == d[k]);
                    if k == d.len() - 1 {
                        assert(path_order(d[k].parts@, x.parts@) != Order::Greater);
                    } else {
                        lemma_path_chains(d[k].parts@, d.last().parts@, x.parts@);
                        assert(path_order(d[k].parts@, d[d.len() - 1].parts@) == Order::Less);
                    }
                } else {
                    assert(e[k] == d[k] && e[l] == d[l]);
                }
            }
            assert forall|k: int| 0 <= k < e.len() implies exists|i: int|
                0 <= i < s.len() && #[trigger] e[k] == s[i] by {
                if k == e.len() - 1 {
                    assert(e[k] == s[s.len() - 1]);
                } else {
                    let i = choose|i: int| 0 <= i < t.len() && d[k] == t[i];
                    assert(e[k] == s[i]);
                }
            }
        } else {
            assert forall|k: int| 0 <= k < d.len() implies exists|i: int|
                0 <= i < s.len() && #[trigger] d[k] == s[i] by {
                let i = choose|i: int| 0 <= i < t.len() && d[k] == t[i];
                assert(d[k] == s[i]);
            }
        }
    }
}

/// A scan reports paths in strictly increasing order: sorted, and no path
/// twice.
pub proof fn law_scan_sorted_unique(inputs: Seq<ScanInput>, r: Result<Vec<FoundFile>, ScanError>)
    requires
        scan_result(inputs, r),
        r is Ok,
    ensures
        forall|k: int, l: int|
            0 <= k < l < r->Ok_0@.len() ==> path_order(
                #[trigger] r->Ok_0@[k].parts@,
                #[trigger] r->Ok_0@[l].parts@,
            ) == Order::Less,
{
    let fs = collected(inputs)->Ok_0;
    let p = choose|p: Seq<usize>|
        is_path_order(fs, p) && r->Ok_0@ == dedup_paths(#[trigger] files_at(fs, p));
    let s = files_at(fs, p);
    assert forall|i: int, j: int| 0 <= i < j < s.len() implies path_order(
        #[trigger] s[i].parts@,
        #[trigger] s[j].parts@,
    ) != Order::Greater by {
        assert(file_before(fs, p[i] as int, p[j] as int));
    }
    lemma_dedup_strict(s);
}


/// Dropping repeats keeps a file with the path of every file.
proof fn lemma_dedup_covers(s: Seq<FoundFile>, j: int)
    requires
        0 <= j < s.len(),
    ensures
        exists|k: int|
            0 <= k < dedup_paths(s).len() && path_order(
                #[trigger] dedup_paths(s)[k].parts@,
                s[j].parts@,
            ) == Order::Equal,
    decreases s.len(),
{
    let t = s.drop_last();
    let d = dedup_paths(t);
    let x = s.last();
    if j == s.len() - 1 {
        if d.len() > 0 && path_order(d.last().parts@, x.parts@) == Order::Equal {
            assert(dedup_paths(s)[d.len() - 1] == d.last());
        } else {
            assert(dedup_paths(s)[d.len() as int] == x);
            lemma_path_chains(x.parts@, x.parts@, x.parts@);
        }
    } else {
        lemma_dedup_covers(t, j);
        assert(t[j] == s[j]);
        let k = choose|k: int|
            0 <= k < d.len() && path_order(#[trigger] d[k].parts@, t[j].parts@) == Order::Equal;
        assert(dedup_paths(s)[k] == d[k]);
    }
}

/// A scan reports exactly the files it found, up to repeats: every file it
/// found has its path reported, and every file it reports was found.
pub proof fn law_scan_reports_found_files(
    inputs: Seq<ScanInput>,
    r: Result<Vec<FoundFile>, ScanError>,
    i: int,
    k: int,
)
    requires
        scan_result(inputs, r),
        collected(inputs) is Ok,
    ensures
        0 <= i < collected(inputs)->Ok_0.len() ==> exists|l: int|
            0 <= l < r->Ok_0@.len() && path_order(
                #[trigger] r->Ok_0@[l].parts@,
                collected(inputs)->Ok_0[i].parts@,
            ) == Order::Equal,
        0 <= k < r->Ok_0@.len() ==> exists|j: int|
            0 <= j < collected(inputs)->Ok_0.len() && r->Ok_0@[k] == #[trigger] collected(
                inputs,
            )->Ok_0[j],
{
    let fs = collected(inputs)->Ok_0;
    let p = choose|p: Seq<usize>|
        is_path_order(fs, p) && r->Ok_0@ == dedup_paths(#[trigger] files_at(fs, p));
    let s = files_at(fs, p);
    assert forall|a: int, b: int| 0 <= a < b < p.len() implies p[a] != p[b] by {
        assert(file_before(fs, p[a] as int, p[b] as int));
        lemma_file_before(fs, p[a] as int, p[a] as int, p[a] as int);
    }
    if 0 <= i < fs.len() {
        crate::positions::lemma_positions_cover(p, fs.len() as int, i);
        let j = choose|j: int| 0 <= j < fs.len() && p[j] == i;
        assert(s[j] == fs[i]);
        lemma_dedup_covers(s, j);
    }
    if 0 <= k < r->Ok_0@.len() {
        assert forall|a: int, b: int| 0 <= a < b < s.len() implies path_order(
            #[trigger] s[a].parts@,
            #[trigger] s[b].parts@,
        ) != Order::Greater by {
            assert(file_before(fs, p[a] as int, p[b] as int));
        }
        lemma_dedup_strict(s);
        let a = choose|a: int| 0 <= a < s.len() && #[trigger] dedup_paths(s)[k] == s[a];
        assert(s[a] == fs[p[a] as int]);
    }
}


/// An error among the first inputs is the error of all of them.
proof fn lemma_collected_error(ins: Seq<ScanInput>, k: int)
    requires
        0 <= k <= ins.len(),
        collected(ins.take(k)) is Err,
    ensures
        collected(ins) == collected(ins.take(k)),
    decreases ins.len() - k,
{
    if k < ins.len() {
        assert(ins.take(k + 1).drop_last() == ins.take(k));
        lemma_collected_error(ins, k + 1);
    } else {
        assert(ins.take(k) == ins);
    }
}

} // verus!
