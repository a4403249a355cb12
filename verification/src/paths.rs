//! Choosing the files to lint among what a walk of the file system found.
//!
//! Walking is the caller's. The engine is handed each entry as three texts:
//! the directory, the name of the file, and the whole path in the form in
//! which it is to be reported.

use ahash::AHashSet;
use itertools::Itertools;
use vstd::prelude::*;
use vstd::string::StringExecFns;
use vstd::utf8::encode_utf8;
use crate::errors::SQLFluffUserError;
use crate::text::{same_text, texts};

verus! {

/// `ahash::RandomState`, the hasher of an `AHashSet`. Nothing is known of what
/// it holds.
#[verifier::external_type_specification]
#[verifier::external_body]
pub struct ExRandomState(ahash::RandomState);

/// `ahash::AHashSet`, a hash set. What it holds is known only through
/// [`held`].
#[verifier::external_type_specification]
#[verifier::external_body]
#[verifier::reject_recursive_types(T)]
#[verifier::reject_recursive_types(S)]
pub struct ExAHashSet<T, S>(AHashSet<T, S>);

/// One file that a walk found.
#[derive(Debug, PartialEq, Eq)]
pub struct WalkEntry {
    pub dirpath: String,
    pub fname: String,
    pub fpath: String,
}

/// What the file system shows at a path: nothing, one file, or a directory
/// with the files below it.
#[derive(Debug, PartialEq, Eq)]
pub enum PathProbe {
    Missing,
    File(WalkEntry),
    Dir(Vec<WalkEntry>),
}

/// The texts of the strings that an `AHashSet` holds.
pub uninterp spec fn held(set: AHashSet<String>) -> Set<Seq<char>>;

/// What `str::to_lowercase` gives for a text.
pub uninterp spec fn lowercase_of(s: Seq<char>) -> Seq<char>;

/// Calls `AHashSet::new`: the new set holds nothing.
#[verifier::external_body]
fn new_set() -> (set: AHashSet<String>)
    ensures
        held(set) == Set::<Seq<char>>::empty(),
{
    AHashSet::new()
}

/// Calls `insert` on the set, which is `HashSet::insert` of std: afterwards
/// the set holds the text, and what it held before.
#[verifier::external_body]
fn insert_text(set: &mut AHashSet<String>, text: String)
    ensures
        held(*final(set)) == held(*old(set)).insert(text@),
{
    set.insert(text);
}

/// Calls `into_iter` on the set and `collect_vec` of itertools on the
/// iterator: the strings that come out are those that the set held, each
/// once, in an order that nothing is claimed of.
#[verifier::external_body]
fn into_texts(set: AHashSet<String>) -> (v: Vec<String>)
    ensures
        texts(v@).no_duplicates(),
        texts(v@).to_set() == held(set),
{
    set.into_iter().collect_vec()
}

/// Calls `str::to_lowercase`. The contract names what comes back.
#[verifier::external_body]
fn lowercase(s: &str) -> (r: String)
    ensures
        r@ == lowercase_of(s@),
{
    s.to_lowercase()
}

/// Whether the text `s` ends with the text `end`.
pub open spec fn ends_with(s: Seq<char>, end: Seq<char>) -> bool {
    end.len() <= s.len() && s.subrange(s.len() - end.len(), s.len() as int) == end
}

/// Calls `str::ends_with` with a string as the pattern: whether the pattern
/// is a suffix of the text.
#[verifier::external_body]
fn text_ends_with(s: &str, end: &str) -> (b: bool)
    ensures
        b == ends_with(s@, end@),
{
    s.ends_with(end)
}

/// Whether the bytes `a` come before the bytes `b`, or equal them, in the
/// order of a dictionary.
pub open spec fn bytes_le(a: Seq<u8>, b: Seq<u8>) -> bool
    decreases a.len(),
{
    if a.len() == 0 {
        true
    } else if b.len() == 0 {
        false
    } else if a[0] != b[0] {
        a[0] < b[0]
    } else {
        bytes_le(a.drop_first(), b.drop_first())
    }
}

/// The order of strings: that of their bytes in UTF-8.
pub open spec fn text_le(a: Seq<char>, b: Seq<char>) -> bool {
    bytes_le(encode_utf8(a), encode_utf8(b))
}

/// Whether the texts stand in the order of strings.
pub open spec fn sorted(s: Seq<Seq<char>>) -> bool {
    forall|i: int, j: int| 0 <= i < j < s.len() ==> text_le(#[trigger] s[i], #[trigger] s[j])
}

/// Calls `sort` of std on the strings: afterwards they are the same strings,
/// each as often as before, in the order of strings, which is that of their
/// bytes.
#[verifier::external_body]
fn sort_texts(v: &mut Vec<String>)
    ensures
        texts(final(v)@).to_multiset() == texts(old(v)@).to_multiset(),
        sorted(texts(final(v)@)),
{
    v.sort();
}

/// Whether the lower-case form `lower` of a file name ends with one of the
/// first `k` extensions.
pub open spec fn has_ext(lower: Seq<char>, exts: Seq<Seq<char>>, k: nat) -> bool
    decreases k,
{
    if k == 0 {
        false
    } else {
        has_ext(lower, exts, (k - 1) as nat) || ends_with(lower, exts[k - 1])
    }
}

/// Whether an entry is a file to lint: not the ignore file itself, where
/// ignore files are looked for, and with a name that ends, whatever its case,
/// with one of the extensions.
pub open spec fn wanted(
    entry: WalkEntry,
    exts: Seq<Seq<char>>,
    ignore_files: bool,
    ignore_file_name: Seq<char>,
) -> bool {
    &&& !(ignore_files && entry.fname@ == ignore_file_name)
    &&& has_ext(lowercase_of(entry.fname@), exts, exts.len())
}

/// The paths of the files to lint among the first `k` entries.
pub open spec fn candidates(
    entries: Seq<WalkEntry>,
    exts: Seq<Seq<char>>,
    ignore_files: bool,
    ignore_file_name: Seq<char>,
    k: nat,
) -> Set<Seq<char>>
    decreases k,
{
    if k == 0 {
        Set::empty()
    } else {
        let rest = candidates(entries, exts, ignore_files, ignore_file_name, (k - 1) as nat);
        if wanted(entries[k - 1], exts, ignore_files, ignore_file_name) {
            rest.insert(entries[k - 1].fpath@)
        } else {
            rest
        }
    }
}

/// The paths to lint, given what the file system shows at a path.
///
/// A file that is named itself is taken whatever its extension, unless it is
/// the ignore file. Of a directory the files with one of the extensions are
/// taken.
pub open spec fn discovered(
    found: PathProbe,
    exts: Seq<Seq<char>>,
    ignore_files: bool,
    ignore_file_name: Seq<char>,
) -> Set<Seq<char>> {
    match found {
        PathProbe::Missing => Set::empty(),
        PathProbe::File(entry) => if ignore_files && entry.fname@ == ignore_file_name {
            Set::empty()
        } else {
            set![entry.fpath@]
        },
        PathProbe::Dir(entries) => candidates(
            entries@,
            exts,
            ignore_files,
            ignore_file_name,
            entries@.len(),
        ),
    }
}

/// Whether `paths` lists the texts of `wanted`, each once, in the order of
/// strings.
pub open spec fn lists(paths: Seq<Seq<char>>, wanted: Set<Seq<char>>) -> bool {
    &&& paths.no_duplicates()
    &&& sorted(paths)
    &&& forall|p: Seq<char>| paths.contains(p) <==> wanted.contains(p)
}

/// The paths of the first `k` parts, one part after the other.
pub open spec fn joined(parts: Seq<Seq<Seq<char>>>, k: nat) -> Seq<Seq<char>>
    decreases k,
{
    if k == 0 {
        Seq::empty()
    } else {
        joined(parts, (k - 1) as nat) + parts[k - 1]
    }
}

/// Whether `parts` holds, for each path in order, the files to lint there.
pub open spec fn paths_expanded(
    probes: Seq<(String, PathProbe)>,
    exts: Seq<Seq<char>>,
    parts: Seq<Seq<Seq<char>>>,
) -> bool {
    &&& parts.len() == probes.len()
    &&& forall|i: int|
        0 <= i < probes.len() ==> lists(
            #[trigger] parts[i],
            discovered(probes[i].1, exts, true, ".sqlfluffignore"@),
        )
}

/// The paths of the first `k` parts depend on those parts alone.
pub proof fn lemma_joined_prefix(a: Seq<Seq<Seq<char>>>, b: Seq<Seq<Seq<char>>>, k: nat)
    requires
        forall|i: int| 0 <= i < k ==> a[i] == b[i],
    ensures
        joined(a, k) == joined(b, k),
    decreases k,
{
    if k > 0 {
        lemma_joined_prefix(a, b, (k - 1) as nat);
    }
}

/// Whether a file name ends, whatever its case, with one of the extensions.
pub fn is_sql_file(fname: &str, exts: &Vec<String>) -> (b: bool)
    ensures
        b == has_ext(lowercase_of(fname@), texts(exts@), exts@.len()),
{
    let lower = lowercase(fname);
    let mut matched = false;
    let mut i: usize = 0;
    while i < exts.len()
        invariant
            i <= exts.len(),
            lower@ == lowercase_of(fname@),
            matched == has_ext(lower@, texts(exts@), i as nat),
        decreases exts.len() - i,
    {
        if text_ends_with(lower.as_str(), exts[i].as_str()) {
            matched = true;
        }
        i += 1;
    }
    matched
}

/// The files to lint among what a walk found, each path once, in the order of
/// strings.
pub fn select_paths(
    found: PathProbe,
    exts: &Vec<String>,
    ignore_files: bool,
    ignore_file_name: &str,
) -> (paths: Vec<String>)
    ensures
        lists(texts(paths@), discovered(found, texts(exts@), ignore_files, ignore_file_name@)),
{
    let ghost goal = discovered(found, texts(exts@), ignore_files, ignore_file_name@);
    let mut set = new_set();
    match found {
        PathProbe::Missing => {},
        PathProbe::File(entry) => {
            if !(ignore_files && same_text(entry.fname.as_str(), ignore_file_name)) {
                insert_text(&mut set, entry.fpath);
            }
            proof {
                assert(held(set) =~= goal);
            }
        },
        PathProbe::Dir(entries) => {
            let mut i: usize = 0;
            while i < entries.len()
                invariant
                    i <= entries.len(),
                    held(set) == candidates(
                        entries@,
                        texts(exts@),
                        ignore_files,
                        ignore_file_name@,
                        i as nat,
                    ),
                decreases entries.len() - i,
            {
                let entry = &entries[i];
                if !(ignore_files && same_text(entry.fname.as_str(), ignore_file_name)) {
                    if is_sql_file(entry.fname.as_str(), exts) {
                        insert_text(&mut set, entry.fpath.clone());
                    }
                }
                i += 1;
            }
        },
    }
    let mut paths = into_texts(set);
    let ghost before = texts(paths@);
    sort_texts(&mut paths);
    proof {
        let after = texts(paths@);
        broadcast use vstd::seq_lib::to_multiset_contains;

        before.lemma_multiset_has_no_duplicates();
        after.lemma_multiset_has_no_duplicates_conv();
        assert forall|p: Seq<char>| after.contains(p) <==> goal.contains(p) by {
            assert(after.contains(p) <==> after.to_multiset().count(p) > 0);
            assert(before.contains(p) <==> before.to_multiset().count(p) > 0);
            assert(before.to_set().contains(p) <==> before.contains(p));
        }
    }
    paths
}

/// The words that open the error for a path that does not exist.
pub open spec fn missing_path_message() -> Seq<char> {
    "Specified path does not exist. Check it/they exist(s): "@
}

/// The outcome of looking for the files to lint at `path`: the paths, or the
/// error for a path that does not exist and is not to be passed over.
///
/// Ignore files are looked for unless `ignore_files` says otherwise, under
/// the name `.sqlfluffignore` unless another is given.
pub fn paths_from_probe(
    path: &str,
    found: PathProbe,
    exts: &Vec<String>,
    ignore_file_name: Option<String>,
    ignore_non_existent_files: Option<bool>,
    ignore_files: Option<bool>,
) -> (r: Result<Vec<String>, SQLFluffUserError>)
    ensures
        r is Err <==> found is Missing && ignore_non_existent_files != Some(true),
        r matches Err(e) ==> e.value@ == missing_path_message() + path@,
        r matches Ok(paths) ==> lists(
            texts(paths@),
            discovered(
                found,
                texts(exts@),
                ignore_files != Some(false),
                match ignore_file_name {
                    Some(name) => name@,
                    None => ".sqlfluffignore"@,
                },
            ),
        ),
{
    let ignore_file_name = match ignore_file_name {
        Some(name) => name,
        None => String::from_str(".sqlfluffignore"),
    };
    let ignore_non_existent_files = match ignore_non_existent_files {
        Some(b) => b,
        None => false,
    };
    let ignore_files = match ignore_files {
        Some(b) => b,
        None => true,
    };
    match found {
        PathProbe::Missing => {
            if !ignore_non_existent_files {
                let message = String::from_str(
                    "Specified path does not exist. Check it/they exist(s): ",
                ).concat(path);
                return Err(SQLFluffUserError::new(message));
            }
        },
        _ => {},
    }
    Ok(select_paths(found, exts, ignore_files, ignore_file_name.as_str()))
}

} // verus!
