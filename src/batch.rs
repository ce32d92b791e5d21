//! The decisions of a batch run: which directory entries are input tables, in what order,
//! and whether the output paths are usable.

use vstd::prelude::*;
use crate::text::chars_of;

verus! {

/// One entry of the input directory, as the file system reports it.
pub struct DirEntry {
    pub name: String,
    pub is_file: bool,
}

/// Why a batch run cannot go on.
pub enum BatchError {
    /// The input directory holds no table file.
    EmptyInput(String),
    /// The output path of a directory run exists and is not a directory.
    OutputNotDirectory(String),
    /// The output path of a single-file run is an existing directory.
    OutputIsDirectory(String),
}

impl BatchError {
    /// A readable message that names the offending path.
    pub fn message(&self) -> (r: String)
        ensures
            match self {
                BatchError::EmptyInput(p) => r@ == "No Parquet files found in input directory '"@
                    + p@ + "'"@,
                BatchError::OutputNotDirectory(p) => r@ == "Output path '"@ + p@
                    + "' must be a directory when --input-dir is used"@,
                BatchError::OutputIsDirectory(p) => r@ == "Output path '"@ + p@
                    + "' points to a directory. Provide a file path instead."@,
            },
    {
        match self {
            BatchError::EmptyInput(p) => String::from_str(
                "No Parquet files found in input directory '",
            ).concat(p.as_str()).concat("'"),
            BatchError::OutputNotDirectory(p) => String::from_str("Output path '").concat(
                p.as_str(),
            ).concat("' must be a directory when --input-dir is used"),
            BatchError::OutputIsDirectory(p) => String::from_str("Output path '").concat(
                p.as_str(),
            ).concat("' points to a directory. Provide a file path instead."),
        }
    }
}

/// The output file of a single-file run must not be an existing directory.
pub fn check_output_file(path: &str, is_dir: bool) -> (r: Result<(), BatchError>)
    ensures
        is_dir ==> (r matches Err(BatchError::OutputIsDirectory(p)) && p@ == path@),
        !is_dir ==> r is Ok,
{
    if is_dir {
        Err(BatchError::OutputIsDirectory(String::from_str(path)))
    } else {
        Ok(())
    }
}

/// The output directory of a directory run: `Ok(true)` when it must be created, `Ok(false)`
/// when it exists as a directory, and an error when something else stands at its path.
pub fn check_output_dir(path: &str, exists: bool, is_dir: bool) -> (r: Result<bool, BatchError>)
    ensures
        exists && !is_dir ==> (r matches Err(BatchError::OutputNotDirectory(p)) && p@ == path@),
        exists && is_dir ==> r == Ok::<bool, BatchError>(false),
        !exists ==> r == Ok::<bool, BatchError>(true),
{
    if !exists {
        Ok(true)
    } else if is_dir {
        Ok(false)
    } else {
        Err(BatchError::OutputNotDirectory(String::from_str(path)))
    }
}

/// The position of the last dot of a file name, if any.
pub open spec fn last_dot(name: Seq<char>) -> Option<int>
    decreases name.len(),
{
    if name.len() == 0 {
        None
    } else if name.last() == '.' {
        Some(name.len() - 1)
    } else {
        last_dot(name.drop_last())
    }
}

/// The extension of a file name: what follows the last dot, where that dot is not the
/// first character.
pub open spec fn extension_of(name: Seq<char>) -> Option<Seq<char>> {
    match last_dot(name) {
        Some(d) => if d > 0 {
            Some(name.subrange(d + 1, name.len() as int))
        } else {
            None
        },
        None => None,
    }
}

/// The table extension, in any mix of ASCII case.
pub open spec fn is_table_extension(e: Seq<char>) -> bool {
    &&& e.len() == 7
    &&& forall|i: int| 0 <= i < 7 ==> #[trigger] e[i] == "parquet"@[i] || e[i] == "PARQUET"@[i]
}

/// A regular file with the table extension.
pub open spec fn is_table_file(entry: DirEntry) -> bool {
    entry.is_file && (extension_of(entry.name@) matches Some(e) && is_table_extension(e))
}

/// The names of the table files among the entries, in the entries' order.
pub open spec fn table_file_names(entries: Seq<DirEntry>) -> Seq<Seq<char>>
    decreases entries.len(),
{
    if entries.len() == 0 {
        Seq::empty()
    } else {
        let before = table_file_names(entries.drop_last());
        if is_table_file(entries.last()) {
            before.push(entries.last().name@)
        } else {
            before
        }
    }
}

/// Lexicographic order on texts, character by character.
pub open spec fn text_le(a: Seq<char>, b: Seq<char>) -> bool
    decreases a.len(),
{
    if a.len() == 0 {
        true
    } else if b.len() == 0 {
        false
    } else if a[0] != b[0] {
        a[0] < b[0]
    } else {
        text_le(a.drop_first(), b.drop_first())
    }
}

/// The characters of each text.
pub open spec fn text_views(v: Seq<String>) -> Seq<Seq<char>> {
    v.map_values(|s: String| s@)
}

/// Relies on `slice::sort` over `String`, whose order is lexicographic on the UTF-8 bytes,
/// which is the order of the characters: the same texts, in ascending order.
#[verifier::external_body]
fn sort_texts(v: &mut Vec<String>)
    ensures
        text_views(final(v)@).to_multiset() == text_views(old(v)@).to_multiset(),
        forall|i: int, j: int|
            0 <= i < j < final(v)@.len() ==> text_le(#[trigger] final(v)@[i]@, #[trigger] final(v)@[j]@),
{
    v.sort();
}

fn table_extension(e: &Vec<char>, from: usize) -> (r: bool)
    requires
        from <= e.len(),
    ensures
        r == is_table_extension(e@.subrange(from as int, e.len() as int)),
{
    if e.len() - from != 7 {
        return false;
    }
    let lower = chars_of("parquet");
    let upper = chars_of("PARQUET");
    proof {
        reveal_strlit("parquet");
        reveal_strlit("PARQUET");
        assert("parquet"@.len() == 7);
        assert("PARQUET"@.len() == 7);
    }
    let mut i: usize = 0;
    while i < 7
        invariant
            e.len() - from == 7,
            lower@ == "parquet"@,
            upper@ == "PARQUET"@,
            lower@.len() == 7,
            upper@.len() == 7,
            i <= 7,
            forall|k: int|
                0 <= k < i ==> #[trigger] e@[from + k] == "parquet"@[k] || e@[from + k]
                    == "PARQUET"@[k],
        decreases 7 - i,
    {
        if e[from + i] != lower[i] && e[from + i] != upper[i] {
            assert(e@.subrange(from as int, e.len() as int)[i as int] == e@[from + i]);
            return false;
        }
        i = i + 1;
    }
    assert forall|k: int| 0 <= k < 7 implies #[trigger] e@.subrange(
        from as int,
        e.len() as int,
    )[k] == "parquet"@[k] || e@.subrange(from as int, e.len() as int)[k] == "PARQUET"@[k] by {
        assert(e@.subrange(from as int, e.len() as int)[k] == e@[from + k]);
    }
    true
}

proof fn lemma_last_dot(name: Seq<char>, k: int)
    requires
        0 <= k <= name.len(),
        forall|j: int| k <= j < name.len() ==> #[trigger] name[j] != '.',
    ensures
        last_dot(name) == last_dot(name.subrange(0, k)),
    decreases name.len() - k,
{
    if k < name.len() {
        assert(name[name.len() - 1] != '.');
        assert(name.drop_last().subrange(0, k) == name.subrange(0, k));
        lemma_last_dot(name.drop_last(), k);
    } else {
        assert(name.subrange(0, k) == name);
    }
}

/// Whether a directory entry is a table file to process.
pub fn is_table_entry(entry: &DirEntry) -> (r: bool)
    ensures
        r == is_table_file(*entry),
{
    if !entry.is_file {
        return false;
    }
    let name = chars_of(entry.name.as_str());
    let mut k: usize = name.len();
    while k > 0 && name[k - 1] != '.'
        invariant
            k <= name.len(),
            forall|j: int| k <= j < name.len() ==> #[trigger] name@[j] != '.',
        decreases k,
    {
        k = k - 1;
    }
    proof {
        lemma_last_dot(name@, k as int);
        if k > 0 {
            assert(name@.subrange(0, k as int).last() == '.');
        } else {
            assert(name@.subrange(0, 0) == Seq::<char>::empty());
        }
    }
    if k <= 1 {
        return false;
    }
    table_extension(&name, k)
}

/// The table files of a directory listing, sorted by name; an error naming the directory
/// when there is none.
pub fn select_inputs(entries: &Vec<DirEntry>, dir: &str) -> (r: Result<Vec<String>, BatchError>)
    ensures
        table_file_names(entries@).len() == 0 ==> (r matches Err(BatchError::EmptyInput(d))
            && d@ == dir@),
        table_file_names(entries@).len() > 0 ==> (r matches Ok(v) && text_views(v@).to_multiset()
            == table_file_names(entries@).to_multiset() && forall|i: int, j: int|
            0 <= i < j < v@.len() ==> text_le(#[trigger] v@[i]@, #[trigger] v@[j]@)),
{
    let mut names: Vec<String> = Vec::new();
    let mut i: usize = 0;
    while i < entries.len()
        invariant
            i <= entries.len(),
            text_views(names@) == table_file_names(entries@.subrange(0, i as int)),
        decreases entries.len() - i,
    {
        let ghost before = names@;
        assert(entries@.subrange(0, i + 1).drop_last() == entries@.subrange(0, i as int));
        if is_table_entry(&entries[i]) {
            names.push(entries[i].name.clone());
            assert(text_views(names@) =~= text_views(before).push(entries@[i as int].name@));
        }
        i = i + 1;
    }
    assert(entries@.subrange(0, entries.len() as int) == entries@);
    if names.len() == 0 {
        return Err(BatchError::EmptyInput(String::from_str(dir)));
    }
    sort_texts(&mut names);
    Ok(names)
}

} // verus!
