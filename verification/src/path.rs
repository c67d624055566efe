//! Places in an object store, and the files that a write puts there.

use vstd::prelude::*;
use object_store::path::Path;
use crate::text::{concat3, decimal, decimal_text, lemma_decimal, number};
use vstd::string::StringExecFns;

verus! {

/// The file extension of Parquet files.
pub const DEFAULT_PARQUET_EXTENSION: &'static str = ".parquet";

/// The paths of the `object_store` crate.
#[verifier::external_type_specification]
#[verifier::external_body]
pub struct ExPath(Path);

/// The text of a path.
pub uninterp spec fn path_text(path: Path) -> Seq<char>;

/// The text of a part of a path that a name gives, with characters that paths do not
/// have written by their codes.
pub uninterp spec fn path_part(name: Seq<char>) -> Seq<char>;

/// The clone of a path is the same path.
pub assume_specification[ <Path as Clone>::clone ](path: &Path) -> (clone: Path)
    ensures
        path_text(clone) == path_text(*path),
;

/// Whether a character is an ASCII letter or digit.
pub open spec fn is_alphanumeric(c: char) -> bool {
    ||| '0' as int <= c as int <= '9' as int
    ||| 'A' as int <= c as int <= 'Z' as int
    ||| 'a' as int <= c as int <= 'z' as int
}

/// Whether a text consists of ASCII letters and digits.
pub open spec fn all_alphanumeric(text: Seq<char>) -> bool {
    forall|i: int| 0 <= i < text.len() ==> is_alphanumeric(#[trigger] text[i])
}

/// Whether a name stands in a path as it is: it consists of letters, digits, dots and
/// underscores, and is not one or two dots.
pub open spec fn is_plain(name: Seq<char>) -> bool {
    &&& forall|i: int|
        0 <= i < name.len() ==> is_alphanumeric(#[trigger] name[i]) || name[i] == '.' || name[i]
            == '_'
    &&& name != seq!['.']
    &&& name != seq!['.', '.']
}

/// A part behind a path, which a slash separates unless the path is empty.
pub open spec fn joined(path: Seq<char>, part: Seq<char>) -> Seq<char> {
    if path.len() == 0 {
        part
    } else {
        path.push('/') + part
    }
}

/// `Path::child` puts a name behind a path. A plain name is put there as it is.
#[verifier::external_body]
fn child(path: &Path, name: String) -> (child: Path)
    ensures
        path_text(child) == joined(path_text(*path), path_part(name@)),
        is_plain(name@) ==> path_text(child) == joined(path_text(*path), name@),
{
    path.child(name)
}

/// The name of the file of a partition.
pub open spec fn file_name(write_id: Seq<char>, part_idx: nat) -> Seq<char> {
    write_id + "_"@ + decimal(part_idx) + ".parquet"@
}

/// The path of the file of a partition, below a path.
pub fn part_path(base: &Path, write_id: &str, part_idx: usize) -> (path: Path)
    ensures
        path_text(path) == joined(
            path_text(*base),
            path_part(file_name(write_id@, part_idx as nat)),
        ),
        all_alphanumeric(write_id@) ==> path_text(path) == joined(
            path_text(*base),
            file_name(write_id@, part_idx as nat),
        ),
{
    let digits: String = decimal_text(part_idx as u64);
    let name: String = concat3(write_id, "_", digits.as_str()).concat(DEFAULT_PARQUET_EXTENSION);
    proof {
        if all_alphanumeric(write_id@) {
            lemma_file_name_is_plain(write_id@, part_idx as nat);
        }
    }
    child(base, name)
}

/// The name of a file with letters and digits as its first part is plain.
proof fn lemma_file_name_is_plain(write_id: Seq<char>, part_idx: nat)
    requires
        all_alphanumeric(write_id),
    ensures
        is_plain(file_name(write_id, part_idx)),
{
    reveal_strlit("_");
    reveal_strlit(".parquet");
    lemma_decimal(part_idx);
    let name = file_name(write_id, part_idx);
    assert(name.len() >= 9);
    assert forall|i: int| 0 <= i < name.len() implies is_alphanumeric(#[trigger] name[i]) || name[i]
        == '.' || name[i] == '_' by {
        let n = write_id.len() as int;
        let m = decimal(part_idx).len() as int;
        if i < n {
            assert(name[i] == write_id[i]);
        } else if i == n {
            assert(name[i] == '_');
        } else if i < n + 1 + m {
            assert(name[i] == decimal(part_idx)[i - n - 1]);
        } else {
            assert(name[i] == ".parquet"@[i - n - 1 - m]);
        }
    }
}

/// Files have different names, within a write for different partitions and, with
/// identifiers of one length, for different writes.
pub proof fn law_file_names_are_unique(
    write_a: Seq<char>,
    part_a: nat,
    write_b: Seq<char>,
    part_b: nat,
)
    requires
        write_a.len() == write_b.len(),
        file_name(write_a, part_a) == file_name(write_b, part_b),
    ensures
        write_a == write_b,
        part_a == part_b,
{
    reveal_strlit("_");
    reveal_strlit(".parquet");
    let name = file_name(write_a, part_a);
    let n = write_a.len() as int;
    assert(write_a =~= name.subrange(0, n));
    assert(write_b =~= file_name(write_b, part_b).subrange(0, n));
    assert(decimal(part_a) =~= name.subrange(n + 1, name.len() - 8));
    assert(decimal(part_b) =~= file_name(write_b, part_b).subrange(
        n + 1,
        file_name(write_b, part_b).len() - 8,
    ));
    lemma_decimal(part_a);
    lemma_decimal(part_b);
}

/// Below one path, files with different names have different paths.
pub proof fn law_paths_are_unique(base: Seq<char>, name_a: Seq<char>, name_b: Seq<char>)
    requires
        joined(base, name_a) == joined(base, name_b),
    ensures
        name_a == name_b,
{
    let n = base.len() as int;
    if n > 0 {
        let a = joined(base, name_a);
        let b = joined(base, name_b);
        assert(name_a =~= a.subrange(n + 1, a.len() as int));
        assert(name_b =~= b.subrange(n + 1, b.len() as int));
    }
}

/// What the name of a file is made of: the identifier of the write, an underscore, the
/// number of the partition, and `.parquet`.
pub proof fn law_parts_of_file_name(write_id: Seq<char>, part_idx: nat)
    ensures
        ({
            let name = file_name(write_id, part_idx);
            let n = write_id.len() as int;
            &&& name.subrange(0, n) == write_id
            &&& name[n] == '_'
            &&& number(name.subrange(n + 1, name.len() - 8)) == part_idx
            &&& name.subrange(name.len() - 8, name.len() as int) == seq![
                '.',
                'p',
                'a',
                'r',
                'q',
                'u',
                'e',
                't',
            ]
        }),
{
    reveal_strlit("_");
    reveal_strlit(".parquet");
    let name = file_name(write_id, part_idx);
    let n = write_id.len() as int;
    assert(name.subrange(0, n) =~= write_id);
    assert(name.subrange(n + 1, name.len() - 8) =~= decimal(part_idx));
    assert(name.subrange(name.len() - 8, name.len() as int) =~= ".parquet"@);
    lemma_decimal(part_idx);
}

/// A file lies in its directory: its path is that of the directory, a slash and its name,
/// or its name alone where the directory has no path.
pub proof fn law_path_of_file(base: Seq<char>, name: Seq<char>)
    ensures
        base.len() == 0 ==> joined(base, name) == name,
        base.len() > 0 ==> {
            &&& joined(base, name).len() == base.len() + 1 + name.len()
            &&& joined(base, name).subrange(0, base.len() as int) == base
            &&& joined(base, name)[base.len() as int] == '/'
            &&& joined(base, name).subrange(
                base.len() as int + 1,
                joined(base, name).len() as int,
            ) == name
        },
{
    if base.len() > 0 {
        let path = joined(base, name);
        assert(path.subrange(0, base.len() as int) =~= base);
        assert(path.subrange(base.len() as int + 1, path.len() as int) =~= name);
    }
}

} // verus!
