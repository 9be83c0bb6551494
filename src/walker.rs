//! Which directories the walk of a project enters, and which files it hands to the scan.
use vstd::prelude::*;
use vstd::string::StrSliceExecFns;
use crate::text::same_text;

verus! {

/// Whether the directory at `rel` (relative to the project root, parts joined by `/`) is
/// one that the walk never enters.
pub open spec fn excluded_dir(rel: Seq<char>) -> bool {
    rel == "classes/android"@ || rel == "classes/com/google/android/gms"@ || rel == "smali"@
}

/// Whether the walk enters the subdirectory `name`, found at `rel` relative to the root.
pub open spec fn enters(rel: Seq<char>, name: Seq<char>) -> bool {
    name != "original"@ && !excluded_dir(rel)
}

pub open spec fn ends_with(s: Seq<char>, suffix: Seq<char>) -> bool {
    s.len() >= suffix.len() && s.subrange(s.len() - suffix.len(), s.len() as int) == suffix
}

pub open spec fn starts_with(s: Seq<char>, prefix: Seq<char>) -> bool {
    s.len() >= prefix.len() && s.subrange(0, prefix.len() as int) == prefix
}

/// Whether a regular file called `name` is scanned: its extension is `java` or `xml`, and
/// it is not the manifest, `R.java` or an `R$` class.
pub open spec fn source_file(name: Seq<char>) -> bool {
    &&& (ends_with(name, ".java"@) && name.len() > 5) || (ends_with(name, ".xml"@) && name.len() > 4)
    &&& name != "AndroidManifest.xml"@
    &&& name != "R.java"@
    &&& !starts_with(name, "R$"@)
}

fn has_suffix(s: &str, suffix: &str) -> (r: bool)
    ensures
        r == ends_with(s@, suffix@),
{
    let n = s.unicode_len();
    let m = suffix.unicode_len();
    if m > n {
        return false;
    }
    let mut i: usize = 0;
    while i < m
        invariant
            n == s@.len(),
            m == suffix@.len(),
            m <= n,
            i <= m,
            forall|j: int| 0 <= j < i ==> s@[n - m + j] == suffix@[j],
        decreases m - i,
    {
        if s.get_char(n - m + i) != suffix.get_char(i) {
            assert(s@.subrange(n - m, n as int)[i as int] != suffix@[i as int]);
            return false;
        }
        i = i + 1;
    }
    assert(s@.subrange(n - m, n as int) =~= suffix@);
    true
}

fn has_prefix(s: &str, prefix: &str) -> (r: bool)
    ensures
        r == starts_with(s@, prefix@),
{
    let n = s.unicode_len();
    let m = prefix.unicode_len();
    if m > n {
        return false;
    }
    let mut i: usize = 0;
    while i < m
        invariant
            n == s@.len(),
            m == prefix@.len(),
            m <= n,
            i <= m,
            forall|j: int| 0 <= j < i ==> s@[j] == prefix@[j],
        decreases m - i,
    {
        if s.get_char(i) != prefix.get_char(i) {
            assert(s@.subrange(0, m as int)[i as int] != prefix@[i as int]);
            return false;
        }
        i = i + 1;
    }
    assert(s@.subrange(0, m as int) =~= prefix@);
    true
}

/// Whether the directory at `rel` is one that the walk never enters.
pub fn is_excluded_dir(rel: &str) -> (r: bool)
    ensures
        r == excluded_dir(rel@),
{
    same_text(rel, "classes/android") || same_text(rel, "classes/com/google/android/gms")
        || same_text(rel, "smali")
}

/// Whether the walk enters the subdirectory `name`, found at `rel` relative to the root.
pub fn enters_dir(rel: &str, name: &str) -> (r: bool)
    ensures
        r == enters(rel@, name@),
{
    !same_text(name, "original") && !is_excluded_dir(rel)
}

/// Whether a regular file called `name` is scanned.
pub fn is_source_file(name: &str) -> (r: bool)
    ensures
        r == source_file(name@),
{
    let n = name.unicode_len();
    proof {
        reveal_strlit(".java");
        reveal_strlit(".xml");
    }
    let ext_ok = (has_suffix(name, ".java") && n > 5) || (has_suffix(name, ".xml") && n > 4);
    ext_ok && !same_text(name, "AndroidManifest.xml") && !same_text(name, "R.java") && !has_prefix(
        name,
        "R$",
    )
}

/// No file below an excluded directory, or below a directory called `original`, is
/// reached: the walk does not enter them.
pub proof fn law_excluded_dirs_not_entered(rel: Seq<char>, name: Seq<char>)
    requires
        excluded_dir(rel) || name == "original"@,
    ensures
        !enters(rel, name),
{
}

/// `AndroidManifest.xml`, `R.java` and any file whose name begins with `R$` are never
/// scanned.
pub proof fn law_generated_files_skipped(name: Seq<char>)
    requires
        name == "AndroidManifest.xml"@ || name == "R.java"@ || starts_with(name, "R$"@),
    ensures
        !source_file(name),
{
}

} // verus!
