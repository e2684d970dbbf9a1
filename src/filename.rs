use vstd::prelude::*;
use vstd::string::StrSliceExecFns;
use crate::error::RegistryError;

verus! {

/// The separator between the segments of an artifact filename.
pub const SEPARATOR: char = '-';

/// The characters of the accepted artifact extension.
pub open spec fn artifact_extension() -> Seq<char> {
    seq!['.', 'w', 'h', 'l']
}

/// `s` holds no separator.
pub open spec fn separator_free(s: Seq<char>) -> bool {
    forall|i: int| 0 <= i < s.len() ==> s[i] != SEPARATOR
}

/// `s` ends with the accepted artifact extension.
pub open spec fn is_artifact_name(s: Seq<char>) -> bool {
    let e = artifact_extension();
    s.len() >= e.len() && s.subrange(s.len() - e.len(), s.len() as int) == e
}

/// `name` is the segment before the first separator of `s`, and `version`
/// the segment between the first separator and the next one (or the end).
pub open spec fn splits_as(s: Seq<char>, name: Seq<char>, version: Seq<char>) -> bool {
    let n = name.len() as int;
    let v = version.len() as int;
    &&& separator_free(name)
    &&& separator_free(version)
    &&& n + 1 + v <= s.len()
    &&& s.subrange(0, n) == name
    &&& s[n] == SEPARATOR
    &&& s.subrange(n + 1, n + 1 + v) == version
    &&& (n + 1 + v == s.len() || s[n + 1 + v] == SEPARATOR)
}

/// Whether an uploaded part with this filename is an artifact to register.
pub fn is_artifact(filename: &str) -> (r: bool)
    ensures
        r == is_artifact_name(filename@),
{
    let len = filename.unicode_len();
    if len < 4 {
        return false;
    }
    let r = filename.get_char(len - 4) == '.' && filename.get_char(len - 3) == 'w'
        && filename.get_char(len - 2) == 'h' && filename.get_char(len - 1) == 'l';
    proof {
        let s = filename@;
        let tail = s.subrange(s.len() - 4, s.len() as int);
        if r {
            assert(tail =~= artifact_extension());
        } else if tail == artifact_extension() {
            assert(tail[0] == s[s.len() - 4]);
            assert(tail[1] == s[s.len() - 3]);
            assert(tail[2] == s[s.len() - 2]);
            assert(tail[3] == s[s.len() - 1]);
        }
    }
    r
}

/// The position of the first separator in `s` at or after `from`, or the
/// length of `s` when there is none.
fn next_separator(s: &str, len: usize, from: usize) -> (r: usize)
    requires
        len == s@.len(),
        from <= len,
    ensures
        from <= r <= len,
        forall|i: int| from <= i < r ==> s@[i] != SEPARATOR,
        r == len || s@[r as int] == SEPARATOR,
{
    let mut i: usize = from;
    while i < len
        invariant
            len == s@.len(),
            from <= i <= len,
            forall|j: int| from <= j < i ==> s@[j] != SEPARATOR,
        decreases len - i,
    {
        if s.get_char(i) == SEPARATOR {
            return i;
        }
        i = i + 1;
    }
    i
}

/// Extracts the package name and version from an artifact filename of the
/// shape `name-version-...`: the first two segments between separators.
/// A filename without any separator is rejected with `InvalidFormat`.
/// Names and versions are taken as they stand, case included.
pub fn parse_filename(filename: &str) -> (r: Result<(String, String), RegistryError>)
    ensures
        r is Err <==> separator_free(filename@),
        r matches Err(e) ==> e is InvalidFormat,
        r matches Ok((name, version)) ==> splits_as(filename@, name@, version@),
{
    let len = filename.unicode_len();
    let i = next_separator(filename, len, 0);
    if i == len {
        return Err(RegistryError::InvalidFormat(String::from_str("Invalid package filename format")));
    }
    let j = next_separator(filename, len, i + 1);
    let name = String::from_str(filename.substring_char(0, i));
    let version = String::from_str(filename.substring_char(i + 1, j));
    proof {
        let s = filename@;
        assert forall|k: int| 0 <= k < name@.len() implies name@[k] != SEPARATOR by {
            assert(name@[k] == s[k]);
        }
        assert forall|k: int| 0 <= k < version@.len() implies version@[k] != SEPARATOR by {
            assert(version@[k] == s[i + 1 + k]);
        }
    }
    Ok((name, version))
}

} // verus!
