//! Validation of user-supplied names (repositories, branches, commits).

use vstd::prelude::*;
use vstd::string::*;

use crate::error::TaprootError;
use crate::text::{all_ws, byte_len, concat, has_char, is_blank, lemma_utf8_len_bounds};

verus! {

/// Some `(i, j)` delimits a whole `/`-separated segment of `v` that is `.` or `..`.
pub open spec fn dot_segment_at(v: Seq<char>, i: int, j: int) -> bool {
    &&& 0 <= i <= j <= v.len()
    &&& (i == 0 || v[i - 1] == '/')
    &&& (j == v.len() || v[j] == '/')
    &&& ((j - i == 1 && v[i] == '.') || (j - i == 2 && v[i] == '.' && v[i + 1] == '.'))
}

pub open spec fn has_dot_segment(v: Seq<char>) -> bool {
    exists|i: int, j: int| dot_segment_at(v, i, j)
}

pub open spec fn has_double_slash(v: Seq<char>) -> bool {
    exists|i: int| 0 <= i && i + 1 < v.len() && v[i] == '/' && #[trigger] v[i + 1] == '/'
}

/// The first rule that a name `v` breaks, as the message that reports it,
/// or `None` when `v` is an acceptable repository, branch or commit name.
pub open spec fn name_problem(field: Seq<char>, v: Seq<char>) -> Option<Seq<char>> {
    if all_ws(v) {
        Some(field + " must be non-empty"@)
    } else if vstd::utf8::encode_utf8(v).len() > 256 {
        Some(field + " too long (max 256)"@)
    } else if v.contains('\0') || v.contains('\\') {
        Some(field + " must not contain null byte or backslash"@)
    } else if v.contains('\n') || v.contains('\r') {
        Some(field + " must not contain newline"@)
    } else if v == seq!['.'] || v == seq!['.', '.'] {
        Some(field + " must not be '.' or '..'"@)
    } else if v[0] == '/' || v.last() == '/' {
        Some(field + " must not start or end with '/'"@)
    } else if has_double_slash(v) {
        Some(field + " must not contain '//'"@)
    } else if has_dot_segment(v) {
        Some(field + " segment must not be '.' or '..'"@)
    } else {
        None
    }
}

fn invalid(field: &str, msg: &str) -> (e: TaprootError)
    ensures
        e matches TaprootError::InvalidKey(m) && m@ == field@ + msg@,
{
    TaprootError::InvalidKey(concat(field, msg))
}

/// Checks that `value` is usable as the name `field` (a repository, branch or
/// commit): not blank, at most 256 bytes, free of NUL, backslash and line
/// breaks, not `.` or `..`, no leading or trailing `/`, no `//`, and no `.` or
/// `..` segment.
#[verifier::loop_isolation(false)]
pub fn validate_non_empty(field: &str, value: &str) -> (r: Result<(), TaprootError>)
    ensures
        match name_problem(field@, value@) {
            None => r is Ok,
            Some(m) => r matches Err(TaprootError::InvalidKey(e)) && e@ == m,
        },
{
    if is_blank(value) {
        return Err(invalid(field, " must be non-empty"));
    }
    if value.unicode_len() > 256 {
        proof {
            lemma_utf8_len_bounds(value@);
        }
        return Err(invalid(field, " too long (max 256)"));
    }
    if byte_len(value) > 256 {
        return Err(invalid(field, " too long (max 256)"));
    }
    if has_char(value, '\0') || has_char(value, '\\') {
        return Err(invalid(field, " must not contain null byte or backslash"));
    }
    if has_char(value, '\n') || has_char(value, '\r') {
        return Err(invalid(field, " must not contain newline"));
    }
    let n: usize = value.unicode_len();
    assert(n > 0);
    proof {
        lemma_utf8_len_bounds(value@);
    }
    if (n == 1 && value.get_char(0) == '.') || (n == 2 && value.get_char(0) == '.'
        && value.get_char(1) == '.') {
        assert(value@ =~= seq!['.'] || value@ =~= seq!['.', '.']);
        return Err(invalid(field, " must not be '.' or '..'"));
    }
    assert(value@ != seq!['.']) by {
        if value@ == seq!['.'] {
            assert(value@[0] == '.');
        }
    }
    assert(value@ != seq!['.', '.']) by {
        if value@ == seq!['.', '.'] {
            assert(value@[0] == '.' && value@[1] == '.');
        }
    }
    if value.get_char(0) == '/' || value.get_char(n - 1) == '/' {
        return Err(invalid(field, " must not start or end with '/'"));
    }
    // no "//"
    let mut i: usize = 0;
    while i + 1 < n
        invariant
            n == value@.len(),
            n <= 256,
            i <= n,
            forall|k: int| 0 <= k < i && k + 1 < n ==> !(value@[k] == '/' && #[trigger] value@[k + 1] == '/'),
        decreases n - i,
    {
        if value.get_char(i) == '/' && value.get_char(i + 1) == '/' {
            assert(has_double_slash(value@));
            assert(value@[0] != '/' && value@.last() != '/');
            assert(name_problem(field@, value@) == Some(field@ + " must not contain '//'"@));
            return Err(invalid(field, " must not contain '//'"));
        }
        i = i + 1;
    }
    assert(!has_double_slash(value@)) by {
        if has_double_slash(value@) {
            let k = choose|k: int| 0 <= k && k + 1 < value@.len() && value@[k] == '/' && #[trigger] value@[k + 1] == '/';
            assert(!(value@[k] == '/' && value@[k + 1] == '/'));
        }
    }
    // walk the segments
    let mut start: usize = 0;
    let mut j: usize = 0;
    while j <= n
        invariant
            n == value@.len(),
            n > 0,
            n <= 256,
            value@[0] != '/',
            value@[n - 1] != '/',
            !has_double_slash(value@),
            start <= j <= n + 1,
            j <= n ==> start <= j,
            start <= n + 1,
            start == 0 || start == n + 1 || value@[start - 1] == '/',
            forall|k: int| start <= k < j && k < n ==> value@[k] != '/',
            forall|a: int, b: int| 0 <= a <= b <= n && b < j && #[trigger] dot_segment_at(value@, a, b) ==> false,
        decreases n + 1 - j,
    {
        if j == n || value.get_char(j) == '/' {
            let len: usize = j - start;
            if (len == 1 && value.get_char(start) == '.') || (len == 2 && value.get_char(start)
                == '.' && value.get_char(start + 1) == '.') {
                assert(dot_segment_at(value@, start as int, j as int));
                return Err(invalid(field, " segment must not be '.' or '..'"));
            }
            if len == 0 && has_char(value, '/') {
                proof {
                    if start == 0 {
                        assert(value@[0] != '/');
                    } else if j == n {
                        assert(value@[n - 1] == '/');
                    } else {
                        assert(value@[start - 1] == '/' && value@[(start - 1) + 1] == '/');
                    }
                }
                return Err(invalid(field, " contains empty segment"));
            }
            proof {
                assert forall|a: int, b: int|
                    0 <= a <= b <= n && b < j + 1 && #[trigger] dot_segment_at(value@, a, b) implies false by {
                    if b == j {
                        if a < start {
                            // then value[start - 1] == '/' lies inside the segment [a, b)
                            assert(value@[a] == '.');
                            if b - a == 2 {
                                assert(value@[a + 1] == '.');
                            }
                        }
                    }
                }
            }
            start = j + 1;
        }
        j = j + 1;
    }
    assert(!has_dot_segment(value@)) by {
        if has_dot_segment(value@) {
            let (a, b) = choose|a: int, b: int| dot_segment_at(value@, a, b);
            assert(dot_segment_at(value@, a, b));
        }
    }
    Ok(())
}

} // verus!
